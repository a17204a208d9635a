//! Registers: `"a`-`"z`, the unnamed register, the yank register `"0`,
//! the numbered delete ring `"1`-`"9`, the small-delete register `"-`,
//! the clipboard register `"+` and the blackhole `"_`.
use crate::charmap::CharMap;
use crate::host::VimHost;
use crate::strs::{chars_of, lower_ascii_char, ascii_lower_char};
use vstd::prelude::*;

verus! {

#[derive(Clone, Copy, Debug, PartialEq, Eq, Structural)]
pub enum RegisterKind {
    Charwise,
    Linewise,
    /// Rows of a visual block.
    Blockwise,
}

#[derive(Debug, PartialEq, Eq)]
pub struct Register {
    pub text: String,
    pub kind: RegisterKind,
}

/// What a register holds.
pub struct Slot {
    pub text: Seq<char>,
    pub kind: RegisterKind,
}

impl View for Register {
    type V = Slot;

    open spec fn view(&self) -> Slot {
        Slot { text: self.text@, kind: self.kind }
    }
}

impl Clone for Register {
    fn clone(&self) -> (r: Self)
        ensures
            r@ == self@,
    {
        Register { text: self.text.clone(), kind: self.kind }
    }
}

pub const UNNAMED: char = '"';

pub const BLACKHOLE: char = '_';

pub const CLIPBOARD: char = '+';

pub const SMALL_DELETE: char = '-';

pub const YANK: char = '0';

/// The register file. `"x` reads/writes register `x`; the unnamed register is
/// the register named `"` itself and mirrors every write (vim semantics).
pub struct Registers {
    pub named: CharMap<Register>,
    /// Last written register for unnamed access.
    pub last: Option<Register>,
}

/// The contents of a register file: what is stored under each name, the
/// unnamed register under [`UNNAMED`].
pub open spec fn slot_of(r: Option<Register>) -> Option<Slot> {
    match r {
        Some(r) => Some(r@),
        None => None,
    }
}

/// `name` is one of the registers that an uppercase letter appends to.
pub open spec fn is_upper_name(name: char) -> bool {
    'A' <= name <= 'Z'
}

pub open spec fn ends_with_newline(s: Seq<char>) -> bool {
    s.len() > 0 && s.last() == '\n'
}

/// `old` with `new` appended: linewise as soon as one of them is, with each
/// part on lines of its own.
pub open spec fn appended(old: Option<Slot>, new: Slot) -> Slot {
    match old {
        Some(o) => {
            let linewise = o.kind == RegisterKind::Linewise || new.kind == RegisterKind::Linewise;
            let glue = if linewise && !ends_with_newline(o.text) {
                seq!['\n']
            } else {
                Seq::empty()
            };
            Slot {
                text: o.text + glue + new.text,
                kind: if linewise {
                    RegisterKind::Linewise
                } else {
                    o.kind
                },
            }
        },
        None => new,
    }
}

pub open spec fn has_newline(s: Seq<char>) -> bool {
    s.contains('\n')
}

/// The digit register behind `name` in the ring `"1` to `"9`.
pub open spec fn ring_source(name: char) -> Option<char> {
    if '2' <= name <= '9' {
        Some((name as u32 - 1) as char)
    } else {
        None
    }
}

/// The contents of a register file: what each name reads.
#[verifier::ext_equal]
pub struct RegFile {
    pub at: spec_fn(char) -> Option<Slot>,
}

impl RegFile {
    /// What register `name` holds.
    pub open spec fn slot(self, name: char) -> Option<Slot> {
        (self.at)(name)
    }

    /// What a write of `new` to `name` leaves in that register.
    pub open spec fn written(self, name: char, new: Slot) -> Slot {
        if is_upper_name(name) {
            appended(self.slot(ascii_lower_char(name)), new)
        } else {
            new
        }
    }

    /// After a write of `new` to `name`: the register and the unnamed one
    /// hold what was written, all others are unchanged. The blackhole
    /// swallows the write.
    pub open spec fn stored(self, name: char, new: Slot) -> RegFile {
        RegFile {
            at: |k: char|
                if name == BLACKHOLE || k == BLACKHOLE {
                    self.slot(k)
                } else if k == UNNAMED || k == ascii_lower_char(name) {
                    Some(self.written(name, new))
                } else {
                    self.slot(k)
                },
        }
    }

    /// After a yank: the named register and the unnamed one hold it, `"0` in
    /// place of the name when none is given. A yank into the blackhole still
    /// shows in the unnamed register.
    pub open spec fn yanked(self, name: Option<char>, new: Slot) -> RegFile {
        let target = match name {
            Some(n) => if n == UNNAMED {
                YANK
            } else {
                n
            },
            None => YANK,
        };
        RegFile {
            at: |k: char|
                if k == UNNAMED {
                    Some(
                        if target == BLACKHOLE {
                            new
                        } else {
                            self.written(target, new)
                        },
                    )
                } else if target != BLACKHOLE && k == ascii_lower_char(target) {
                    Some(self.written(target, new))
                } else {
                    self.slot(k)
                },
        }
    }

    /// A deletion that goes to the ring: it spans lines.
    pub open spec fn goes_to_ring(new: Slot) -> bool {
        new.kind == RegisterKind::Linewise || has_newline(new.text)
    }

    /// After a deletion. One without a register that spans lines is stored in
    /// `"1` and pushes `"1` to `"8` one further, a smaller one is stored in
    /// `"-`.
    pub open spec fn deleted(self, name: Option<char>, new: Slot) -> RegFile {
        match name {
            Some(name) => self.stored(name, new),
            None => if RegFile::goes_to_ring(new) {
                RegFile {
                    at: |k: char|
                        if k == '1' || k == UNNAMED {
                            Some(new)
                        } else if ring_source(k) is Some && self.slot(ring_source(k)->0) is Some {
                            self.slot(ring_source(k)->0)
                        } else {
                            self.slot(k)
                        },
                }
            } else {
                self.stored(SMALL_DELETE, new)
            },
        }
    }

    /// What pasting `name` inserts, given the clipboard's contents.
    pub open spec fn paste_slot(self, name: char, clip: Option<Seq<char>>) -> Option<Slot> {
        if name == CLIPBOARD {
            match clip {
                Some(text) => Some(
                    Slot {
                        text,
                        kind: if has_newline(text) {
                            RegisterKind::Linewise
                        } else {
                            RegisterKind::Charwise
                        },
                    },
                ),
                None => None,
            }
        } else {
            self.slot(name)
        }
    }
}

/// A register file in which nothing is stored.
pub open spec fn empty_registers() -> RegFile {
    RegFile { at: |k: char| None }
}

impl View for Registers {
    type V = RegFile;

    closed spec fn view(&self) -> RegFile {
        RegFile { at: |k: char| self.slot(k) }
    }
}

impl Registers {
    /// What register `name` holds.
    pub open spec fn slot(self, name: char) -> Option<Slot> {
        if name == UNNAMED {
            slot_of(self.last)
        } else if name == BLACKHOLE {
            None
        } else {
            slot_of(self.named.at(name))
        }
    }

    pub fn new() -> (r: Self)
        ensures
            r@ == empty_registers(),
    {
        let r = Registers { named: CharMap::new(), last: None };
        proof {
            assert forall|k: char| #[trigger] r.slot(k) is None by {
                assert(r.named.at(k) is None);
            }
        }
        r
    }

    pub fn get(&self, name: char) -> (r: Option<&Register>)
        ensures
            r is Some == self@.slot(name) is Some,
            r matches Some(v) ==> self@.slot(name) == Some(v@),
    {
        if name == UNNAMED {
            self.last.as_ref()
        } else if name == BLACKHOLE {
            None
        } else {
            self.named.get(name)
        }
    }

    /// Register contents for a paste, resolving the clipboard register
    /// through the host.
    pub fn get_for_paste<H: VimHost>(&self, name: char, host: &H) -> (r: Option<Register>)
        ensures
            slot_of(r) == self@.paste_slot(name, host.clip()),
    {
        if name == CLIPBOARD {
            match host.clipboard_read() {
                Some(text) => {
                    let kind = if contains_newline(text.as_str()) {
                        RegisterKind::Linewise
                    } else {
                        RegisterKind::Charwise
                    };
                    Some(Register { text, kind })
                },
                None => None,
            }
        } else {
            match self.get(name) {
                Some(r) => Some(r.clone()),
                None => None,
            }
        }
    }

    /// Write to a register. `name` of `UNNAMED` writes to the unnamed slot
    /// only. Every write also updates the unnamed mirror (except the
    /// blackhole), matching vim. An uppercase name appends to its register.
    pub fn store(&mut self, name: char, text: String, kind: RegisterKind)
        ensures
            final(self)@ == old(self)@.stored(name, Slot { text: text@, kind }),
    {
        if name == BLACKHOLE {
            return;
        }
        let register = Register { text, kind };
        if name == UNNAMED {
            self.last = Some(register);
            return;
        }
        let (target, register) = if 'A' <= name && name <= 'Z' {
            let low = lower_ascii_char(name);
            let merged = match self.get(low) {
                Some(before) => merge(before, &register),
                None => register,
            };
            (low, merged)
        } else {
            (name, register)
        };
        self.named.insert(target, register.clone());
        self.last = Some(register);
    }

    /// Yank semantics: explicit register, else `"0` + unnamed.
    pub fn store_yank(&mut self, explicit: Option<char>, text: String, kind: RegisterKind)
        ensures
            final(self)@ == old(self)@.yanked(explicit, Slot { text: text@, kind }),
    {
        let name = match explicit {
            Some(name) => if name != UNNAMED {
                name
            } else {
                YANK
            },
            None => YANK,
        };
        if name == BLACKHOLE {
            self.last = Some(Register { text, kind });
        } else {
            self.store(name, text, kind);
        }
    }

    /// Delete semantics: explicit register, else the numbered ring for
    /// multi-line deletes and `"-` for small deletes.
    pub fn store_delete(&mut self, explicit: Option<char>, text: String, kind: RegisterKind)
        ensures
            final(self)@ == old(self)@.deleted(explicit, Slot { text: text@, kind }),
    {
        match explicit {
            Some(name) => {
                self.store(name, text, kind);
            },
            None => {
                if kind == RegisterKind::Linewise || contains_newline(text.as_str()) {
                    // shift 1..8 -> 2..9, then record into "1
                    self.shift_ring();
                    self.store('1', text, kind);
                } else {
                    self.store(SMALL_DELETE, text, kind);
                }
            },
        }
    }

    fn shift_ring(&mut self)
        ensures
            forall|k: char| #[trigger]
                final(self).slot(k) == if ring_source(k) is Some && old(self).slot(
                    ring_source(k)->0,
                ) is Some {
                    old(self).slot(ring_source(k)->0)
                } else {
                    old(self).slot(k)
                },
    {
        let mut i: u8 = 9;
        while i >= 2
            invariant
                1 <= i <= 9,
                forall|k: char| #[trigger]
                    self.slot(k) == if ring_source(k) is Some && k as u32 > '0' as u32 + i
                        && old(self).slot(ring_source(k)->0) is Some {
                        old(self).slot(ring_source(k)->0)
                    } else {
                        old(self).slot(k)
                    },
            decreases i,
        {
            let from = (48 + (i - 1)) as char;
            let to = (48 + i) as char;
            let ghost before = *self;
            let moved = match self.named.get(from) {
                Some(r) => Some(r.clone()),
                None => None,
            };
            if let Some(r) = moved {
                self.named.insert(to, r);
            }
            proof {
                assert forall|k: char| #[trigger]
                    self.slot(k) == if ring_source(k) is Some && k as u32 > '0' as u32 + (i - 1)
                        && old(self).slot(ring_source(k)->0) is Some {
                        old(self).slot(ring_source(k)->0)
                    } else {
                        old(self).slot(k)
                    } by {
                    assert(before.slot(from) == old(self).slot(from));
                    assert(before.slot(k) == before.slot(k));
                }
            }
            i = i - 1;
        }
    }
}

impl Default for Registers {
    fn default() -> (r: Self)
        ensures
            r@ == empty_registers(),
    {
        Registers::new()
    }
}

/// `text` spans lines.
pub(crate) fn contains_newline(text: &str) -> (b: bool)
    ensures
        b == has_newline(text@),
{
    let v = chars_of(text);
    let mut i: usize = 0;
    while i < v.len()
        invariant
            i <= v.len(),
            v@ == text@,
            forall|k: int| 0 <= k < i ==> #[trigger] v@[k] != '\n',
        decreases v.len() - i,
    {
        if v[i] == '\n' {
            proof {
                assert(text@[i as int] == '\n');
            }
            return true;
        }
        i = i + 1;
    }
    false
}

/// The contents of a register with more appended.
fn merge(before: &Register, new: &Register) -> (r: Register)
    ensures
        r@ == appended(Some(before@), new@),
{
    let linewise = before.kind == RegisterKind::Linewise || new.kind == RegisterKind::Linewise;
    let v = chars_of(before.text.as_str());
    let mut text = before.text.clone();
    if linewise && !(v.len() > 0 && v[v.len() - 1] == '\n') {
        text.push('\n');
    }
    text.push_str(new.text.as_str());
    proof {
        assert(text@ =~= appended(Some(before@), new@).text);
    }
    Register {
        text,
        kind: if linewise {
            RegisterKind::Linewise
        } else {
            before.kind
        },
    }
}

/// After a write to a register, the register and the unnamed one read back
/// what was written.
pub proof fn store_then_read(file: RegFile, name: char, new: Slot)
    requires
        name != BLACKHOLE,
        !is_upper_name(name),
    ensures
        file.stored(name, new).slot(name) == Some(new),
        file.stored(name, new).slot(UNNAMED) == Some(new),
{
}

/// The blackhole swallows: nothing that can be read has changed.
pub proof fn blackhole_keeps_everything(file: RegFile, new: Slot)
    ensures
        file.stored(BLACKHOLE, new) == file,
{
    assert(file.stored(BLACKHOLE, new) =~= file);
}

/// An uppercase name appends: what the register held comes first.
pub proof fn uppercase_appends(file: RegFile, name: char, new: Slot, held: Slot)
    requires
        is_upper_name(name),
        file.slot(ascii_lower_char(name)) == Some(held),
        held.kind == new.kind,
        held.kind == RegisterKind::Charwise || (held.kind == RegisterKind::Linewise
            && ends_with_newline(held.text)),
    ensures
        file.stored(name, new).slot(ascii_lower_char(name)) == Some(
            Slot { text: held.text + new.text, kind: held.kind },
        ),
        file.stored(name, new).slot(UNNAMED) == file.stored(name, new).slot(
            ascii_lower_char(name),
        ),
{
    assert(held.text + Seq::<char>::empty() + new.text =~= held.text + new.text);
}

/// The last nine multi-line deletions are kept, the newest in `"1`: after a
/// deletion `"n` holds what `"n-1` held.
pub proof fn ring_keeps_nine(file: RegFile, new: Slot, k: char)
    requires
        RegFile::goes_to_ring(new),
        '2' <= k <= '9',
        file.slot((k as u32 - 1) as char) is Some,
    ensures
        file.deleted(None, new).slot('1') == Some(new),
        file.deleted(None, new).slot(k) == file.slot((k as u32 - 1) as char),
{
}

} // verus!
