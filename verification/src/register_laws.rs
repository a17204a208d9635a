//! Which registers a yank, a deletion and a put touch.
use crate::registers::{RegFile, RegisterKind, Slot};
use crate::strs::ascii_lower_char;
use vstd::prelude::*;

verus! {

/// A deletion for which no register was given never changes `"0`.
pub proof fn a_deletion_keeps_the_yank(file: RegFile, new: Slot)
    ensures
        file.deleted(None, new).slot('0') == file.slot('0'),
{
}

/// A deletion within a line for which no register was given is read back from
/// `"-` and from the unnamed register; all others stay.
pub proof fn a_small_deletion_goes_to_the_dash(file: RegFile, new: Slot, k: char)
    requires
        new.kind != RegisterKind::Linewise,
        !new.text.contains('\n'),
    ensures
        file.deleted(None, new).slot('-') == Some(new),
        file.deleted(None, new).slot('"') == Some(new),
        k != '-' && k != '"' ==> file.deleted(None, new).slot(k) == file.slot(k),
{
}

/// A deletion that is linewise or holds a newline, for which no register was
/// given, is read back from `"1` and from the unnamed register. What `"1` to
/// `"8` held is one further, and all other registers stay.
pub proof fn a_large_deletion_goes_to_the_ring(file: RegFile, new: Slot, k: char)
    requires
        new.kind == RegisterKind::Linewise || new.text.contains('\n'),
    ensures
        file.deleted(None, new).slot('1') == Some(new),
        file.deleted(None, new).slot('"') == Some(new),
        file.slot('1') is Some ==> file.deleted(None, new).slot('2') == file.slot('1'),
        file.slot('2') is Some ==> file.deleted(None, new).slot('3') == file.slot('2'),
        file.slot('3') is Some ==> file.deleted(None, new).slot('4') == file.slot('3'),
        file.slot('4') is Some ==> file.deleted(None, new).slot('5') == file.slot('4'),
        file.slot('5') is Some ==> file.deleted(None, new).slot('6') == file.slot('5'),
        file.slot('6') is Some ==> file.deleted(None, new).slot('7') == file.slot('6'),
        file.slot('7') is Some ==> file.deleted(None, new).slot('8') == file.slot('7'),
        file.slot('8') is Some ==> file.deleted(None, new).slot('9') == file.slot('8'),
        !('1' <= k <= '9') && k != '"' ==> file.deleted(None, new).slot(k) == file.slot(k),
{
}

/// A deletion into a named register is read back from it and from the unnamed
/// register, and all others stay: the ring and `"-` too.
pub proof fn a_named_deletion_touches_no_other_register(
    file: RegFile,
    name: char,
    new: Slot,
    k: char,
)
    requires
        'a' <= name <= 'z',
    ensures
        file.deleted(Some(name), new).slot(name) == Some(new),
        file.deleted(Some(name), new).slot('"') == Some(new),
        k != name && k != '"' ==> file.deleted(Some(name), new).slot(k) == file.slot(k),
{
}

/// A yank for which no register was given is read back from `"0` and from the
/// unnamed register, and all others stay. So it is when the unnamed register is
/// named.
pub proof fn a_yank_goes_to_zero(file: RegFile, new: Slot, k: char)
    ensures
        file.yanked(None, new).slot('0') == Some(new),
        file.yanked(None, new).slot('"') == Some(new),
        k != '0' && k != '"' ==> file.yanked(None, new).slot(k) == file.slot(k),
        file.yanked(Some('"'), new).slot(k) == file.yanked(None, new).slot(k),
{
}

/// A yank into a named register is read back from it and from the unnamed
/// register, and all others stay, `"0` too.
pub proof fn a_named_yank_touches_no_other_register(file: RegFile, name: char, new: Slot, k: char)
    requires
        'a' <= name <= 'z',
    ensures
        file.yanked(Some(name), new).slot(name) == Some(new),
        file.yanked(Some(name), new).slot('"') == Some(new),
        k != name && k != '"' ==> file.yanked(Some(name), new).slot(k) == file.slot(k),
{
}

/// The blackhole register takes a deletion without a trace. Nothing is ever
/// read back from it.
pub proof fn the_blackhole_leaves_no_trace(file: RegFile, new: Slot, k: char)
    ensures
        file.deleted(Some('_'), new).slot(k) == file.slot(k),
        k != '"' ==> file.yanked(Some('_'), new).slot(k) == file.slot(k),
{
}

/// The uppercase name of a register appends to it. The text that was held comes
/// first; where one of the two is linewise, both stand on lines of their own.
pub proof fn an_uppercase_name_appends(
    file: RegFile,
    name: char,
    upper: char,
    held: Slot,
    new: Slot,
    k: char,
)
    requires
        'A' <= upper <= 'Z',
        name as u32 == upper as u32 + 32,
        file.slot(name) == Some(held),
    ensures
        ({
            let after = file.stored(upper, new);
            &&& file.deleted(Some(upper), new).slot(k) == after.slot(k)
            &&& file.yanked(Some(upper), new).slot(k) == after.slot(k)
            &&& k != name && k != '"' ==> after.slot(k) == file.slot(k)
            &&& after.slot(name) is Some
            &&& after.slot('"') == after.slot(name)
            &&& held.kind != RegisterKind::Linewise && new.kind != RegisterKind::Linewise
                ==> after.slot(name)->0.text == held.text + new.text && after.slot(name)->0.kind
                == held.kind
            &&& held.kind == RegisterKind::Linewise || new.kind == RegisterKind::Linewise ==> {
                &&& after.slot(name)->0.kind == RegisterKind::Linewise
                &&& held.text.len() > 0 && held.text.last() == '\n' ==> after.slot(name)->0.text
                    == held.text + new.text
                &&& !(held.text.len() > 0 && held.text.last() == '\n') ==> after.slot(
                    name,
                )->0.text == held.text + seq!['\n'] + new.text
            }
        }),
{
    assert(ascii_lower_char(upper) == name);
    assert(held.text + Seq::<char>::empty() =~= held.text);
}

/// The uppercase name of a register that holds nothing stores what is given.
pub proof fn an_uppercase_name_starts_a_register(
    file: RegFile,
    name: char,
    upper: char,
    new: Slot,
    k: char,
)
    requires
        'A' <= upper <= 'Z',
        name as u32 == upper as u32 + 32,
        file.slot(name) is None,
    ensures
        file.stored(upper, new).slot(name) == Some(new),
        file.stored(upper, new).slot('"') == Some(new),
        k != name && k != '"' ==> file.stored(upper, new).slot(k) == file.slot(k),
{
    assert(ascii_lower_char(upper) == name);
}

/// A put reads the register that it names; only `"+` reads the clipboard, whole
/// lines when a newline is in it.
pub proof fn a_put_reads_its_register(file: RegFile, name: char, clip: Option<Seq<char>>)
    ensures
        name != '+' ==> file.paste_slot(name, clip) == file.slot(name),
        file.paste_slot('+', clip) is Some == clip is Some,
        clip matches Some(text) ==> file.paste_slot('+', clip)->0.text == text && (
        file.paste_slot('+', clip)->0.kind == if text.contains('\n') {
            RegisterKind::Linewise
        } else {
            RegisterKind::Charwise
        }),
{
}

} // verus!
