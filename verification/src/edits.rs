//! The edits behind the operators and the simple editing commands.
use crate::buffer::{clamp_to_line_end, VimBuffer, VimBufferMut};
use crate::cells::{cells, char_len, width};
use crate::chars::{
    char_to_lowercase, char_to_uppercase, is_lower, is_white, lower, lowercase_of, uppercase_of,
    white,
};
use crate::doc::{max, min, Doc};
use crate::host::{hears, lemma_one_call, told_is_heard, HostCall, VimHost};
use crate::ops::{OpSpan, Operator, span};
use crate::registers::{RegFile, RegisterKind, Slot, CLIPBOARD};
use crate::shift::plus;
use crate::state::{Ctx, Vim, VimState, World};
use crate::strs::{byte_len, chars_of, string_of};
use vstd::prelude::*;

verus! {

// ---- small texts ----------------------------------------------------------------------------

/// `n` times the character `c`.
pub open spec fn run_of(c: char, n: int) -> Seq<char> {
    Seq::new(n as nat, |i: int| c)
}

pub(crate) fn run_text(c: char, n: usize) -> (s: String)
    ensures
        s@ == run_of(c, n as int),
{
    let mut s = String::new();
    let mut i: usize = 0;
    while i < n
        invariant
            i <= n,
            s@ == run_of(c, i as int),
        decreases n - i,
    {
        s.push(c);
        i = i + 1;
        proof {
            assert(s@ =~= run_of(c, i as int));
        }
    }
    s
}

/// `n` times the text `s`.
pub open spec fn repeated(s: Seq<char>, n: int) -> Seq<char>
    decreases n,
{
    if n <= 0 {
        Seq::empty()
    } else {
        repeated(s, n - 1) + s
    }
}

pub(crate) fn repeat_text(text: &str, n: usize) -> (s: String)
    ensures
        s@ == repeated(text@, n as int),
{
    let mut s = String::new();
    let mut i: usize = 0;
    while i < n
        invariant
            i <= n,
            s@ == repeated(text@, i as int),
        decreases n - i,
    {
        s.push_str(text);
        i = i + 1;
    }
    s
}

/// `s` without the newlines at its end.
pub open spec fn without_newlines(s: Seq<char>) -> Seq<char>
    decreases s.len(),
{
    if s.len() > 0 && s.last() == '\n' {
        without_newlines(s.drop_last())
    } else {
        s
    }
}

pub(crate) fn trim_newlines(text: &str) -> (s: String)
    ensures
        s@ == without_newlines(text@),
{
    let v = chars_of(text);
    let mut n: usize = v.len();
    proof {
        assert(v@.take(n as int) =~= v@);
    }
    while n > 0 && v[n - 1] == '\n'
        invariant
            n <= v.len(),
            without_newlines(v@.take(n as int)) == without_newlines(v@),
        decreases n,
    {
        proof {
            assert(v@.take(n as int).drop_last() =~= v@.take(n - 1));
        }
        n = n - 1;
    }
    proof {
        assert(v@.subrange(0, n as int) =~= v@.take(n as int));
    }
    string_of(&v, 0, n)
}

pub(crate) fn ends_in(text: &str, c: char) -> (b: bool)
    ensures
        b == (text@.len() > 0 && text@.last() == c),
{
    let v = chars_of(text);
    v.len() > 0 && v[v.len() - 1] == c
}

/// `s` with a newline at its end.
pub open spec fn with_newline(s: Seq<char>) -> Seq<char> {
    if s.len() > 0 && s.last() == '\n' {
        s
    } else {
        s.push('\n')
    }
}

pub(crate) fn close_line(text: String) -> (s: String)
    ensures
        s@ == with_newline(text@),
{
    if ends_in(text.as_str(), '\n') {
        text
    } else {
        let mut s = text;
        s.push('\n');
        s
    }
}

/// `start + n`, or the largest offset when that is beyond it.
pub open spec fn behind(start: int, text: Seq<char>) -> int {
    min(start + cells(text).len(), usize::MAX as int)
}

// ---- deleting and yanking -----------------------------------------------------------------------

pub open spec fn kind_of(s: OpSpan) -> RegisterKind {
    if s.linewise {
        RegisterKind::Linewise
    } else {
        RegisterKind::Charwise
    }
}

fn register_kind(s: &OpSpan) -> (k: RegisterKind)
    ensures
        k == kind_of(*s),
{
    if s.linewise {
        RegisterKind::Linewise
    } else {
        RegisterKind::Charwise
    }
}

impl World {
    /// What goes to the clipboard register goes to the host's clipboard, too.
    #[verifier::opaque]
    pub open spec fn copy_out(self, register: Option<char>, text: Seq<char>) -> World {
        if register == Some(CLIPBOARD) {
            self.say(HostCall::Copy(text))
        } else {
            self
        }
    }

    pub open spec fn with_registers(self, registers: RegFile) -> World {
        World { vim: Vim { registers, ..self.vim }, ..self }
    }

    /// What a span holds, for a register.
    pub open spec fn slot_of_span<B: VimBuffer>(self, s: OpSpan) -> Slot {
        Slot { text: B::piece(self.doc, s.start as int, s.end as int), kind: kind_of(s) }
    }

    /// The span deleted into the register. The cursor is on the first
    /// non-blank of the line that took the place of deleted lines, else where
    /// the span began.
    #[verifier::opaque]
    pub open spec fn delete_span<B: VimBufferMut>(self, s: OpSpan, register: Option<char>) -> World {
        let slot = self.slot_of_span::<B>(s);
        let u = self.copy_out(register, slot.text);
        let w = u.with_registers(u.vim.registers.deleted(register, slot)).edit_delete::<B>(
            s.start as int,
            s.end as int,
        );
        w.moved_to(
            if s.linewise {
                w.doc.first_non_blank(
                    min(w.doc.line_of(s.start as int), w.doc.line_count() - 1),
                )
            } else {
                w.doc.clamp(s.start as int)
            },
        )
    }

    /// The span yanked into the register.
    #[verifier::opaque]
    pub open spec fn yank_span<B: VimBuffer>(self, s: OpSpan, register: Option<char>) -> World {
        let slot = self.slot_of_span::<B>(s);
        let w = self.copy_out(register, slot.text);
        w.with_registers(w.vim.registers.yanked(register, slot))
    }
}

/// What is yanked into the clipboard register is handed to the host; what goes
/// to another register is not. `host` is what `old_host` became meanwhile.
pub proof fn clipboard_register_reaches_the_host<B: VimBuffer, H: VimHost>(
    w: World,
    s: OpSpan,
    register: Option<char>,
    host: H,
    old_host: H,
)
    requires
        hears(host, w.yank_span::<B>(s, register).vim.told, old_host, w.vim.told),
    ensures
        host.told() == if register == Some(CLIPBOARD) {
            old_host.told().push(HostCall::Copy(B::piece(w.doc, s.start as int, s.end as int)))
        } else {
            old_host.told()
        },
{
    reveal(World::yank_span);
    reveal(World::copy_out);
    let log = w.yank_span::<B>(s, register).vim.told;
    told_is_heard(host, log, old_host, w.vim.told);
    let call = HostCall::Copy(B::piece(w.doc, s.start as int, s.end as int));
    let gained = log.skip(w.vim.told.len() as int);
    if register == Some(CLIPBOARD) {
        assert(gained =~= seq![call]);
        assert(old_host.told() + gained =~= old_host.told().push(call));
    } else {
        assert(gained =~= Seq::empty());
        assert(old_host.told() + gained =~= old_host.told());
    }
}

impl VimState {
    fn store_deleted(&mut self, register: Option<char>, text: String, kind: RegisterKind)
        ensures
            final(self)@ == (Vim {
                registers: old(self)@.registers.deleted(register, Slot { text: text@, kind }),
                ..old(self)@
            }),
    {
        self.registers.store_delete(register, text, kind);
    }

    fn store_yanked(&mut self, register: Option<char>, text: String, kind: RegisterKind)
        ensures
            final(self)@ == (Vim {
                registers: old(self)@.registers.yanked(register, Slot { text: text@, kind }),
                ..old(self)@
            }),
    {
        self.registers.store_yank(register, text, kind);
    }

    /// Hands text for the clipboard register to the host.
    fn copy_out<B: VimBufferMut, H: VimHost>(
        &mut self,
        ctx: &mut Ctx<B, H>,
        register: Option<char>,
        text: &str,
    )
        ensures
            *final(final(ctx).buf) == *final(old(ctx).buf),
            *final(final(ctx).host) == *final(old(ctx).host),
            hears(*final(ctx).host, final(self)@.told, *old(ctx).host, old(self)@.told),
            final(ctx).world(*final(self)) == old(ctx).world(*old(self)).copy_out(register, text@),
    {
        proof {
            reveal(World::copy_out);
        }
        if let Some(name) = register {
            if name == CLIPBOARD {
                ctx.host.clipboard_write(text);
                proof {
                    let call = HostCall::Copy(text@);
                    self.told@ = self.told@.push(call);
                    lemma_one_call(*ctx.host, *old(ctx).host, old(self)@.told, call);
                }
            }
        }
    }

    /// Deleted text goes to its register, and from there to the clipboard.
    fn keep_deleted<B: VimBufferMut, H: VimHost>(
        &mut self,
        ctx: &mut Ctx<B, H>,
        register: Option<char>,
        text: String,
        kind: RegisterKind,
    )
        ensures
            *final(final(ctx).buf) == *final(old(ctx).buf),
            *final(final(ctx).host) == *final(old(ctx).host),
            hears(*final(ctx).host, final(self)@.told, *old(ctx).host, old(self)@.told),
            final(ctx).world(*final(self)) == ({
                let w = old(ctx).world(*old(self)).copy_out(register, text@);
                w.with_registers(w.vim.registers.deleted(register, Slot { text: text@, kind }))
            }),
    {
        self.copy_out(ctx, register, text.as_str());
        self.store_deleted(register, text, kind);
    }

    /// Yanked text goes to its register, and from there to the clipboard.
    pub(crate) fn keep_yanked<B: VimBufferMut, H: VimHost>(
        &mut self,
        ctx: &mut Ctx<B, H>,
        register: Option<char>,
        text: String,
        kind: RegisterKind,
    )
        ensures
            *final(final(ctx).buf) == *final(old(ctx).buf),
            *final(final(ctx).host) == *final(old(ctx).host),
            hears(*final(ctx).host, final(self)@.told, *old(ctx).host, old(self)@.told),
            final(ctx).world(*final(self)) == ({
                let w = old(ctx).world(*old(self)).copy_out(register, text@);
                w.with_registers(w.vim.registers.yanked(register, Slot { text: text@, kind }))
            }),
    {
        self.copy_out(ctx, register, text.as_str());
        self.store_yanked(register, text, kind);
    }

    /// Puts the cursor at `offset`, no column remembered.
    pub(crate) fn place(&mut self, offset: usize)
        ensures
            final(self)@ == old(self)@.moved_to(offset as int),
    {
        self.cursor.offset = offset;
        self.cursor.desired_col = None;
    }

    /// Puts the cursor at `offset`; a remembered column stays.
    pub(crate) fn set_offset(&mut self, offset: usize)
        ensures
            final(self)@ == old(self)@.at(offset as int),
    {
        self.cursor.offset = offset;
    }

    /// Puts the cursor on the first non-blank of `line`.
    pub(crate) fn place_on_line<B: VimBufferMut, H: VimHost>(
        &mut self,
        ctx: &mut Ctx<B, H>,
        line: usize,
    )
        ensures
            *final(final(ctx).buf) == *final(old(ctx).buf),
            *final(final(ctx).host) == *final(old(ctx).host),
            hears(*final(ctx).host, final(self)@.told, *old(ctx).host, old(self)@.told),
            final(ctx).world(*final(self)) == old(ctx).world(*old(self)).moved_to(
                old(ctx).buf.doc().first_non_blank(
                    min(line as int, old(ctx).buf.doc().line_count() - 1),
                ),
            ),
            final(ctx).env() == old(ctx).env(),
    {
        proof {
            ctx.buf.doc_wf();
        }
        let last = ctx.buf.line_count() - 1;
        let line: usize = if line <= last {
            line
        } else {
            last
        };
        let at = ctx.buf.first_non_blank(line);
        self.place(at);
    }

    /// Puts the cursor at `offset`, but not behind its line.
    pub(crate) fn place_in_line<B: VimBufferMut, H: VimHost>(
        &mut self,
        ctx: &mut Ctx<B, H>,
        offset: usize,
    )
        ensures
            *final(final(ctx).buf) == *final(old(ctx).buf),
            *final(final(ctx).host) == *final(old(ctx).host),
            hears(*final(ctx).host, final(self)@.told, *old(ctx).host, old(self)@.told),
            final(ctx).world(*final(self)) == old(ctx).world(*old(self)).moved_to(
                old(ctx).buf.doc().clamp(offset as int),
            ),
            final(ctx).env() == old(ctx).env(),
    {
        let at = clamp_to_line_end(&*ctx.buf, offset);
        self.place(at);
    }
}

/// Delete the span into the register; updates the cursor.
pub fn delete_span<B: VimBufferMut, H: VimHost>(
    vim: &mut VimState,
    ctx: &mut Ctx<B, H>,
    span: &OpSpan,
    register: Option<char>,
)
    ensures
        *final(final(ctx).buf) == *final(old(ctx).buf),
        *final(final(ctx).host) == *final(old(ctx).host),
        hears(*final(ctx).host, final(vim)@.told, *old(ctx).host, old(vim)@.told),
        final(ctx).world(*final(vim)) == old(ctx).world(*old(vim)).delete_span::<B>(
            *span,
            register,
        ),
{
    proof {
        reveal(World::delete_span);
    }
    let text = ctx.buf.slice(span.start..span.end);
    vim.keep_deleted(ctx, register, text, register_kind(span));
    vim.edit_delete(ctx, span.start..span.end);
    if span.linewise {
        let line = ctx.buf.offset_to_line(span.start);
        vim.place_on_line(ctx, line);
    } else {
        vim.place_in_line(ctx, span.start);
    }
}

/// Yank the span into the register.
pub fn yank_span<B: VimBufferMut, H: VimHost>(
    vim: &mut VimState,
    ctx: &mut Ctx<B, H>,
    span: &OpSpan,
    register: Option<char>,
)
    ensures
        *final(final(ctx).buf) == *final(old(ctx).buf),
        *final(final(ctx).host) == *final(old(ctx).host),
        hears(*final(ctx).host, final(vim)@.told, *old(ctx).host, old(vim)@.told),
        final(ctx).world(*final(vim)) == old(ctx).world(*old(vim)).yank_span::<B>(*span, register),
{
    proof {
        reveal(World::yank_span);
    }
    let text = ctx.buf.slice(span.start..span.end);
    vim.keep_yanked(ctx, register, text, register_kind(span));
}

// ---- case -----------------------------------------------------------------------------------------

/// A character with its case changed. One character may become several.
pub open spec fn toggled(c: char) -> Seq<char> {
    if lower(c) {
        uppercase_of(c)
    } else {
        lowercase_of(c)
    }
}

pub open spec fn recased(op: Operator, c: char) -> Seq<char> {
    match op {
        Operator::Lowercase => lowercase_of(c),
        Operator::Uppercase => uppercase_of(c),
        _ => toggled(c),
    }
}

/// A text with the case of every character changed.
pub open spec fn recased_text(op: Operator, s: Seq<char>) -> Seq<char>
    decreases s.len(),
{
    if s.len() == 0 {
        Seq::empty()
    } else {
        recased_text(op, s.drop_last()) + recased(op, s.last())
    }
}

fn push_chars(s: &mut String, v: &Vec<char>)
    ensures
        final(s)@ == old(s)@ + v@,
{
    let text = string_of(v, 0, v.len());
    proof {
        assert(v@.subrange(0, v.len() as int) =~= v@);
    }
    s.push_str(text.as_str());
}

/// The other case of `c`; the mapping may be longer than one character.
pub fn toggle_case(c: char) -> (s: String)
    ensures
        s@ == toggled(c),
{
    let v = if is_lower(c) {
        char_to_uppercase(c)
    } else {
        char_to_lowercase(c)
    };
    proof {
        assert(v@.subrange(0, v.len() as int) =~= v@);
    }
    string_of(&v, 0, v.len())
}

fn recase(op: Operator, c: char) -> (v: Vec<char>)
    ensures
        v@ == recased(op, c),
{
    match op {
        Operator::Lowercase => char_to_lowercase(c),
        Operator::Uppercase => char_to_uppercase(c),
        _ => if is_lower(c) {
            char_to_uppercase(c)
        } else {
            char_to_lowercase(c)
        },
    }
}

fn recase_text(op: Operator, text: &str) -> (s: String)
    ensures
        s@ == recased_text(op, text@),
{
    let v = chars_of(text);
    let mut s = String::new();
    let mut i: usize = 0;
    while i < v.len()
        invariant
            i <= v.len(),
            s@ == recased_text(op, v@.take(i as int)),
        decreases v.len() - i,
    {
        proof {
            assert(v@.take(i + 1).drop_last() =~= v@.take(i as int));
        }
        let m = recase(op, v[i]);
        push_chars(&mut s, &m);
        i = i + 1;
    }
    proof {
        assert(v@.take(i as int) =~= v@);
    }
    s
}

impl World {
    /// The case of a span changed.
    #[verifier::opaque]
    pub open spec fn recase<B: VimBufferMut>(self, op: Operator, s: OpSpan) -> World {
        let w = self.edit_replace::<B>(
            s.start as int,
            s.end as int,
            recased_text(op, B::piece(self.doc, s.start as int, s.end as int)),
        );
        w.moved_to(w.doc.clamp(s.start as int))
    }
}

pub(crate) fn recase_span<B: VimBufferMut, H: VimHost>(
    vim: &mut VimState,
    ctx: &mut Ctx<B, H>,
    op: Operator,
    span: &OpSpan,
)
    ensures
        *final(final(ctx).buf) == *final(old(ctx).buf),
        *final(final(ctx).host) == *final(old(ctx).host),
        hears(*final(ctx).host, final(vim)@.told, *old(ctx).host, old(vim)@.told),
        final(ctx).world(*final(vim)) == old(ctx).world(*old(vim)).recase::<B>(op, *span),
        final(ctx).env() == old(ctx).env(),
{
    proof {
        reveal(World::recase);
    }
    let text = ctx.buf.slice(span.start..span.end);
    let mapped = recase_text(op, text.as_str());
    vim.edit_replace(ctx, span.start..span.end, mapped.as_str());
    vim.place_in_line(ctx, span.start);
}

// ---- indenting -------------------------------------------------------------------------------------

/// Where up to `width` columns of indent, from `o` to `end`, end. A tab counts
/// as a full unit.
pub open spec fn indent_cut(d: Doc, o: int, end: int, removed: int, unit: int) -> int
    decreases d.len() - o,
{
    if o >= end || removed >= unit {
        o
    } else {
        match d.char_at(o) {
            Some(c) => {
                let wide = if c == '\t' {
                    unit
                } else {
                    1
                };
                if removed + wide > unit || o + width(c) > d.len() {
                    o
                } else {
                    indent_cut(d, o + width(c), end, removed + wide, unit)
                }
            },
            None => o,
        }
    }
}

fn find_indent_cut<B: VimBuffer>(buf: &B, from: usize, end: usize, unit: usize) -> (r: usize)
    requires
        unit >= 1,
    ensures
        r == indent_cut(buf.doc(), from as int, end as int, 0, unit as int),
{
    let ghost d = buf.doc();
    proof {
        buf.doc_wf();
    }
    let mut removed: usize = 0;
    let mut o: usize = from;
    loop
        invariant
            d == buf.doc(),
            d.wf(),
            unit >= 1,
            removed <= unit,
            indent_cut(d, o as int, end as int, removed as int, unit as int) == indent_cut(
                d,
                from as int,
                end as int,
                0,
                unit as int,
            ),
        decreases d.len() - o,
    {
        if o >= end || removed >= unit {
            return o;
        }
        proof {
            d.lemma_char_fits(o as int);
        }
        match buf.char_at(o) {
            Some(c) => {
                let wide: usize = if c == '\t' {
                    unit
                } else {
                    1
                };
                if wide > unit - removed {
                    return o;
                }
                removed = removed + wide;
                o = o + char_len(c);
            },
            None => {
                return o;
            },
        }
    }
}

pub open spec fn shift_unit(v: Vim) -> int {
    max(v.options.shiftwidth as int, 1)
}

/// One unit of indent.
pub open spec fn indent_text(v: Vim) -> Seq<char> {
    if v.options.expandtab {
        run_of(' ', shift_unit(v))
    } else {
        seq!['\t']
    }
}

impl World {
    /// Line `i` shifted by one unit, unless it is blank.
    #[verifier::opaque]
    pub open spec fn shift_line<B: VimBufferMut>(self, i: int, right: bool) -> World {
        let start = self.doc.line_start(i);
        if i >= self.doc.line_count() || self.doc.is_blank(i) {
            self
        } else if right {
            self.edit_insert::<B>(start, indent_text(self.vim))
        } else if self.doc.indent(i) > 0 {
            self.edit_delete::<B>(
                start,
                indent_cut(
                    self.doc,
                    start,
                    start + self.doc.indent(i),
                    0,
                    shift_unit(self.vim),
                ),
            )
        } else {
            self
        }
    }

    /// The lines from `i` to `last` shifted, one after the other.
    pub open spec fn shift_lines<B: VimBufferMut>(self, i: int, last: int, right: bool) -> World
        decreases last - i + 1,
    {
        if i > last {
            self
        } else {
            self.shift_line::<B>(i, right).shift_lines::<B>(i + 1, last, right)
        }
    }
}

/// Shift one line by `shiftwidth` left or right.
pub fn shift_line<B: VimBufferMut, H: VimHost>(
    vim: &mut VimState,
    ctx: &mut Ctx<B, H>,
    line: usize,
    right: bool,
)
    ensures
        *final(final(ctx).buf) == *final(old(ctx).buf),
        *final(final(ctx).host) == *final(old(ctx).host),
        hears(*final(ctx).host, final(vim)@.told, *old(ctx).host, old(vim)@.told),
        final(ctx).world(*final(vim)) == old(ctx).world(*old(vim)).shift_line::<B>(
            line as int,
            right,
        ),
        final(ctx).env() == old(ctx).env(),
{
    proof {
        reveal(World::shift_line);
        ctx.buf.doc_wf();
        ctx.buf.doc().lemma_line_bounds(line as int);
        ctx.buf.doc().lemma_first_non_blank(line as int);
    }
    if line >= ctx.buf.line_count() {
        return;
    }
    let start = ctx.buf.line_start(line);
    let (indent, blank) = ctx.buf.line_indent(line);
    if blank {
        return;
    }
    let sw: usize = if vim.options.shiftwidth >= 1 {
        vim.options.shiftwidth
    } else {
        1
    };
    if right {
        let unit = if vim.options.expandtab {
            run_text(' ', sw)
        } else {
            run_text('\t', 1)
        };
        proof {
            assert(unit@ =~= indent_text(vim@));
        }
        vim.edit_insert(ctx, start, unit.as_str());
    } else if indent > 0 {
        // remove up to `sw` columns of indent; a tab counts as a full unit
        let cut = find_indent_cut(&*ctx.buf, start, start + indent, sw);
        vim.edit_delete(ctx, start..cut);
    }
}

pub(crate) fn shift_lines<B: VimBufferMut, H: VimHost>(
    vim: &mut VimState,
    ctx: &mut Ctx<B, H>,
    first: usize,
    last: usize,
    right: bool,
)
    ensures
        *final(final(ctx).buf) == *final(old(ctx).buf),
        *final(final(ctx).host) == *final(old(ctx).host),
        hears(*final(ctx).host, final(vim)@.told, *old(ctx).host, old(vim)@.told),
        final(ctx).world(*final(vim)) == old(ctx).world(*old(vim)).shift_lines::<B>(
            first as int,
            last as int,
            right,
        ),
        final(ctx).env() == old(ctx).env(),
{
    let ghost w = ctx.world(*vim);
    let ghost e = ctx.env();
    if first > last {
        return;
    }
    let mut i: usize = first;
    loop
        invariant_except_break
            first <= i <= last,
            ctx.env() == e,
            ctx.world(*vim).shift_lines::<B>(i as int, last as int, right) == w.shift_lines::<B>(
                first as int,
                last as int,
                right,
            ),
        invariant
            *final(ctx.buf) == *final(old(ctx).buf),
            *final(ctx.host) == *final(old(ctx).host),
            hears(*ctx.host, vim@.told, *old(ctx).host, old(vim)@.told),
        ensures
            ctx.env() == e,
            ctx.world(*vim) == w.shift_lines::<B>(first as int, last as int, right),
        decreases last - i,
    {
        shift_line(vim, ctx, i, right);
        if i == last {
            proof {
                assert(ctx.world(*vim).shift_lines::<B>(last + 1, last as int, right)
                    == ctx.world(*vim));
            }
            break;
        }
        i = i + 1;
    }
}

// ---- putting ----------------------------------------------------------------------------------------

/// Where whole lines go, and what is inserted there: above the cursor's line,
/// below it, or behind a last line that has no newline.
pub open spec fn line_put(d: Doc, line: int, text: Seq<char>, after: bool) -> (int, Seq<char>) {
    if !after {
        (d.line_start(line), with_newline(text))
    } else if d.line_stop(line) > d.line_end(line) {
        (d.line_stop(line), with_newline(text))
    } else {
        (d.len(), seq!['\n'] + without_newlines(text))
    }
}

/// The place of the first of the lines that were put.
pub open spec fn first_put(d: Doc, line: int, at: int, after: bool) -> int {
    if after && !(d.line_stop(line) > d.line_end(line)) {
        min(at + 1, usize::MAX as int)
    } else {
        at
    }
}

impl World {
    /// Lines put below or above the cursor's; the cursor is on the first
    /// non-blank of the first of them.
    #[verifier::opaque]
    pub open spec fn put_lines<B: VimBufferMut>(self, text: Seq<char>, after: bool) -> World {
        let (at, inserted) = line_put(self.doc, self.line(), text, after);
        let w = self.edit_insert::<B>(at, inserted);
        w.moved_to(
            w.doc.first_non_blank(
                min(
                    w.doc.line_of(first_put(self.doc, self.line(), at, after)),
                    w.doc.line_count() - 1,
                ),
            ),
        )
    }

    /// Text put behind or before the character at the cursor; the cursor is on
    /// its last character.
    #[verifier::opaque]
    pub open spec fn put_chars<B: VimBufferMut>(self, text: Seq<char>, after: bool) -> World {
        let o = self.cursor();
        let at = if after && o < self.doc.line_end(self.line()) {
            match self.doc.next(o) {
                Some(n) => n,
                None => o,
            }
        } else {
            o
        };
        let w = self.edit_insert::<B>(at, text);
        w.moved_to(
            w.doc.clamp(
                match w.doc.prev(behind(at, text)) {
                    Some(p) => p,
                    None => at,
                },
            ),
        )
    }

    /// A register pasted `count` times; nothing happens when it is empty.
    #[verifier::opaque]
    pub open spec fn put<B: VimBufferMut>(
        self,
        clip: Option<Seq<char>>,
        register: char,
        count: int,
        after: bool,
    ) -> World {
        match self.vim.registers.paste_slot(register, clip) {
            Some(slot) => if slot.text.len() == 0 {
                self
            } else if slot.kind == RegisterKind::Linewise {
                self.put_lines::<B>(repeated(slot.text, max(count, 1)), after)
            } else {
                self.put_chars::<B>(repeated(slot.text, max(count, 1)), after)
            },
            None => self,
        }
    }
}

fn put_lines<B: VimBufferMut, H: VimHost>(
    vim: &mut VimState,
    ctx: &mut Ctx<B, H>,
    repeated: String,
    after: bool,
)
    ensures
        *final(final(ctx).buf) == *final(old(ctx).buf),
        *final(final(ctx).host) == *final(old(ctx).host),
        hears(*final(ctx).host, final(vim)@.told, *old(ctx).host, old(vim)@.told),
        final(ctx).world(*final(vim)) == old(ctx).world(*old(vim)).put_lines::<B>(
            repeated@,
            after,
        ),
        final(ctx).env() == old(ctx).env(),
{
    proof {
        reveal(World::put_lines);
    }
    let line = ctx.buf.offset_to_line(vim.cursor.offset);
    let line_end = ctx.buf.line_end(line);
    let stop = ctx.buf.line_range(line).end;
    let at: usize;
    let text: String;
    let first: usize;
    if !after {
        at = ctx.buf.line_start(line);
        text = close_line(repeated);
        first = at;
    } else if stop > line_end {
        // paste between this line and the next
        at = stop;
        text = close_line(repeated);
        first = at;
    } else {
        // last line without trailing newline: open a new line for it
        at = ctx.buf.len();
        let lines = trim_newlines(repeated.as_str());
        let mut opened = String::new();
        opened.push('\n');
        opened.push_str(lines.as_str());
        proof {
            assert(opened@ =~= seq!['\n'] + without_newlines(repeated@));
        }
        text = opened;
        first = plus(at, 1);
    }
    vim.edit_insert(ctx, at, text.as_str());
    let line = ctx.buf.offset_to_line(first);
    vim.place_on_line(ctx, line);
}

fn put_chars<B: VimBufferMut, H: VimHost>(
    vim: &mut VimState,
    ctx: &mut Ctx<B, H>,
    repeated: String,
    after: bool,
)
    ensures
        *final(final(ctx).buf) == *final(old(ctx).buf),
        *final(final(ctx).host) == *final(old(ctx).host),
        hears(*final(ctx).host, final(vim)@.told, *old(ctx).host, old(vim)@.told),
        final(ctx).world(*final(vim)) == old(ctx).world(*old(vim)).put_chars::<B>(
            repeated@,
            after,
        ),
        final(ctx).env() == old(ctx).env(),
{
    proof {
        reveal(World::put_chars);
    }
    let mut at: usize = vim.cursor.offset;
    if after && !ctx.buf.at_line_end(at) {
        at = match ctx.buf.next_char_offset(at) {
            Some(n) => n,
            None => at,
        };
    }
    vim.edit_insert(ctx, at, repeated.as_str());
    // block cursor sits on the last pasted character: step back to the
    // START of the last char — `end - 1` is byte arithmetic and would
    // park the cursor inside a multi-byte character
    let end = plus(at, byte_len(repeated.as_str()));
    let last = match ctx.buf.prev_char_offset(end) {
        Some(p) => p,
        None => at,
    };
    vim.place_in_line(ctx, last);
}

/// `p` / `P`: paste a register.
pub fn put<B: VimBufferMut, H: VimHost>(
    vim: &mut VimState,
    ctx: &mut Ctx<B, H>,
    register: char,
    count: usize,
    after: bool,
)
    ensures
        *final(final(ctx).buf) == *final(old(ctx).buf),
        *final(final(ctx).host) == *final(old(ctx).host),
        hears(*final(ctx).host, final(vim)@.told, *old(ctx).host, old(vim)@.told),
        final(ctx).world(*final(vim)) == old(ctx).world(*old(vim)).put::<B>(
            old(ctx).env().clip,
            register,
            count as int,
            after,
        ),
        final(ctx).env() == old(ctx).env(),
{
    proof {
        reveal(World::put);
    }
    let data = match vim.registers.get_for_paste(register, &*ctx.host) {
        Some(data) => data,
        None => {
            return;
        },
    };
    if data.text.as_str().is_empty() {
        return;
    }
    let times: usize = if count >= 1 {
        count
    } else {
        1
    };
    let text = repeat_text(data.text.as_str(), times);
    if data.kind == RegisterKind::Linewise {
        put_lines(vim, ctx, text, after);
    } else {
        put_chars(vim, ctx, text, after);
    }
}

// ---- joining -----------------------------------------------------------------------------------------

/// How many characters at the front of `s` are blank.
pub open spec fn leading_blanks(s: Seq<char>) -> int
    decreases s.len(),
{
    if s.len() == 0 || !white(s[0]) {
        0
    } else {
        1 + leading_blanks(s.drop_first())
    }
}

proof fn lemma_leading_blanks(s: Seq<char>, n: int)
    requires
        0 <= n <= s.len(),
        forall|i: int| 0 <= i < n ==> white(#[trigger] s[i]),
        n < s.len() ==> !white(s[n]),
    ensures
        leading_blanks(s) == n,
    decreases n,
{
    if n > 0 {
        assert(white(s[0]));
        let rest = s.drop_first();
        assert forall|i: int| 0 <= i < n - 1 implies white(#[trigger] rest[i]) by {
            assert(rest[i] == s[i + 1]);
        }
        lemma_leading_blanks(rest, n - 1);
    }
}

/// What stands between two joined lines: nothing when the first ends in a
/// blank or the second goes on with a closing parenthesis.
pub open spec fn join_separator(first: Seq<char>, second: Seq<char>) -> Seq<char> {
    let rest = second.skip(leading_blanks(second));
    if (first.len() > 0 && (first.last() == ' ' || first.last() == '\t')) || (rest.len() > 0
        && rest[0] == ')') {
        Seq::empty()
    } else {
        seq![' ']
    }
}

impl World {
    /// The cursor's line joined with the next `n` lines, as far as there are
    /// lines; the cursor is where the last two meet.
    pub open spec fn join_more<B: VimBufferMut>(self, n: int, literal: bool) -> World
        decreases n,
    {
        if n <= 0 || self.line() + 1 >= self.doc.line_count() {
            self
        } else {
            self.join_once::<B>(literal).join_more::<B>(n - 1, literal)
        }
    }

    /// The cursor's line joined with the next. Literally, only the newline
    /// goes; otherwise the next line's indent goes too and a blank comes in.
    #[verifier::opaque]
    pub open spec fn join_once<B: VimBufferMut>(self, literal: bool) -> World {
        let line = self.line();
        let at = self.doc.line_end(line);
        let next = self.doc.line_start(line + 1);
        if literal {
            self.edit_delete::<B>(at, next).at(at)
        } else {
            self.edit_replace::<B>(
                at,
                seam_stop::<B>(self.doc, line),
                seam_text::<B>(self.doc, line),
            ).at(at)
        }
    }

    /// `count` lines joined, two at least.
    #[verifier::opaque]
    pub open spec fn join_lines<B: VimBufferMut>(self, count: int, literal: bool) -> World {
        let w = self.join_more::<B>(max(count, 2) - 1, literal);
        w.moved_to(w.cursor())
    }
}

/// The blanks at the front of `text` and whether a closing parenthesis
/// follows.
fn leading(text: &str) -> (r: (String, bool))
    ensures
        r.0@ == text@.take(leading_blanks(text@)),
        r.1 == ({
            let rest = text@.skip(leading_blanks(text@));
            rest.len() > 0 && rest[0] == ')'
        }),
        0 <= leading_blanks(text@) <= text@.len(),
{
    let v = chars_of(text);
    let mut n: usize = 0;
    while n < v.len() && is_white(v[n])
        invariant
            n <= v.len(),
            forall|i: int| 0 <= i < n ==> white(#[trigger] v@[i]),
        decreases v.len() - n,
    {
        n = n + 1;
    }
    proof {
        lemma_leading_blanks(v@, n as int);
        assert(v@.subrange(0, n as int) =~= v@.take(n as int));
    }
    (string_of(&v, 0, n), n < v.len() && v[n] == ')')
}

/// Where the text of the next line begins.
#[verifier::opaque]
pub open spec fn seam_stop<B: VimBuffer>(d: Doc, line: int) -> int {
    let next = d.line_start(line + 1);
    let second = B::piece(d, next, d.line_end(line + 1));
    behind(next, second.take(leading_blanks(second)))
}

/// What comes between the line and the next.
#[verifier::opaque]
pub open spec fn seam_text<B: VimBuffer>(d: Doc, line: int) -> Seq<char> {
    join_separator(
        B::piece(d, d.line_start(line), d.line_end(line)),
        B::piece(d, d.line_start(line + 1), d.line_end(line + 1)),
    )
}

fn seam<B: VimBuffer>(buf: &B, line: usize) -> (r: (usize, String))
    requires
        line < usize::MAX,
    ensures
        r.0 == seam_stop::<B>(buf.doc(), line as int),
        r.1@ == seam_text::<B>(buf.doc(), line as int),
{
    proof {
        reveal(seam_stop);
        reveal(seam_text);
    }
    let next_start = buf.line_start(line + 1);
    let next_content = buf.slice(next_start..buf.line_end(line + 1));
    let (indent, closes) = leading(next_content.as_str());
    // no extra space when the line already ends with whitespace or
    // the next line starts with `)`
    let cur_tail = buf.slice(buf.line_start(line)..buf.line_end(line));
    let separator = if ends_in(cur_tail.as_str(), ' ') || ends_in(cur_tail.as_str(), '\t')
        || closes {
        run_text(' ', 0)
    } else {
        run_text(' ', 1)
    };
    proof {
        assert(separator@ =~= join_separator(cur_tail@, next_content@));
    }
    (plus(next_start, byte_len(indent.as_str())), separator)
}

fn join_once<B: VimBufferMut, H: VimHost>(
    vim: &mut VimState,
    ctx: &mut Ctx<B, H>,
    line: usize,
    literal: bool,
)
    requires
        line == old(ctx).world(*old(vim)).line(),
        line < usize::MAX,
    ensures
        *final(final(ctx).buf) == *final(old(ctx).buf),
        *final(final(ctx).host) == *final(old(ctx).host),
        hears(*final(ctx).host, final(vim)@.told, *old(ctx).host, old(vim)@.told),
        final(ctx).world(*final(vim)) == old(ctx).world(*old(vim)).join_once::<B>(literal),
        final(ctx).env() == old(ctx).env(),
{
    proof {
        reveal(World::join_once);
    }
    let join_at = ctx.buf.line_end(line);
    let next_start = ctx.buf.line_start(line + 1);
    if literal {
        vim.edit_delete(ctx, join_at..next_start);
        vim.set_offset(join_at);
    } else {
        let (stop, separator) = seam(&*ctx.buf, line);
        vim.edit_replace(ctx, join_at..stop, separator.as_str());
        vim.set_offset(join_at);
    }
}

/// `J` / `gJ`: join `count` lines (at least one join). `literal` = `gJ`
/// (no separator, keep the next line's indent).
pub fn join_lines<B: VimBufferMut, H: VimHost>(
    vim: &mut VimState,
    ctx: &mut Ctx<B, H>,
    count: usize,
    literal: bool,
)
    ensures
        *final(final(ctx).buf) == *final(old(ctx).buf),
        *final(final(ctx).host) == *final(old(ctx).host),
        hears(*final(ctx).host, final(vim)@.told, *old(ctx).host, old(vim)@.told),
        final(ctx).world(*final(vim)) == old(ctx).world(*old(vim)).join_lines::<B>(
            count as int,
            literal,
        ),
        final(ctx).env() == old(ctx).env(),
{
    proof {
        reveal(World::join_lines);
    }
    let joins: usize = if count >= 2 {
        count - 1
    } else {
        1
    };
    let ghost w = ctx.world(*vim);
    let ghost e = ctx.env();
    let mut left: usize = joins;
    while left > 0
        invariant_except_break
            ctx.env() == e,
            ctx.world(*vim).join_more::<B>(left as int, literal) == w.join_more::<B>(
                joins as int,
                literal,
            ),
        invariant
            *final(ctx.buf) == *final(old(ctx).buf),
            *final(ctx.host) == *final(old(ctx).host),
            hears(*ctx.host, vim@.told, *old(ctx).host, old(vim)@.told),
        ensures
            ctx.env() == e,
            ctx.world(*vim) == w.join_more::<B>(joins as int, literal),
        decreases left,
    {
        let line = ctx.buf.offset_to_line(vim.cursor.offset);
        let lines = ctx.buf.line_count();
        if line >= lines || line + 1 >= lines {
            break;
        }
        join_once(vim, ctx, line, literal);
        left = left - 1;
    }
    let at = vim.cursor.offset;
    vim.place(at);
}

} // verus!
