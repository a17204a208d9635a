//! Character classes and word/sentence/paragraph scanning.
//!
//! Shared by motions (`w`, `b`, `e`, ...) and text objects (`iw`, `aw`, ...).
//! A "class run" never spans a newline; blank lines act as boundaries for
//! `w`-family motions, exactly as they do in vim.
use crate::buffer::VimBuffer;
use crate::cells::{char_len, width};
use crate::chars::{alnum, is_alnum, is_white, white};
use crate::doc::Doc;
use vstd::prelude::*;

verus! {

#[derive(Clone, Copy, Debug, PartialEq, Eq, Structural)]
pub enum Class {
    Blank,
    Word,
    Punct,
}

// ---- walking a text ----------------------------------------------------------

/// The first offset at or after `o`, in steps of whole characters, at which
/// `stop` holds or no character starts.
pub open spec fn scan(d: Doc, o: int, stop: spec_fn(int) -> bool) -> int
    decreases d.len() - o,
{
    match d.next(o) {
        Some(n) => if n <= d.len() && !stop(o) {
            scan(d, n, stop)
        } else {
            o
        },
        None => o,
    }
}

/// The offset reached from `o` by stepping back over whole characters until
/// `stop` holds of the character before, or there is none.
pub open spec fn scan_back(d: Doc, o: int, stop: spec_fn(int) -> bool) -> int
    decreases o,
{
    match d.prev(o) {
        Some(p) => if 0 <= p < o && !stop(p) {
            scan_back(d, p, stop)
        } else {
            o
        },
        None => o,
    }
}

/// One step of a scan.
pub proof fn lemma_scan_step(d: Doc, o: int, stop: spec_fn(int) -> bool)
    requires
        d.wf(),
        d.char_at(o) is Some,
        !stop(o),
    ensures
        scan(d, o, stop) == scan(d, o + width(d.char_at(o)->0), stop),
{
    d.lemma_char_fits(o);
}

/// One step of a backward scan.
pub proof fn lemma_scan_back_step(d: Doc, o: int, stop: spec_fn(int) -> bool)
    requires
        d.wf(),
        d.prev(o) is Some,
        !stop(d.prev(o)->0),
    ensures
        scan_back(d, o, stop) == scan_back(d, d.prev(o)->0, stop),
        0 <= d.prev(o)->0 < o,
{
    d.lemma_prev(o);
}

/// A scan moves forward, keeps to boundaries and ends where it must.
pub proof fn lemma_scan(d: Doc, o: int, stop: spec_fn(int) -> bool)
    requires
        d.wf(),
        0 <= o <= d.len(),
    ensures
        o <= scan(d, o, stop) <= d.len(),
        d.at_boundary(o) ==> d.at_boundary(scan(d, o, stop)),
        d.char_at(scan(d, o, stop)) is None || stop(scan(d, o, stop)),
        d.at_boundary(o) && d.char_at(scan(d, o, stop)) is None ==> scan(d, o, stop) == d.len(),
        forall|k: int|
            o <= k < scan(d, o, stop) && #[trigger] d.cells[k] is Some && d.at_boundary(o)
                ==> !stop(k),
    decreases d.len() - o,
{
    d.lemma_char_fits(o);
    match d.next(o) {
        Some(n) => {
            if !stop(o) {
                lemma_scan(d, n, stop);
                assert forall|k: int|
                    o <= k < scan(d, o, stop) && #[trigger] d.cells[k] is Some && d.at_boundary(
                        o,
                    ) implies !stop(k) by {
                    if o < k < n {
                        assert(crate::cells::char_fits(d.cells, o));
                    }
                }
            }
        },
        None => {},
    }
}

// ---- classes -----------------------------------------------------------------

/// Blanks, word characters, and everything else.
pub open spec fn class_of(c: char) -> Class {
    if white(c) {
        Class::Blank
    } else if alnum(c) || c == '_' {
        Class::Word
    } else {
        Class::Punct
    }
}

/// The class of the run that holds offset `o`; a newline is in no run.
pub open spec fn class_in(d: Doc, o: int, big: bool) -> Option<Class> {
    match d.char_at(o) {
        Some(c) => if c == '\n' {
            None
        } else if big && class_of(c) != Class::Blank {
            Some(Class::Word)
        } else {
            Some(class_of(c))
        },
        None => None,
    }
}

pub fn char_class(c: char) -> (k: Class)
    ensures
        k == class_of(c),
{
    if is_white(c) {
        Class::Blank
    } else if is_alnum(c) || c == '_' {
        Class::Word
    } else {
        Class::Punct
    }
}

pub fn is_word_char(c: char) -> (b: bool)
    ensures
        b == (class_of(c) == Class::Word),
{
    char_class(c) == Class::Word
}

/// Class used by the w/b/e family. With `big` (W/B/E), only blanks separate
/// runs. A newline always ends a run.
pub fn class_at<B: VimBuffer>(buf: &B, offset: usize, big: bool) -> (k: Option<Class>)
    ensures
        k == class_in(buf.doc(), offset as int, big),
{
    match buf.char_at(offset) {
        Some(c) => {
            if c == '\n' {
                return None;  // run boundary
            }
            let class = char_class(c);
            if big && class != Class::Blank {
                Some(Class::Word)
            } else {
                Some(class)
            }
        },
        None => None,
    }
}

/// The character at `o` is not blank.
pub open spec fn non_blank_in(d: Doc, o: int) -> bool {
    d.char_at(o) matches Some(c) && !white(c)
}

/// `true` when the character at `offset` is not a blank and not a newline.
pub fn is_non_blank<B: VimBuffer>(buf: &B, offset: usize) -> (b: bool)
    ensures
        b == non_blank_in(buf.doc(), offset as int),
{
    match buf.char_at(offset) {
        Some(c) => !is_white(c),
        None => false,
    }
}

// ---- where scans stop ----------------------------------------------------------

pub open spec fn outside_run(d: Doc, big: bool, k: Class) -> spec_fn(int) -> bool {
    |p: int| class_in(d, p, big) != Some(k)
}

pub open spec fn not_space(d: Doc) -> spec_fn(int) -> bool {
    |p: int| d.char_at(p) != Some(' ') && d.char_at(p) != Some('\t')
}

pub open spec fn not_blank(d: Doc) -> spec_fn(int) -> bool {
    |p: int| non_blank_in(d, p)
}

// ---- word motions --------------------------------------------------------------

/// Skip what is left of a run of class `k` at `o`.
pub open spec fn run_stop(d: Doc, o: int, big: bool, k: Class) -> int {
    scan(d, o, outside_run(d, big, k))
}

pub(crate) fn skip_run<B: VimBuffer>(buf: &B, offset: usize, big: bool, class: Class) -> (o: usize)
    requires
        offset <= buf.doc().len(),
    ensures
        o == run_stop(buf.doc(), offset as int, big, class),
        offset <= o <= buf.doc().len(),
{
    let ghost d = buf.doc();
    let ghost stop = outside_run(d, big, class);
    proof {
        buf.doc_wf();
    }
    let mut o: usize = offset;
    loop
        invariant
            d == buf.doc(),
            d.wf(),
            stop == outside_run(d, big, class),
            offset <= o <= d.len(),
            scan(d, o as int, stop) == scan(d, offset as int, stop),
        ensures
            o == scan(d, offset as int, stop),
        decreases d.len() - o,
    {
        if class_at(buf, o, big) != Some(class) {
            break;
        }
        proof {
            d.lemma_char_fits(o as int);
            lemma_scan_step(d, o as int, stop);
        }
        match buf.char_at(o) {
            Some(c) => {
                o = o + char_len(c);
            },
            None => {
                break;
            },
        }
    }
    o
}

fn skip_spaces<B: VimBuffer>(buf: &B, offset: usize) -> (o: usize)
    requires
        offset <= buf.doc().len(),
    ensures
        o == scan(buf.doc(), offset as int, not_space(buf.doc())),
        offset <= o <= buf.doc().len(),
{
    let ghost d = buf.doc();
    let ghost stop = not_space(d);
    proof {
        buf.doc_wf();
    }
    let mut o: usize = offset;
    loop
        invariant
            d == buf.doc(),
            d.wf(),
            stop == not_space(d),
            offset <= o <= d.len(),
            scan(d, o as int, stop) == scan(d, offset as int, stop),
        ensures
            o == scan(d, offset as int, stop),
        decreases d.len() - o,
    {
        match buf.char_at(o) {
            Some(c) => {
                if c == ' ' || c == '\t' {
                    proof {
                        d.lemma_char_fits(o as int);
                        lemma_scan_step(d, o as int, stop);
                    }
                    o = o + char_len(c);
                } else {
                    break;
                }
            },
            None => {
                break;
            },
        }
    }
    o
}

/// The first non-blank character at or after `offset`, crossing lines freely;
/// the end of the text when there is none.
fn skip_blanks<B: VimBuffer>(buf: &B, offset: usize) -> (o: usize)
    requires
        offset <= buf.doc().len(),
    ensures
        o == scan(buf.doc(), offset as int, not_blank(buf.doc())),
        offset <= o <= buf.doc().len(),
{
    let ghost d = buf.doc();
    let ghost stop = not_blank(d);
    proof {
        buf.doc_wf();
    }
    let mut o: usize = offset;
    loop
        invariant
            d == buf.doc(),
            d.wf(),
            stop == not_blank(d),
            offset <= o <= d.len(),
            scan(d, o as int, stop) == scan(d, offset as int, stop),
        ensures
            o == scan(d, offset as int, stop),
        decreases d.len() - o,
    {
        match buf.char_at(o) {
            Some(c) => {
                if is_white(c) {
                    proof {
                        d.lemma_char_fits(o as int);
                        lemma_scan_step(d, o as int, stop);
                    }
                    o = o + char_len(c);
                } else {
                    break;
                }
            },
            None => {
                break;
            },
        }
    }
    o
}

/// Where `w` comes to rest once the current run is behind it: the next
/// character that is neither space, tab nor newline, or a blank line on the
/// way there.
pub open spec fn word_landing(d: Doc, o: int) -> int
    decreases d.len() - o,
{
    let p = scan(d, o, not_space(d));
    if d.char_at(p) == Some('\n') && o <= p < d.len() {
        if d.is_blank(d.line_of(p + 1)) {
            d.line_start(d.line_of(p + 1))
        } else {
            word_landing(d, p + 1)
        }
    } else {
        p
    }
}

/// The start of the next word.
pub open spec fn word_start_after(d: Doc, o: int, big: bool) -> int {
    match class_in(d, o, big) {
        Some(k) => if k != Class::Blank {
            word_landing(d, run_stop(d, o, big, k))
        } else {
            word_landing(d, o)
        },
        None => word_landing(d, o),
    }
}

proof fn lemma_word_landing(d: Doc, o: int)
    requires
        d.wf(),
        0 <= o <= d.len(),
        d.at_boundary(o),
    ensures
        0 <= word_landing(d, o) <= d.len(),
        d.at_boundary(word_landing(d, o)),
        d.char_at(word_landing(d, o)) == Some('\n') ==> d.is_blank(
            d.line_of(word_landing(d, o)),
        ),
    decreases d.len() - o,
{
    let p = scan(d, o, not_space(d));
    lemma_scan(d, o, not_space(d));
    if d.char_at(p) == Some('\n') && o <= p < d.len() {
        d.lemma_char_fits(p);
        let line = d.line_of(p + 1);
        d.lemma_line_of(p + 1);
        d.lemma_line_bounds(line);
        if d.is_blank(line) {
            if line + 1 < d.line_count() {
                assert(d.starts[line] < d.starts[line + 1]);
            }
            d.lemma_line_of_unique(d.line_start(line), line);
        } else {
            lemma_word_landing(d, p + 1);
        }
    }
}

/// `w` comes to rest at the start of a character or the end of the text, and
/// on a newline only where the line is blank.
pub proof fn next_word_is_no_newline(d: Doc, o: int, big: bool)
    requires
        d.wf(),
        0 <= o <= d.len(),
        d.at_boundary(o),
    ensures
        0 <= word_start_after(d, o, big) <= d.len(),
        d.at_boundary(word_start_after(d, o, big)),
        d.char_at(word_start_after(d, o, big)) == Some('\n') ==> d.is_blank(
            d.line_of(word_start_after(d, o, big)),
        ),
{
    if let Some(k) = class_in(d, o, big) {
        lemma_scan(d, o, outside_run(d, big, k));
        lemma_word_landing(d, run_stop(d, o, big, k));
    }
    lemma_word_landing(d, o);
}

/// `w` / `W`: start of the next word. Stops on blank lines, never lands on a
/// newline.
pub fn next_word_start<B: VimBuffer>(buf: &B, offset: usize, big: bool) -> (r: usize)
    ensures
        r == word_start_after(buf.doc(), offset as int, big),
        offset <= buf.doc().len() ==> r <= buf.doc().len(),
{
    let ghost d = buf.doc();
    proof {
        buf.doc_wf();
    }
    if offset > buf.len() {
        return offset;
    }
    let mut o: usize = offset;
    // consume the remainder of the current run (if we are on one)
    if let Some(class) = class_at(buf, o, big) {
        if class != Class::Blank {
            o = skip_run(buf, o, big, class);
        }
    }
    // now step over blanks: spaces first, then whole lines
    let ghost from = o as int;
    loop
        invariant
            d == buf.doc(),
            d.wf(),
            o <= d.len(),
            word_landing(d, o as int) == word_landing(d, from),
            word_start_after(d, offset as int, big) == word_landing(d, from),
        decreases d.len() - o,
    {
        let p = skip_spaces(buf, o);
        match buf.char_at(p) {
            Some(c) => {
                if c == '\n' {
                    let line = buf.offset_to_line(p + 1);
                    proof {
                        d.lemma_line_of(p + 1);
                        d.lemma_line_bounds(line as int);
                    }
                    // stop on blank lines, otherwise continue skipping indent
                    if buf.line_is_blank(line) {
                        return buf.line_start(line);
                    }
                    o = p + 1;
                } else {
                    return p;
                }
            },
            None => {
                return p;
            },
        }
    }
}

/// The last character of the run of class `k` that holds `o`.
pub open spec fn run_last(d: Doc, o: int, big: bool, k: Class) -> int
    decreases d.len() - o,
{
    match d.next(o) {
        Some(n) => if n <= d.len() && class_in(d, n, big) == Some(k) {
            run_last(d, n, big, k)
        } else {
            o
        },
        None => o,
    }
}

fn last_of_run<B: VimBuffer>(buf: &B, offset: usize, big: bool, class: Class) -> (o: usize)
    requires
        offset <= buf.doc().len(),
    ensures
        o == run_last(buf.doc(), offset as int, big, class),
        offset <= o <= buf.doc().len(),
{
    let ghost d = buf.doc();
    proof {
        buf.doc_wf();
    }
    let mut o: usize = offset;
    loop
        invariant
            d == buf.doc(),
            d.wf(),
            offset <= o <= d.len(),
            run_last(d, o as int, big, class) == run_last(d, offset as int, big, class),
        ensures
            o == run_last(d, offset as int, big, class),
        decreases d.len() - o,
    {
        proof {
            d.lemma_char_fits(o as int);
        }
        match buf.next_char_offset(o) {
            Some(next) => {
                if class_at(buf, next, big) == Some(class) {
                    o = next;
                } else {
                    break;
                }
            },
            None => {
                break;
            },
        }
    }
    o
}

/// The end of the next run behind the character at `o`.
pub open spec fn next_run_end(d: Doc, o: int, big: bool) -> int {
    let from = match d.next(o) {
        Some(n) => n,
        None => o,
    };
    let start = scan(d, from, not_blank(d));
    match class_in(d, start, big) {
        Some(k) => run_last(d, start, big, k),
        None => d.len(),
    }
}

/// The end of the current word, or of the next one when `o` is at a run end.
pub open spec fn word_end_after(d: Doc, o: int, big: bool) -> int {
    match class_in(d, o, big) {
        Some(k) => if k != Class::Blank && run_last(d, o, big, k) != o {
            run_last(d, o, big, k)
        } else {
            next_run_end(d, o, big)
        },
        None => next_run_end(d, o, big),
    }
}

/// `e` / `E`: end of the current word, or of the next one when already at a
/// run end. Returns the offset *of the last character* (inclusive motion).
pub fn next_word_end<B: VimBuffer>(buf: &B, offset: usize, big: bool) -> (r: usize)
    ensures
        r == word_end_after(buf.doc(), offset as int, big),
        r <= buf.doc().len(),
{
    let ghost d = buf.doc();
    proof {
        buf.doc_wf();
        d.lemma_char_fits(offset as int);
    }
    if offset > buf.len() {
        return buf.len();
    }
    // finish the current run first
    if let Some(class) = class_at(buf, offset, big) {
        if class != Class::Blank {
            let o = last_of_run(buf, offset, big, class);
            if o != offset {
                return o;
            }
        }
    }
    // on a run end / blank: jump to the end of the next run
    let from = match buf.next_char_offset(offset) {
        Some(n) => n,
        None => offset,
    };
    let start = skip_blanks(buf, from);
    match class_at(buf, start, big) {
        Some(class) => last_of_run(buf, start, big, class),
        None => {
            proof {
                assert(d.char_at(start as int) != Some('\n')) by {
                    lemma_scan(d, from as int, not_blank(d));
                }
            }
            buf.len()
        },
    }
}

pub(crate) fn start_of_run<B: VimBuffer>(buf: &B, offset: usize, big: bool, class: Class) -> (o: usize)
    ensures
        o == scan_back(buf.doc(), offset as int, outside_run(buf.doc(), big, class)),
        o <= offset,
{
    let ghost d = buf.doc();
    let ghost stop = outside_run(d, big, class);
    proof {
        buf.doc_wf();
    }
    let mut o: usize = offset;
    loop
        invariant
            d == buf.doc(),
            d.wf(),
            stop == outside_run(d, big, class),
            o <= offset,
            scan_back(d, o as int, stop) == scan_back(d, offset as int, stop),
        ensures
            o <= offset,
            o == scan_back(d, offset as int, stop),
        decreases o,
    {
        match buf.prev_char_offset(o) {
            Some(prev) => {
                if class_at(buf, prev, big) == Some(class) {
                    proof {
                        lemma_scan_back_step(d, o as int, stop);
                    }
                    o = prev;
                } else {
                    break;
                }
            },
            None => {
                break;
            },
        }
    }
    o
}

/// A backward scan ends at a character at or before where it began.
pub proof fn lemma_scan_back(d: Doc, o: int, stop: spec_fn(int) -> bool)
    requires
        d.wf(),
        0 <= o <= d.len(),
        d.at_boundary(o),
    ensures
        0 <= scan_back(d, o, stop) <= o,
        d.at_boundary(scan_back(d, o, stop)),
    decreases o,
{
    if 0 < o {
        d.lemma_prev(o);
        if !stop(d.prev(o)->0) {
            lemma_scan_back(d, d.prev(o)->0, stop);
        }
    }
}

/// Where `b` comes to rest from a run start or a blank at `o`: the start of
/// the run before the blanks, or a blank line on the way there.
pub open spec fn word_back_from(d: Doc, o: int, big: bool) -> int
    decreases o,
{
    match d.prev(o) {
        Some(p) => if !(0 <= p < o) {
            o
        } else if d.char_at(p) == Some('\n') {
            if d.is_blank(d.line_of(p)) {
                d.line_start(d.line_of(p))
            } else {
                word_back_from(d, p, big)
            }
        } else if non_blank_in(d, p) {
            match class_in(d, p, big) {
                Some(k) => scan_back(d, p, outside_run(d, big, k)),
                None => p,
            }
        } else {
            word_back_from(d, p, big)
        },
        None => o,
    }
}

/// The start of the current or previous word.
pub open spec fn word_start_before(d: Doc, o: int, big: bool) -> int {
    match class_in(d, o, big) {
        Some(k) => {
            let start = scan_back(d, o, outside_run(d, big, k));
            if k != Class::Blank && start != o {
                start
            } else {
                word_back_from(d, o, big)
            }
        },
        None => word_back_from(d, o, big),
    }
}

proof fn lemma_word_back_from(d: Doc, o: int, big: bool)
    requires
        d.wf(),
        0 <= o <= d.len(),
        d.at_boundary(o),
    ensures
        0 <= word_back_from(d, o, big) <= o,
        d.at_boundary(word_back_from(d, o, big)),
    decreases o,
{
    if 0 < o {
        d.lemma_prev(o);
        let p = d.prev(o)->0;
        d.lemma_line_of(p);
        d.lemma_line_bounds(d.line_of(p));
        if let Some(k) = class_in(d, p, big) {
            lemma_scan_back(d, p, outside_run(d, big, k));
        }
        lemma_word_back_from(d, p, big);
    }
}

/// `b` goes back to the start of a character, never on.
pub proof fn back_a_word_goes_back(d: Doc, o: int, big: bool)
    requires
        d.wf(),
        0 <= o <= d.len(),
        d.at_boundary(o),
    ensures
        0 <= word_start_before(d, o, big) <= o,
        d.at_boundary(word_start_before(d, o, big)),
{
    if let Some(k) = class_in(d, o, big) {
        lemma_scan_back(d, o, outside_run(d, big, k));
    }
    lemma_word_back_from(d, o, big);
}

/// `b` / `B`: start of the current or previous word.
pub fn prev_word_start<B: VimBuffer>(buf: &B, offset: usize, big: bool) -> (r: usize)
    ensures
        r == word_start_before(buf.doc(), offset as int, big),
        r <= offset,
{
    let ghost d = buf.doc();
    proof {
        buf.doc_wf();
    }
    // if mid-run, walk back to its start
    if let Some(class) = class_at(buf, offset, big) {
        if class != Class::Blank {
            let start = start_of_run(buf, offset, big, class);
            if start != offset {
                return start;
            }
        }
    }
    // on a run start / blank: walk back over blanks, then to the previous
    // run's start
    let mut o: usize = offset;
    loop
        invariant
            d == buf.doc(),
            d.wf(),
            o <= offset,
            word_start_before(d, offset as int, big) == word_back_from(d, offset as int, big),
            word_back_from(d, o as int, big) == word_back_from(d, offset as int, big),
        decreases o,
    {
        let prev = match buf.prev_char_offset(o) {
            Some(prev) => prev,
            None => {
                return o;
            },
        };
        proof {
            d.lemma_prev(o as int);
        }
        match buf.char_at(prev) {
            Some(c) => {
                if c == '\n' {
                    // crossing a line upwards: blank lines are skipped freely
                    let line = buf.offset_to_line(prev);
                    proof {
                        d.lemma_line_of(prev as int);
                    }
                    if buf.line_is_blank(line) {
                        return buf.line_start(line);
                    }
                    o = prev;
                } else if is_white(c) {
                    o = prev;
                } else {
                    // walk to the start of this run
                    return match class_at(buf, prev, big) {
                        Some(class) => start_of_run(buf, prev, big, class),
                        None => prev,
                    };
                }
            },
            None => {
                return prev;
            },
        }
    }
}

/// A word ends at `o`: the character there is not blank, and the next one is
/// not in its run.
pub open spec fn is_word_end(d: Doc, o: int, big: bool) -> bool {
    &&& non_blank_in(d, o)
    &&& d.next(o) matches Some(n) ==> class_in(d, n, big) != class_in(d, o, big)
}

/// The last word end before `o`, if there is one.
pub open spec fn last_word_end(d: Doc, o: int, big: bool) -> Option<int>
    decreases o,
{
    match d.prev(o) {
        Some(p) => if !(0 <= p < o) {
            None
        } else if is_word_end(d, p, big) {
            Some(p)
        } else {
            last_word_end(d, p, big)
        },
        None => None,
    }
}

/// The last word end before `o`, or `o` itself without one.
pub open spec fn word_end_before(d: Doc, o: int, big: bool) -> int {
    match last_word_end(d, o, big) {
        Some(p) => p,
        None => o,
    }
}

/// `ge` goes to the largest word end before the cursor; where there is none, it
/// stays.
pub proof fn last_word_end_is_the_last(d: Doc, o: int, big: bool)
    requires
        d.wf(),
        0 <= o <= d.len(),
        d.at_boundary(o),
    ensures
        match last_word_end(d, o, big) {
            Some(p) => 0 <= p < o && is_word_end(d, p, big) && word_end_before(d, o, big) == p
                && forall|q: int| p < q < o ==> !#[trigger] is_word_end(d, q, big),
            None => word_end_before(d, o, big) == o && forall|q: int|
                0 <= q < o ==> !#[trigger] is_word_end(d, q, big),
        },
    decreases o,
{
    if 0 < o {
        d.lemma_prev(o);
        let p = d.prev(o)->0;
        d.lemma_char_fits(p);
        assert forall|q: int| p < q < o implies !#[trigger] is_word_end(d, q, big) by {
            assert(crate::cells::char_fits(d.cells, p));
            assert(d.cells[q] is None);
        }
        last_word_end_is_the_last(d, p, big);
    }
}

/// `ge` / `gE`: end of the previous word (inclusive).
///
/// A word-end position is a non-blank char whose following char starts a
/// different run (or the buffer end). We search backwards for the largest
/// such position before `offset`; when none exists the offset is unchanged.
pub fn prev_word_end<B: VimBuffer>(buf: &B, offset: usize, big: bool) -> (r: usize)
    ensures
        r == word_end_before(buf.doc(), offset as int, big),
        r <= offset,
{
    let ghost d = buf.doc();
    proof {
        buf.doc_wf();
    }
    let mut o: usize = offset;
    loop
        invariant
            d == buf.doc(),
            d.wf(),
            o <= offset,
            last_word_end(d, o as int, big) == last_word_end(d, offset as int, big),
        decreases o,
    {
        let prev = match buf.prev_char_offset(o) {
            Some(prev) => prev,
            None => {
                return offset;
            },
        };
        proof {
            d.lemma_prev(o as int);
        }
        if is_non_blank(buf, prev) {
            let at_run_end = match buf.next_char_offset(prev) {
                Some(next) => class_at(buf, next, big) != class_at(buf, prev, big),
                None => true,
            };
            if at_run_end {
                return prev;
            }
        }
        o = prev;
    }
}

// ---- finding characters ---------------------------------------------------------

pub open spec fn at_char(d: Doc, end: int, c: char) -> spec_fn(int) -> bool {
    |p: int| p >= end || d.char_at(p) == Some(c)
}

/// The place of the next `c` behind `o` on its line; for `till`, the
/// character before it.
pub open spec fn find_after(d: Doc, o: int, c: char, till: bool) -> Option<int> {
    let end = d.line_end(d.line_of(o));
    let from = match d.next(o) {
        Some(n) => n,
        None => o,
    };
    let hit = scan(d, from, at_char(d, end, c));
    if hit < end && d.char_at(hit) == Some(c) {
        if till {
            match d.prev(hit) {
                Some(p) => Some(p),
                None => Some(o),
            }
        } else {
            Some(hit)
        }
    } else {
        None
    }
}

/// `f`/`t`/`F`/`T` helpers: find `target` on the current line.
pub fn find_char_forward<B: VimBuffer>(
    buf: &B,
    offset: usize,
    target: char,
    till: bool,
) -> (r: Option<usize>)
    ensures
        r is Some == find_after(buf.doc(), offset as int, target, till) is Some,
        r matches Some(v) ==> find_after(buf.doc(), offset as int, target, till) == Some(v as int),
{
    let ghost d = buf.doc();
    proof {
        buf.doc_wf();
        d.lemma_line_of(offset as int);
        d.lemma_line_bounds(d.line_of(offset as int));
        d.lemma_char_fits(offset as int);
    }
    let line = buf.offset_to_line(offset);
    let from = match buf.next_char_offset(offset) {
        Some(n) => n,
        None => offset,
    };
    let end = buf.line_end(line);
    let ghost stop = at_char(d, end as int, target);
    let mut o: usize = from;
    while o < end
        invariant
            d == buf.doc(),
            d.wf(),
            end <= d.len(),
            end == d.line_end(d.line_of(offset as int)),
            from == (match d.next(offset as int) {
                Some(n) => n,
                None => offset as int,
            }),
            stop == at_char(d, end as int, target),
            scan(d, o as int, stop) == scan(d, from as int, stop),
        decreases d.len() - o,
    {
        match buf.char_at(o) {
            Some(c) => {
                if c == target {
                    if till {
                        return match buf.prev_char_offset(o) {
                            Some(p) => Some(p),
                            None => Some(offset),
                        };
                    }
                    return Some(o);
                }
                proof {
                    d.lemma_char_fits(o as int);
                    lemma_scan_step(d, o as int, stop);
                }
                o = o + char_len(c);
            },
            None => {
                return None;
            },
        }
    }
    None
}

/// The place of the last `c` before `o` at or behind `start`.
pub open spec fn last_char_before(d: Doc, o: int, start: int, c: char) -> Option<int>
    decreases o,
{
    if o <= start {
        None
    } else {
        match d.prev(o) {
            Some(p) => if !(0 <= p < o) {
                None
            } else if d.char_at(p) == Some(c) {
                Some(p)
            } else {
                last_char_before(d, p, start, c)
            },
            None => None,
        }
    }
}

/// The place of the last `c` before `o` on its line; for `till`, the
/// character behind it, which has to be one of the line's.
pub open spec fn find_before(d: Doc, o: int, c: char, till: bool) -> Option<int> {
    let line = d.line_of(o);
    match last_char_before(d, o, d.line_start(line), c) {
        Some(hit) => if till {
            match d.next(hit) {
                Some(n) => if n < d.line_end(line) {
                    Some(n)
                } else {
                    None
                },
                None => None,
            }
        } else {
            Some(hit)
        },
        None => None,
    }
}

pub fn find_char_backward<B: VimBuffer>(
    buf: &B,
    offset: usize,
    target: char,
    till: bool,
) -> (r: Option<usize>)
    ensures
        r is Some == find_before(buf.doc(), offset as int, target, till) is Some,
        r matches Some(v) ==> find_before(buf.doc(), offset as int, target, till) == Some(v as int),
{
    let ghost d = buf.doc();
    proof {
        buf.doc_wf();
    }
    let line = buf.offset_to_line(offset);
    let start = buf.line_start(line);
    let mut o: usize = offset;
    while o > start
        invariant
            d == buf.doc(),
            d.wf(),
            line == d.line_of(offset as int),
            start == d.line_start(line as int),
            last_char_before(d, o as int, start as int, target) == last_char_before(
                d,
                offset as int,
                start as int,
                target,
            ),
        decreases o,
    {
        let prev = match buf.prev_char_offset(o) {
            Some(prev) => prev,
            None => {
                return None;
            },
        };
        proof {
            d.lemma_prev(o as int);
        }
        if let Some(c) = buf.char_at(prev) {
            if c == target {
                if till {
                    return match buf.next_char_offset(prev) {
                        Some(n) => if n < buf.line_end(line) {
                            Some(n)
                        } else {
                            None
                        },
                        None => None,
                    };
                }
                return Some(prev);
            }
        }
        o = prev;
    }
    None
}

// ---- brackets -------------------------------------------------------------------

/// The other bracket of a pair, and whether `c` is the opening one.
pub open spec fn partner(c: char) -> Option<(char, bool)> {
    if c == '(' {
        Some((')', true))
    } else if c == ')' {
        Some(('(', false))
    } else if c == '[' {
        Some((']', true))
    } else if c == ']' {
        Some(('[', false))
    } else if c == '{' {
        Some(('}', true))
    } else if c == '}' {
        Some(('{', false))
    } else {
        None
    }
}

fn bracket_pair(c: char) -> (r: Option<(char, bool)>)
    ensures
        r == partner(c),
{
    if c == '(' {
        Some((')', true))
    } else if c == ')' {
        Some(('(', false))
    } else if c == '[' {
        Some((']', true))
    } else if c == ']' {
        Some(('[', false))
    } else if c == '{' {
        Some(('}', true))
    } else if c == '}' {
        Some(('{', false))
    } else {
        None
    }
}

pub open spec fn bracket_in(d: Doc, p: int) -> bool {
    d.char_at(p) matches Some(c) && partner(c) is Some
}

pub open spec fn at_bracket(d: Doc, end: int) -> spec_fn(int) -> bool {
    |p: int| p > end || bracket_in(d, p)
}

/// Going forward from `o` with `depth` pairs open: where the last of them
/// closes.
pub open spec fn close_of(d: Doc, o: int, open: char, close: char, depth: int) -> Option<int>
    decreases d.len() - o,
{
    match d.char_at(o) {
        Some(c) => if o + width(c) > d.len() {
            None
        } else if c == open {
            close_of(d, o + width(c), open, close, depth + 1)
        } else if c == close {
            if depth <= 1 {
                Some(o)
            } else {
                close_of(d, o + width(c), open, close, depth - 1)
            }
        } else {
            close_of(d, o + width(c), open, close, depth)
        },
        None => None,
    }
}

/// Going back from `o` with `depth` pairs still to open: where the outermost
/// of them opens.
pub open spec fn open_of(d: Doc, o: int, open: char, close: char, depth: int) -> Option<int>
    decreases o,
{
    match d.prev(o) {
        Some(p) => if !(0 <= p < o) {
            None
        } else if d.char_at(p) == Some(close) {
            open_of(d, p, open, close, depth + 1)
        } else if d.char_at(p) == Some(open) {
            if depth <= 0 {
                Some(p)
            } else {
                open_of(d, p, open, close, depth - 1)
            }
        } else {
            open_of(d, p, open, close, depth)
        },
        None => None,
    }
}

/// The bracket that `%` starts from: the first one at or behind `o` on its
/// line.
pub open spec fn bracket_near(d: Doc, o: int) -> int {
    scan(d, o, at_bracket(d, d.line_end(d.line_of(o))))
}

/// Where `%` goes from `o`.
pub open spec fn matching_bracket(d: Doc, o: int) -> Option<int> {
    let start = bracket_near(d, o);
    if start > d.line_end(d.line_of(o)) {
        None
    } else {
        match d.char_at(start) {
            Some(c) => match partner(c) {
                Some((other, opens)) => if opens {
                    close_of(d, start, c, other, 0)
                } else {
                    open_of(d, start, other, c, 0)
                },
                None => None,
            },
            None => None,
        }
    }
}

/// Going back from the close is going back from any place before it with the
/// pairs that are open there.
proof fn lemma_back_from_close(d: Doc, p: int, open: char, close: char, depth: int, m: int)
    requires
        d.wf(),
        open != close,
        depth >= 1,
        close_of(d, p, open, close, depth) == Some(m),
    ensures
        p <= m,
        d.char_at(m) == Some(close),
        open_of(d, m, open, close, 0) == open_of(d, p, open, close, depth - 1),
    decreases d.len() - p,
{
    d.lemma_char_fits(p);
    let c = d.char_at(p)->0;
    let n = p + width(c);
    if !(c == close && depth <= 1) {
        let deeper = if c == open {
            depth + 1
        } else if c == close {
            depth - 1
        } else {
            depth
        };
        lemma_back_from_close(d, n, open, close, deeper, m);
        d.lemma_prev(n);
        d.lemma_prev_of_next(p);
    }
}

/// Going on from the open is going on from any place behind it with the pairs
/// that are open there.
proof fn lemma_on_from_open(d: Doc, p: int, open: char, close: char, depth: int, m: int)
    requires
        d.wf(),
        open != close,
        depth >= 0,
        0 <= p <= d.len(),
        d.at_boundary(p),
        open_of(d, p, open, close, depth) == Some(m),
    ensures
        0 <= m < p,
        d.char_at(m) == Some(open),
        close_of(d, m, open, close, 0) == close_of(d, p, open, close, depth + 1),
    decreases p,
{
    d.lemma_prev(p);
    let q = d.prev(p)->0;
    let c = d.char_at(q)->0;
    if !(c == open && depth <= 0) {
        let deeper = if c == close {
            depth + 1
        } else if c == open {
            depth - 1
        } else {
            depth
        };
        lemma_on_from_open(d, q, open, close, deeper, m);
    }
}

proof fn lemma_bracket_here(d: Doc, o: int)
    requires
        d.wf(),
        bracket_in(d, o),
    ensures
        bracket_near(d, o) == o,
        o <= d.line_end(d.line_of(o)),
{
    d.lemma_char_fits(o);
    d.lemma_line_of(o);
    d.lemma_line_bounds(d.line_of(o));
}

/// `%` on the bracket where `%` went comes back.
pub proof fn matching_bracket_comes_back(d: Doc, o: int)
    requires
        d.wf(),
        bracket_in(d, o),
        matching_bracket(d, o) is Some,
    ensures
        bracket_in(d, matching_bracket(d, o)->0),
        matching_bracket(d, matching_bracket(d, o)->0) == Some(o),
{
    lemma_bracket_here(d, o);
    d.lemma_char_fits(o);
    let c = d.char_at(o)->0;
    let (other, opens) = partner(c)->0;
    let m = matching_bracket(d, o)->0;
    if opens {
        let n = o + width(c);
        lemma_back_from_close(d, n, c, other, 1, m);
        d.lemma_prev(n);
        d.lemma_prev_of_next(o);
        assert(open_of(d, n, c, other, 0) == Some(o));
    } else {
        lemma_on_from_open(d, o, other, c, 0, m);
        assert(close_of(d, o, other, c, 1) == Some(o));
    }
    lemma_bracket_here(d, m);
}

pub(crate) fn find_close<B: VimBuffer>(
    buf: &B,
    offset: usize,
    open: char,
    close: char,
    already: usize,
) -> (r: Option<usize>)
    requires
        offset <= buf.doc().len(),
        already <= offset,
    ensures
        r is Some == close_of(buf.doc(), offset as int, open, close, already as int) is Some,
        r matches Some(v) ==> close_of(buf.doc(), offset as int, open, close, already as int)
            == Some(v as int) && v < buf.doc().len(),
{
    let ghost d = buf.doc();
    proof {
        buf.doc_wf();
    }
    let mut depth: usize = already;
    let mut o: usize = offset;
    loop
        invariant
            d == buf.doc(),
            d.wf(),
            o <= d.len(),
            depth <= o,
            close_of(d, o as int, open, close, depth as int) == close_of(
                d,
                offset as int,
                open,
                close,
                already as int,
            ),
        decreases d.len() - o,
    {
        proof {
            d.lemma_char_fits(o as int);
        }
        match buf.char_at(o) {
            Some(c) => {
                if c == open {
                    depth = depth + 1;
                } else if c == close {
                    if depth <= 1 {
                        return Some(o);
                    }
                    depth = depth - 1;
                }
                o = o + char_len(c);
            },
            None => {
                return None;
            },
        }
    }
}

pub(crate) fn find_open<B: VimBuffer>(buf: &B, offset: usize, open: char, close: char) -> (r: Option<
    usize,
>)
    ensures
        r is Some == open_of(buf.doc(), offset as int, open, close, 0) is Some,
        r matches Some(v) ==> open_of(buf.doc(), offset as int, open, close, 0) == Some(v as int)
            && v < offset && v < buf.doc().len(),
{
    let ghost d = buf.doc();
    proof {
        buf.doc_wf();
    }
    let mut depth: usize = 0;
    let mut o: usize = offset;
    loop
        invariant
            d == buf.doc(),
            d.wf(),
            o <= offset,
            depth <= offset - o,
            open_of(d, o as int, open, close, depth as int) == open_of(
                d,
                offset as int,
                open,
                close,
                0,
            ),
        decreases o,
    {
        match buf.prev_char_offset(o) {
            Some(prev) => {
                proof {
                    d.lemma_prev(o as int);
                }
                match buf.char_at(prev) {
                    Some(c) => {
                        if c == close {
                            depth = depth + 1;
                        } else if c == open {
                            if depth == 0 {
                                return Some(prev);
                            }
                            depth = depth - 1;
                        }
                    },
                    None => {},
                }
                o = prev;
            },
            None => {
                return None;
            },
        }
    }
}

/// `%`: find the match of the bracket under the cursor, scanning the whole
/// buffer with nesting. Falls back to the next bracket on the line.
pub fn match_bracket<B: VimBuffer>(buf: &B, offset: usize) -> (r: Option<usize>)
    ensures
        r is Some == matching_bracket(buf.doc(), offset as int) is Some,
        r matches Some(v) ==> matching_bracket(buf.doc(), offset as int) == Some(v as int),
{
    let ghost d = buf.doc();
    proof {
        buf.doc_wf();
        d.lemma_line_of(offset as int);
        d.lemma_line_bounds(d.line_of(offset as int));
    }
    // locate a bracket at or after the cursor (same line first, like vim)
    let line = buf.offset_to_line(offset);
    let line_end = buf.line_end(line);
    let ghost stop = at_bracket(d, line_end as int);
    let mut o: usize = offset;
    while o <= line_end
        invariant
            d == buf.doc(),
            d.wf(),
            line == d.line_of(offset as int),
            line_end == d.line_end(line as int),
            line_end <= d.len(),
            stop == at_bracket(d, line_end as int),
            scan(d, o as int, stop) == scan(d, offset as int, stop),
        decreases d.len() - o,
    {
        proof {
            d.lemma_char_fits(o as int);
        }
        match buf.char_at(o) {
            Some(c) => {
                match bracket_pair(c) {
                    Some((other, opens)) => {
                        return if opens {
                            find_close(buf, o, c, other, 0)
                        } else {
                            find_open(buf, o, other, c)
                        };
                    },
                    None => {},
                }
                proof {
                    lemma_scan_step(d, o as int, stop);
                }
                o = o + char_len(c);
            },
            None => {
                return None;
            },
        }
    }
    None
}

// ---- paragraphs and sentences -----------------------------------------------------

/// The first blank line at or behind line `i`; the line count without one.
pub open spec fn blank_line_from(d: Doc, i: int) -> int
    decreases d.line_count() - i,
{
    if i >= d.line_count() || d.is_blank(i) {
        i
    } else {
        blank_line_from(d, i + 1)
    }
}

/// The last blank line at or before line `i`; the first line without one.
pub open spec fn blank_line_to(d: Doc, i: int) -> int
    decreases i,
{
    if i <= 0 || d.is_blank(i) {
        i
    } else {
        blank_line_to(d, i - 1)
    }
}

/// Where `}` goes.
pub open spec fn paragraph_after(d: Doc, o: int) -> int {
    d.line_start(blank_line_from(d, d.line_of(o) + 1))
}

/// Where `{` goes.
pub open spec fn paragraph_before(d: Doc, o: int) -> int {
    let line = d.line_of(o);
    if line <= 0 {
        d.line_start(0)
    } else {
        d.line_start(blank_line_to(d, line - 1))
    }
}

/// `}`: start of the next paragraph boundary (a blank line), buffer end.
pub fn next_paragraph<B: VimBuffer>(buf: &B, offset: usize) -> (r: usize)
    ensures
        r == paragraph_after(buf.doc(), offset as int),
        r <= buf.doc().len(),
{
    let ghost d = buf.doc();
    proof {
        buf.doc_wf();
        d.lemma_line_of(offset as int);
    }
    let mut line: usize = buf.offset_to_line(offset) + 1;
    let count = buf.line_count();
    while line < count
        invariant
            d == buf.doc(),
            d.wf(),
            count == d.line_count(),
            line <= count,
            blank_line_from(d, line as int) == blank_line_from(d, d.line_of(offset as int) + 1),
        decreases count - line,
    {
        proof {
            d.lemma_line_bounds(line as int);
        }
        if buf.line_is_blank(line) {
            return buf.line_start(line);
        }
        line = line + 1;
    }
    buf.len()
}

/// `{`: start of the previous paragraph boundary.
pub fn prev_paragraph<B: VimBuffer>(buf: &B, offset: usize) -> (r: usize)
    ensures
        r == paragraph_before(buf.doc(), offset as int),
        r <= buf.doc().len(),
{
    let ghost d = buf.doc();
    proof {
        buf.doc_wf();
        d.lemma_line_of(offset as int);
        d.lemma_line_bounds(0);
    }
    let at = buf.offset_to_line(offset);
    if at == 0 {
        return buf.line_start(0);
    }
    let mut line: usize = at - 1;
    while line > 0
        invariant
            d == buf.doc(),
            d.wf(),
            0 < at < d.line_count(),
            at == d.line_of(offset as int),
            line < d.line_count(),
            blank_line_to(d, line as int) == blank_line_to(d, at - 1),
        decreases line,
    {
        proof {
            d.lemma_line_bounds(line as int);
        }
        if buf.line_is_blank(line) {
            return buf.line_start(line);
        }
        line = line - 1;
    }
    buf.line_start(0)
}

/// The character at `o` ends a sentence.
pub open spec fn ends_sentence(d: Doc, o: int) -> bool {
    d.char_at(o) == Some('.') || d.char_at(o) == Some('!') || d.char_at(o) == Some('?')
}

/// The first character that is not white space behind the one at `o`.
pub open spec fn behind_blanks(d: Doc, o: int) -> int {
    match d.next(o) {
        Some(n) => scan(d, n, not_blank(d)),
        None => scan(d, o, not_blank(d)),
    }
}

/// Going back from `o`: the last sentence beginning before `limit`.
pub open spec fn sentence_back_from(d: Doc, o: int, limit: int) -> int
    decreases o,
{
    match d.prev(o) {
        Some(p) => if !(0 <= p < o) {
            0
        } else if ends_sentence(d, p) && behind_blanks(d, p) < limit {
            behind_blanks(d, p)
        } else {
            sentence_back_from(d, p, limit)
        },
        None => 0,
    }
}

/// Where `(` goes: the last beginning of a sentence before `o`.
pub open spec fn sentence_before(d: Doc, o: int) -> int {
    sentence_back_from(d, o, o)
}

/// Where `)` goes: the next beginning of a sentence behind `o`.
pub open spec fn sentence_after(d: Doc, o: int) -> int
    decreases d.len() - o,
{
    match d.char_at(o) {
        Some(c) => if o + width(c) > d.len() {
            d.len()
        } else if ends_sentence(d, o) && d.char_at(behind_blanks(d, o)) is Some {
            behind_blanks(d, o)
        } else {
            sentence_after(d, o + width(c))
        },
        None => d.len(),
    }
}

fn is_terminator(c: Option<char>) -> (b: bool)
    ensures
        b == (c == Some('.') || c == Some('!') || c == Some('?')),
{
    match c {
        Some(c) => c == '.' || c == '!' || c == '?',
        None => false,
    }
}

/// `(`: beginning of the current or previous sentence.
pub fn prev_sentence<B: VimBuffer>(buf: &B, offset: usize) -> (r: usize)
    ensures
        r == sentence_before(buf.doc(), offset as int),
        r <= buf.doc().len(),
{
    let ghost d = buf.doc();
    proof {
        buf.doc_wf();
    }
    let mut o: usize = offset;
    loop
        invariant
            d == buf.doc(),
            d.wf(),
            sentence_back_from(d, o as int, offset as int) == sentence_before(d, offset as int),
        decreases o,
    {
        match buf.prev_char_offset(o) {
            Some(prev) => {
                proof {
                    d.lemma_prev(o as int);
                    d.lemma_char_fits(prev as int);
                }
                if is_terminator(buf.char_at(prev)) {
                    // skip the whitespace run after the terminator
                    let after = match buf.next_char_offset(prev) {
                        Some(n) => skip_blanks(buf, n),
                        None => skip_blanks(buf, prev),
                    };
                    if after < offset {
                        return after;
                    }
                }
                o = prev;
            },
            None => {
                return 0;
            },
        }
    }
}

/// `)`: beginning of the next sentence.
pub fn next_sentence<B: VimBuffer>(buf: &B, offset: usize) -> (r: usize)
    ensures
        r == sentence_after(buf.doc(), offset as int),
        r <= buf.doc().len(),
{
    let ghost d = buf.doc();
    proof {
        buf.doc_wf();
    }
    let mut o: usize = offset;
    loop
        invariant
            d == buf.doc(),
            d.wf(),
            sentence_after(d, o as int) == sentence_after(d, offset as int),
        decreases d.len() - o,
    {
        proof {
            d.lemma_char_fits(o as int);
        }
        match buf.char_at(o) {
            Some(c) => {
                if is_terminator(Some(c)) {
                    // skip whitespace run; sentence starts at next non-blank
                    let after = skip_blanks(buf, o + char_len(c));
                    if buf.char_at(after).is_some() {
                        return after;
                    }
                }
                o = o + char_len(c);
            },
            None => {
                return buf.len();
            },
        }
    }
}

} // verus!
