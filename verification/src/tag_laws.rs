//! Which elements the tag objects cover.
use crate::cells::width;
use crate::chars::white;
use crate::doc::Doc;
use crate::object_laws::lemma_scanned;
use crate::objects::{
    at_char, charwise, element, enclosing, first_word, last_named, tag_mark, tags_from, tighter,
    trim_slashes, Element, TagMark, TextObject,
};
use crate::strs::{lemma_word_len, word_len, words};
use crate::word::scan;
use vstd::prelude::*;

verus! {

/// A tag of the text: from a `<` up to the next `>`.
pub open spec fn is_tag(d: Doc, t: TagMark) -> bool {
    &&& 0 <= t.start < t.end <= d.len()
    &&& d.char_at(t.start) == Some('<')
    &&& d.char_at(t.end - 1) == Some('>')
    &&& forall|k: int| t.start < k < t.end - 1 ==> #[trigger] d.char_at(k) != Some('>')
    &&& t == tag_mark(t.start, t.end, d.slice(t.start + 1, t.end - 1))
}

proof fn lemma_tags(d: Doc, o: int, k: int)
    requires
        d.wf(),
        d.at_boundary(o),
        0 <= o <= d.len(),
        0 <= k < tags_from(d, o).len(),
    ensures
        is_tag(d, tags_from(d, o)[k]),
        tags_from(d, o)[k].start >= o,
    decreases d.len() - o,
{
    d.lemma_char_fits(o);
    if o < d.len() {
        let n = o + width(d.char_at(o)->0);
        let stop = at_char(d, '>');
        lemma_scanned(d, o, stop);
        let gt = scan(d, o, stop);
        if d.char_at(o) == Some('<') && d.char_at(gt) == Some('>') && n <= gt < d.len() {
            d.lemma_char_fits(gt);
            let rest = tags_from(d, gt + 1);
            let first = tag_mark(o, gt + 1, d.slice(o + 1, gt));
            assert(tags_from(d, o) =~= seq![first] + rest);
            if k == 0 {
                assert forall|j: int| o < j < gt implies #[trigger] d.char_at(j) != Some('>') by {
                    if d.char_at(j) is Some {
                        assert(!stop(j));
                    }
                }
            } else {
                lemma_tags(d, gt + 1, k - 1);
                assert(tags_from(d, o)[k] == rest[k - 1]);
            }
        } else {
            lemma_tags(d, n, k);
        }
    }
}

/// An element around `o`: a tag that opens it and one of the same name that
/// closes it.
pub open spec fn is_element(tags: Seq<TagMark>, e: Element, o: int) -> bool {
    exists|a: TagMark, b: TagMark| #[trigger]
        tags.contains(a) && #[trigger] tags.contains(b) && a.open && !b.open && a.name == b.name && e
            == element(a, b) && e.start < o < e.end
}

proof fn lemma_last_named(stack: Seq<TagMark>, name: Seq<char>)
    ensures
        last_named(stack, name) matches Some(at) ==> 0 <= at < stack.len() && stack[at].name
            == name,
    decreases stack.len(),
{
    if stack.len() > 0 && stack.last().name != name {
        lemma_last_named(stack.drop_last(), name);
    }
}

proof fn lemma_enclosing(
    tags: Seq<TagMark>,
    i: int,
    stack: Seq<TagMark>,
    best: Option<Element>,
    o: int,
)
    requires
        0 <= i,
        forall|k: int|
            0 <= k < stack.len() ==> tags.contains(#[trigger] stack[k]) && stack[k].open,
        best matches Some(e) ==> is_element(tags, e, o),
    ensures
        enclosing(tags, i, stack, best, o) matches Some(e) ==> is_element(tags, e, o) && (
        best matches Some(b) ==> b.start <= e.start),
        best is Some ==> enclosing(tags, i, stack, best, o) is Some,
    decreases tags.len() - i,
{
    if i < tags.len() {
        let tag = tags[i];
        assert(tags.contains(tag));
        if tag.open {
            let more = stack.push(tag);
            assert forall|k: int| 0 <= k < more.len() implies tags.contains(#[trigger] more[k])
                && more[k].open by {
                if k < stack.len() {
                    assert(more[k] == stack[k]);
                }
            }
            lemma_enclosing(tags, i + 1, more, best, o);
        } else {
            lemma_last_named(stack, tag.name);
            match last_named(stack, tag.name) {
                Some(at) => {
                    let e = element(stack[at], tag);
                    let next = tighter(best, e, o);
                    assert(tags.contains(stack[at]));
                    if next != best {
                        assert(is_element(tags, e, o));
                    }
                    let less = stack.take(at);
                    assert forall|k: int| 0 <= k < less.len() implies tags.contains(
                        #[trigger] less[k],
                    ) && less[k].open by {
                        assert(less[k] == stack[k]);
                    }
                    lemma_enclosing(tags, i + 1, less, next, o);
                },
                None => {
                    lemma_enclosing(tags, i + 1, stack, best, o);
                },
            }
        }
    }
}

/// `at` covers an element around the cursor: from the `<` of the tag that opens
/// it to the `>` of one of the same name that closes it, the cursor behind its
/// start. `it` covers what is between the two tags, if anything is.
pub proof fn an_element_is_between_its_tags(d: Doc, o: int) -> (r: (TagMark, TagMark))
    requires
        d.wf(),
        0 <= o <= d.len(),
    ensures
        ({
            let (a, b) = r;
            let outer = TextObject::Tag { inner: false }.extent(d, o);
            let inner = TextObject::Tag { inner: true }.extent(d, o);
            &&& outer is None ==> inner is None
            &&& outer is Some ==> {
                &&& is_tag(d, a) && is_tag(d, b)
                &&& a.open && !b.open && a.name == b.name
                &&& outer == Some(charwise(a.start, b.end))
                &&& a.start < o < b.end
                &&& a.end < b.start ==> inner == Some(charwise(a.end, b.start))
                &&& a.end >= b.start ==> inner is None
            }
        }),
{
    let tags = tags_from(d, 0);
    lemma_enclosing(tags, 0, Seq::empty(), None, o);
    match enclosing(tags, 0, Seq::empty(), None, o) {
        Some(e) => {
            let (a, b) = choose|a: TagMark, b: TagMark| #[trigger]
                tags.contains(a) && #[trigger] tags.contains(b) && a.open && !b.open && a.name
                    == b.name && e == element(a, b) && e.start < o < e.end;
            let i = choose|i: int| 0 <= i < tags.len() && tags[i] == a;
            let j = choose|j: int| 0 <= j < tags.len() && tags[j] == b;
            lemma_tags(d, 0, i);
            lemma_tags(d, 0, j);
            (a, b)
        },
        None => {
            let t = TagMark { start: 0, end: 0, name: Seq::empty(), open: true };
            (t, t)
        },
    }
}

/// A tag opens an element unless it begins or ends with a slash, and its name is
/// the first word in it.
pub proof fn tags_open_and_close(start: int, end: int, name: Seq<char>, rest: Seq<char>)
    requires
        name.len() > 0,
        forall|i: int| 0 <= i < name.len() ==> !white(#[trigger] name[i]),
        name[0] != '/',
        name[name.len() - 1] != '/',
        rest.len() > 0 ==> white(rest[0]) && rest.last() != '/',
    ensures
        tag_mark(start, end, name + rest).open,
        tag_mark(start, end, name + rest).name == name,
        !tag_mark(start, end, seq!['/'] + name).open,
        tag_mark(start, end, seq!['/'] + name).name == name,
{
    let body = name + rest;
    assert(body[0] == name[0]);
    assert(body.last() != '/') by {
        if rest.len() == 0 {
            assert(body =~= name);
        } else {
            assert(body.last() == rest.last());
        }
    }
    lemma_first_word(name, rest);
    let close = seq!['/'] + name;
    assert(close.subrange(1, close.len() as int) =~= name);
    assert(trim_slashes(name) == name);
    let none = Seq::<char>::empty();
    lemma_first_word(name, none);
    assert(name + none =~= name);
}

proof fn lemma_first_word(name: Seq<char>, rest: Seq<char>)
    requires
        name.len() > 0,
        forall|i: int| 0 <= i < name.len() ==> !white(#[trigger] name[i]),
        rest.len() > 0 ==> white(rest[0]),
    ensures
        first_word(name + rest) == name,
{
    let s = name + rest;
    lemma_word_len(s);
    let n = word_len(s);
    assert(n == name.len()) by {
        if n < name.len() {
            assert(s[n] == name[n]);
        } else if n > name.len() {
            assert(s[name.len() as int] == rest[0]);
        }
    }
    assert(s[0] == name[0]);
    assert(s.take(n) =~= name);
    assert(words(s) == seq![s.take(n)] + words(s.skip(n)));
    assert(words(s)[0] == name);
}

/// The elements that the tags from the `i`-th on close: a tag closes the last one
/// of its name that is open, and those opened since are given up.
pub open spec fn elements(tags: Seq<TagMark>, i: int, stack: Seq<TagMark>) -> Seq<Element>
    decreases tags.len() - i,
{
    if i < 0 || i >= tags.len() {
        Seq::empty()
    } else if tags[i].open {
        elements(tags, i + 1, stack.push(tags[i]))
    } else {
        match last_named(stack, tags[i].name) {
            Some(at) => seq![element(stack[at], tags[i])] + elements(tags, i + 1, stack.take(at)),
            None => elements(tags, i + 1, stack),
        }
    }
}

proof fn lemma_innermost(
    tags: Seq<TagMark>,
    i: int,
    stack: Seq<TagMark>,
    best: Option<Element>,
    o: int,
)
    requires
        0 <= i,
    ensures
        ({
            let r = enclosing(tags, i, stack, best, o);
            let all = elements(tags, i, stack);
            &&& best is Some ==> r is Some && best->0.start <= r->0.start
            &&& forall|k: int|
                0 <= k < all.len() && (#[trigger] all[k]).start < o < all[k].end ==> r is Some
                    && all[k].start <= r->0.start
            &&& r is Some ==> r == best || all.contains(r->0)
        }),
    decreases tags.len() - i,
{
    if i < tags.len() {
        let tag = tags[i];
        if tag.open {
            lemma_innermost(tags, i + 1, stack.push(tag), best, o);
            assert(enclosing(tags, i, stack, best, o) == enclosing(
                tags,
                i + 1,
                stack.push(tag),
                best,
                o,
            ));
            assert(elements(tags, i, stack) == elements(tags, i + 1, stack.push(tag)));
        } else {
            match last_named(stack, tag.name) {
                Some(at) => {
                    let e = element(stack[at], tag);
                    let next = tighter(best, e, o);
                    let rest = elements(tags, i + 1, stack.take(at));
                    let all = elements(tags, i, stack);
                    assert(all =~= seq![e] + rest);
                    lemma_innermost(tags, i + 1, stack.take(at), next, o);
                    let r = enclosing(tags, i, stack, best, o);
                    assert forall|k: int|
                        0 <= k < all.len() && (#[trigger] all[k]).start < o < all[k].end implies r
                        is Some && all[k].start <= r->0.start by {
                        if k > 0 {
                            assert(all[k] == rest[k - 1]);
                        } else {
                            assert(all[k] == e);
                            assert(next is Some && e.start <= next->0.start);
                        }
                    }
                    if let Some(b) = best {
                        assert(next is Some && b.start <= next->0.start);
                    }
                    if r is Some && r != best {
                        if r == next {
                            assert(next == Some(e));
                            assert(all[0] == e);
                            assert(all.contains(r->0));
                        } else {
                            assert(rest.contains(r->0));
                            let j = choose|j: int| 0 <= j < rest.len() && rest[j] == r->0;
                            assert(all[j + 1] == r->0);
                            assert(all.contains(r->0));
                        }
                    }
                    assert(r is Some ==> r == best || all.contains(r->0));
                    assert(best is Some ==> r is Some && best->0.start <= r->0.start);
                },
                None => {
                    lemma_innermost(tags, i + 1, stack, best, o);
                    assert(enclosing(tags, i, stack, best, o) == enclosing(
                        tags,
                        i + 1,
                        stack,
                        best,
                        o,
                    ));
                    assert(elements(tags, i, stack) == elements(tags, i + 1, stack));
                },
            }
        }
    } else {
        assert(enclosing(tags, i, stack, best, o) == best);
        assert(elements(tags, i, stack).len() == 0);
    }
}

/// Of the elements around the cursor `at` covers the one that starts last; it
/// fails only when there is none.
pub proof fn the_innermost_element_is_taken(d: Doc, o: int, k: int)
    requires
        d.wf(),
        ({
            let all = elements(tags_from(d, 0), 0, Seq::empty());
            0 <= k < all.len() && all[k].start < o < all[k].end
        }),
    ensures
        ({
            let all = elements(tags_from(d, 0), 0, Seq::empty());
            let outer = TextObject::Tag { inner: false }.extent(d, o);
            &&& outer is Some
            &&& all[k].start <= outer->0.start
            &&& exists|j: int|
                0 <= j < all.len() && outer == Some(
                    charwise((#[trigger] all[j]).start, all[j].end),
                )
        }),
{
    let tags = tags_from(d, 0);
    lemma_innermost(tags, 0, Seq::empty(), None, o);
    let all = elements(tags, 0, Seq::empty());
    let r = enclosing(tags, 0, Seq::empty(), None, o);
    let j = choose|j: int| 0 <= j < all.len() && all[j] == r->0;
    assert(all[j] == r->0);
}

} // verus!
