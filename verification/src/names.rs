//! Lists of texts: looking a text up, the order of texts, and lists kept
//! in that order.

use crate::text::{chars_equal, chars_of};
use crate::unicode::string_from_chars;
use vstd::prelude::*;

verus! {

/// Texts as sequences of characters.
pub open spec fn texts_view(texts: Seq<String>) -> Seq<Seq<char>> {
    Seq::new(texts.len(), |i: int| texts[i]@)
}

/// A text that may be missing, as a sequence of characters.
pub open spec fn optional_view(text: Option<String>) -> Option<Seq<char>> {
    match text {
        Some(t) => Some(t@),
        None => None,
    }
}

/// Copies texts.
pub fn copy_texts(texts: &Vec<String>) -> (r: Vec<String>)
    ensures
        r@ == texts@,
{
    let mut out: Vec<String> = Vec::new();
    let mut i: usize = 0;
    while i < texts.len()
        invariant
            i <= texts.len(),
            out@ == texts@.take(i as int),
        decreases texts.len() - i,
    {
        out.push(texts[i].clone());
        assert(texts@.take(i as int).push(texts[i as int]) =~= texts@.take(i as int + 1));
        i += 1;
    }
    assert(texts@.take(texts.len() as int) =~= texts@);
    out
}

/// Copies a text that may be missing.
pub fn copy_optional(text: &Option<String>) -> (r: Option<String>)
    ensures
        r == *text,
{
    match text {
        Some(t) => Some(t.clone()),
        None => None,
    }
}

/// Index of the first of `texts` that is `text`; the length of `texts`
/// where none is.
pub open spec fn index_of_text(texts: Seq<Seq<char>>, text: Seq<char>) -> int
    decreases texts.len(),
{
    if texts.len() == 0 {
        0
    } else if index_of_text(texts.drop_last(), text) < texts.len() - 1 {
        index_of_text(texts.drop_last(), text)
    } else if texts.last() == text {
        texts.len() - 1
    } else {
        texts.len() as int
    }
}

/// `index_of_text` is at most the length, names an equal text where it is
/// less, and no text before it is equal.
pub proof fn lemma_index_of_text(texts: Seq<Seq<char>>, text: Seq<char>)
    ensures
        0 <= index_of_text(texts, text) <= texts.len(),
        index_of_text(texts, text) < texts.len() ==> texts[index_of_text(texts, text)] == text,
        forall|i: int| 0 <= i < index_of_text(texts, text) ==> texts[i] != text,
        index_of_text(texts, text) < texts.len() <==> texts.contains(text),
    decreases texts.len(),
{
    if texts.len() > 0 {
        let front = texts.drop_last();
        lemma_index_of_text(front, text);
        let at = index_of_text(texts, text);
        assert forall|i: int| 0 <= i < at implies texts[i] != text by {
            if i < front.len() {
                assert(front[i] == texts[i]);
            }
        }
        if at < texts.len() {
            if at < front.len() {
                assert(front[at] == texts[at]);
            }
            assert(texts[at] == text);
        } else {
            assert forall|i: int| 0 <= i < texts.len() implies texts[i] != text by {}
        }
    }
}

/// Finds the first of `names` that is `name`; their number where none is.
pub fn find_text(names: &Vec<String>, name: &Vec<char>) -> (r: usize)
    ensures
        r == index_of_text(texts_view(names@), name@),
        r <= names.len(),
{
    let ghost all = texts_view(names@);
    let mut i: usize = 0;
    proof {
        lemma_index_of_text(all, name@);
    }
    while i < names.len()
        invariant
            i <= names.len(),
            all == texts_view(names@),
            forall|k: int| 0 <= k < i ==> all[k] != name@,
        decreases names.len() - i,
    {
        let other = chars_of(names[i].as_str());
        if chars_equal(&other, name) {
            proof {
                lemma_index_of_text(all, name@);
                assert(all[i as int] == name@);
            }
            return i;
        }
        i += 1;
    }
    proof {
        lemma_index_of_text(all, name@);
    }
    i
}

/// Whether `name` is one of `names`.
pub fn holds_text(names: &Vec<String>, name: &Vec<char>) -> (r: bool)
    ensures
        r == texts_view(names@).contains(name@),
{
    let mut i: usize = 0;
    while i < names.len()
        invariant
            i <= names.len(),
            forall|k: int| 0 <= k < i ==> names[k]@ != name@,
        decreases names.len() - i,
    {
        let other = chars_of(names[i].as_str());
        if chars_equal(&other, name) {
            assert(texts_view(names@)[i as int] == name@);
            return true;
        }
        i += 1;
    }
    assert forall|k: int| 0 <= k < texts_view(names@).len() implies texts_view(names@)[k]
        != name@ by {
        assert(names[k]@ != name@);
    }
    false
}

/// Whether `a` comes before `b` in the order of texts: at the first place
/// where they differ `a` has the character of the smaller code, or `a` ends
/// there and `b` goes on.
pub open spec fn text_before(a: Seq<char>, b: Seq<char>) -> bool
    decreases a.len(),
{
    if b.len() == 0 {
        false
    } else if a.len() == 0 {
        true
    } else if a[0] != b[0] {
        (a[0] as u32) < (b[0] as u32)
    } else {
        text_before(a.skip(1), b.skip(1))
    }
}

/// Of two different texts one comes before the other, and never both.
pub proof fn lemma_text_before_total(a: Seq<char>, b: Seq<char>)
    ensures
        a == b ==> !text_before(a, b),
        a != b ==> (text_before(a, b) <==> !text_before(b, a)),
    decreases a.len(),
{
    if a.len() > 0 && b.len() > 0 {
        if a[0] == b[0] {
            lemma_text_before_total(a.skip(1), b.skip(1));
            if a.skip(1) == b.skip(1) {
                assert(a =~= seq![a[0]] + a.skip(1));
                assert(b =~= seq![b[0]] + b.skip(1));
            }
        } else {
            vstd::utf8::char_u32_cast(a[0], a[0] as u32);
            vstd::utf8::char_u32_cast(b[0], b[0] as u32);
        }
    } else if a.len() == 0 && b.len() == 0 {
        assert(a =~= b);
    }
}

/// The order of texts is transitive.
pub proof fn lemma_text_before_transitive(a: Seq<char>, b: Seq<char>, c: Seq<char>)
    requires
        text_before(a, b),
        text_before(b, c),
    ensures
        text_before(a, c),
    decreases a.len(),
{
    if a.len() > 0 {
        if a[0] == b[0] && b[0] == c[0] {
            lemma_text_before_transitive(a.skip(1), b.skip(1), c.skip(1));
        }
    }
}

/// Decides `text_before`.
pub fn comes_before(a: &Vec<char>, b: &Vec<char>) -> (r: bool)
    ensures
        r == text_before(a@, b@),
{
    let mut i: usize = 0;
    assert(a@.skip(0) =~= a@ && b@.skip(0) =~= b@);
    while i < a.len() && i < b.len()
        invariant
            i <= a.len(),
            i <= b.len(),
            text_before(a@, b@) == text_before(a@.skip(i as int), b@.skip(i as int)),
        decreases a.len() - i,
    {
        assert(a@.skip(i as int)[0] == a[i as int] && b@.skip(i as int)[0] == b[i as int]);
        if a[i] != b[i] {
            return (a[i] as u32) < (b[i] as u32);
        }
        assert(a@.skip(i as int).skip(1) =~= a@.skip(i as int + 1));
        assert(b@.skip(i as int).skip(1) =~= b@.skip(i as int + 1));
        i += 1;
    }
    i < b.len()
}

/// Index of the first of `texts` that does not come before `text`; the
/// length of `texts` where all do.
pub open spec fn sorted_position(texts: Seq<Seq<char>>, text: Seq<char>, from: int) -> int
    decreases texts.len() - from,
{
    if from >= texts.len() {
        texts.len() as int
    } else if !text_before(texts[from], text) {
        from
    } else {
        sorted_position(texts, text, from + 1)
    }
}

/// `texts` with `text` put in before the first text that does not come
/// before it, unless that text is `text` itself.
pub open spec fn with_sorted(texts: Seq<Seq<char>>, text: Seq<char>) -> Seq<Seq<char>> {
    let at = sorted_position(texts, text, 0);
    if at < texts.len() && texts[at] == text {
        texts
    } else {
        texts.insert(at, text)
    }
}

/// Whether texts stand in ascending order, no text twice.
pub open spec fn ascending(texts: Seq<Seq<char>>) -> bool {
    forall|i: int, j: int|
        0 <= i < j < texts.len() ==> text_before(#[trigger] texts[i], #[trigger] texts[j])
}

proof fn lemma_sorted_position(texts: Seq<Seq<char>>, text: Seq<char>, from: int)
    requires
        0 <= from <= texts.len(),
    ensures
        from <= sorted_position(texts, text, from) <= texts.len(),
        forall|i: int|
            from <= i < sorted_position(texts, text, from) ==> text_before(
                #[trigger] texts[i],
                text,
            ),
        sorted_position(texts, text, from) < texts.len() ==> !text_before(
            texts[sorted_position(texts, text, from)],
            text,
        ),
    decreases texts.len() - from,
{
    if from < texts.len() && text_before(texts[from], text) {
        lemma_sorted_position(texts, text, from + 1);
    }
}

/// Putting a text into texts in ascending order leaves them in ascending
/// order, with the text among them.
pub proof fn lemma_with_sorted(texts: Seq<Seq<char>>, text: Seq<char>)
    requires
        ascending(texts),
    ensures
        ascending(with_sorted(texts, text)),
        with_sorted(texts, text).contains(text),
        forall|t: Seq<char>| texts.contains(t) ==> with_sorted(texts, text).contains(t),
{
    lemma_sorted_position(texts, text, 0);
    let at = sorted_position(texts, text, 0);
    let out = with_sorted(texts, text);
    if at < texts.len() && texts[at] == text {
        assert(out[at] == text);
    } else {
        assert(out[at] == text);
        assert forall|i: int, j: int| 0 <= i < j < out.len() implies text_before(
            #[trigger] out[i],
            #[trigger] out[j],
        ) by {
            let a = if i < at { i } else { i - 1 };
            let b = if j < at { j } else { j - 1 };
            if i == at {
                assert(out[j] == texts[b]);
                lemma_text_before_total(texts[at], text);
                if b > at {
                    lemma_text_before_transitive(text, texts[at], texts[b]);
                }
            } else if j == at {
                assert(out[i] == texts[a]);
            } else {
                assert(out[i] == texts[a] && out[j] == texts[b]);
            }
        }
        assert forall|t: Seq<char>| texts.contains(t) implies out.contains(t) by {
            let k = choose|k: int| 0 <= k < texts.len() && texts[k] == t;
            let m = if k < at { k } else { k + 1 };
            assert(out[m] == t);
        }
    }
}

/// Puts `text` into `texts` at its place in ascending order, unless it
/// is there.
pub fn insert_sorted(texts: &mut Vec<String>, text: &str)
    ensures
        texts_view(final(texts)@) == with_sorted(texts_view(old(texts)@), text@),
{
    let ghost all = texts_view(texts@);
    let name = chars_of(text);
    let mut at: usize = 0;
    while at < texts.len()
        invariant
            at <= texts.len(),
            texts == old(texts),
            all == texts_view(texts@),
            name@ == text@,
            sorted_position(all, text@, at as int) == sorted_position(all, text@, 0),
        decreases texts.len() - at,
    {
        let other = chars_of(texts[at].as_str());
        if !comes_before(&other, &name) {
            if chars_equal(&other, &name) {
                return ;
            }
            texts.insert(at, string_from_chars(&name));
            assert(texts_view(texts@) =~= all.insert(at as int, text@));
            return ;
        }
        at += 1;
    }
    texts.insert(at, string_from_chars(&name));
    assert(texts_view(texts@) =~= all.insert(at as int, text@));
}

} // verus!
