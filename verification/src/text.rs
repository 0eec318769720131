//! Text helpers shared by the ledger: case-insensitive comparison, suffix and
//! substring tests, and the decimal notation of numbers and money amounts.

use vstd::prelude::*;
use vstd::string::*;
use crate::order::{
    in_order,
    lemma_insert_place,
    lemma_sorted_in_order,
    lemma_sorted_is_permutation,
    orders,
    sorted_by,
};

verus! {

/// The lowercase form of a text, as `str::to_lowercase` computes it.
pub uninterp spec fn lowercase_of(s: Seq<char>) -> Seq<char>;

/// Calls `str::to_lowercase` of the standard library. The contract only gives
/// the result its name, `lowercase_of`: the Unicode mapping is not restated.
#[verifier::external_body]
pub(crate) fn to_lowercase(s: &str) -> (r: String)
    ensures
        r@ == lowercase_of(s@),
{
    s.to_lowercase()
}

/// Two texts denote the same name when their lowercase forms are equal.
pub open spec fn same_ignoring_case(a: Seq<char>, b: Seq<char>) -> bool {
    lowercase_of(a) == lowercase_of(b)
}

/// Whether two texts are the same but for the case of their letters.
pub fn eq_ignoring_case(a: &str, b: &str) -> (r: bool)
    ensures
        r == same_ignoring_case(a@, b@),
{
    let la = to_lowercase(a);
    let lb = to_lowercase(b);
    la == lb
}

/// The texts of a run of strings, in the same order.
pub open spec fn names_of(names: Seq<String>) -> Seq<Seq<char>> {
    names.map_values(|s: String| s@)
}

/// The place of the first name in `names` that is `name` but for the case of
/// its letters.
pub open spec fn first_same(names: Seq<Seq<char>>, name: Seq<char>) -> Option<int>
    decreases names.len(),
{
    if names.len() == 0 {
        None
    } else {
        match first_same(names.drop_last(), name) {
            Some(k) => Some(k),
            None => if same_ignoring_case(names.last(), name) {
                Some(names.len() - 1)
            } else {
                None
            },
        }
    }
}

/// No two names of the run are the same but for the case of their letters.
pub open spec fn distinct_names(names: Seq<Seq<char>>) -> bool {
    forall|i: int, j: int|
        0 <= i < j < names.len() ==> !same_ignoring_case(#[trigger] names[i], #[trigger] names[j])
}

/// What `first_same` finds is the first name that matches, and it finds one
/// wherever one is there.
pub proof fn lemma_first_same(names: Seq<Seq<char>>, name: Seq<char>)
    ensures
        match first_same(names, name) {
            Some(k) => 0 <= k < names.len() && same_ignoring_case(names[k], name) && forall|
                j: int,
            |
                0 <= j < k ==> !same_ignoring_case(#[trigger] names[j], name),
            None => forall|j: int|
                0 <= j < names.len() ==> !same_ignoring_case(#[trigger] names[j], name),
        },
    decreases names.len(),
{
    if names.len() > 0 {
        let front = names.drop_last();
        lemma_first_same(front, name);
        match first_same(front, name) {
            Some(k) => {
                assert(front[k] == names[k]);
                assert forall|j: int| 0 <= j < k implies !same_ignoring_case(
                    #[trigger] names[j],
                    name,
                ) by {
                    assert(front[j] == names[j]);
                }
            },
            None => {
                assert forall|j: int| 0 <= j < names.len() - 1 implies !same_ignoring_case(
                    #[trigger] names[j],
                    name,
                ) by {
                    assert(front[j] == names[j]);
                }
            },
        }
    }
}

/// Looking a name up does not depend on the case of its letters.
pub proof fn lemma_first_same_ignores_case(names: Seq<Seq<char>>, a: Seq<char>, b: Seq<char>)
    requires
        same_ignoring_case(a, b),
    ensures
        first_same(names, a) == first_same(names, b),
    decreases names.len(),
{
    if names.len() > 0 {
        lemma_first_same_ignores_case(names.drop_last(), a, b);
    }
}

/// The place of the first string that is `name` but for the case of its letters.
pub fn find_name(names: &Vec<String>, name: &str) -> (r: Option<usize>)
    ensures
        match r {
            Some(k) => first_same(names_of(names@), name@) == Some(k as int) && k < names.len(),
            None => first_same(names_of(names@), name@) is None,
        },
{
    let mut i: usize = 0;
    while i < names.len()
        invariant
            i <= names.len(),
            forall|j: int| 0 <= j < i ==> !same_ignoring_case(#[trigger] names_of(names@)[j], name@),
        decreases names.len() - i,
    {
        assert(names_of(names@)[i as int] == names@[i as int]@);
        if eq_ignoring_case(names[i].as_str(), name) {
            proof {
                lemma_first_same(names_of(names@), name@);
            }
            return Some(i);
        }
        i += 1;
    }
    proof {
        lemma_first_same(names_of(names@), name@);
    }
    None
}

/// The characters of a text, in order.
pub fn chars_of(s: &str) -> (v: Vec<char>)
    ensures
        v@ == s@,
{
    let mut v: Vec<char> = Vec::new();
    for c in it: s.chars()
        invariant
            v@ == it.seq().take(it.index() as int),
    {
        v.push(c);
    }
    v
}

/// The text ends with the suffix.
pub open spec fn is_suffix(s: Seq<char>, suffix: Seq<char>) -> bool {
    suffix.len() <= s.len() && s.subrange(s.len() - suffix.len(), s.len() as int) == suffix
}

/// Whether the text ends with the suffix.
pub fn ends_with(s: &str, suffix: &str) -> (r: bool)
    ensures
        r == is_suffix(s@, suffix@),
{
    let text = chars_of(s);
    let tail = chars_of(suffix);
    if tail.len() > text.len() {
        return false;
    }
    let start: usize = text.len() - tail.len();
    let mut i: usize = 0;
    while i < tail.len()
        invariant
            i <= tail.len(),
            start + tail.len() == text.len(),
            text@ == s@,
            tail@ == suffix@,
            forall|j: int| 0 <= j < i ==> text@[start + j] == tail@[j],
        decreases tail.len() - i,
    {
        if text[start + i] != tail[i] {
            proof {
                let sub = text@.subrange(start as int, text@.len() as int);
                assert(sub[i as int] == text@[start + i]);
            }
            return false;
        }
        i += 1;
    }
    proof {
        assert(text@.subrange(start as int, text@.len() as int) =~= tail@);
    }
    true
}

/// `needle` occurs in `hay` as a run of consecutive characters starting at `i`.
pub open spec fn occurs_at(hay: Seq<char>, needle: Seq<char>, i: int) -> bool {
    0 <= i && i + needle.len() <= hay.len() && hay.subrange(i, i + needle.len()) == needle
}

/// `needle` occurs somewhere in `hay`.
pub open spec fn occurs_in(hay: Seq<char>, needle: Seq<char>) -> bool {
    exists|i: int| occurs_at(hay, needle, i)
}

fn matches_at(hay: &Vec<char>, needle: &Vec<char>, at: usize) -> (r: bool)
    requires
        at + needle.len() <= hay.len(),
    ensures
        r == occurs_at(hay@, needle@, at as int),
{
    let mut j: usize = 0;
    while j < needle.len()
        invariant
            j <= needle.len(),
            at + needle.len() <= hay.len(),
            forall|k: int| 0 <= k < j ==> hay@[at + k] == needle@[k],
        decreases needle.len() - j,
    {
        if hay[at + j] != needle[j] {
            proof {
                let sub = hay@.subrange(at as int, at + needle@.len());
                assert(sub[j as int] == hay@[at + j]);
            }
            return false;
        }
        j += 1;
    }
    proof {
        assert(hay@.subrange(at as int, at + needle@.len()) =~= needle@);
    }
    true
}

/// Whether `needle` occurs somewhere in `hay`.
pub fn contains(hay: &str, needle: &str) -> (r: bool)
    ensures
        r == occurs_in(hay@, needle@),
{
    let text = chars_of(hay);
    let pattern = chars_of(needle);
    if pattern.len() > text.len() {
        return false;
    }
    let last: usize = text.len() - pattern.len();
    let mut i: usize = 0;
    loop
        invariant
            i <= last,
            last + pattern.len() == text.len(),
            text@ == hay@,
            pattern@ == needle@,
            forall|k: int| 0 <= k < i ==> !occurs_at(text@, pattern@, k),
        decreases last - i,
    {
        if matches_at(&text, &pattern, i) {
            return true;
        }
        if i == last {
            return false;
        }
        i += 1;
    }
}

/// The pieces into which the separator cuts a text: one more than the text
/// has separators, each piece without them, in order.
pub open spec fn split_on(s: Seq<char>, sep: char) -> Seq<Seq<char>>
    decreases s.len(),
{
    if s.len() == 0 {
        seq![Seq::empty()]
    } else {
        let rest = split_on(s.drop_last(), sep);
        if s.last() == sep {
            rest.push(Seq::empty())
        } else {
            rest.drop_last().push(rest.last().push(s.last()))
        }
    }
}

/// A text is cut into one piece at least.
pub proof fn lemma_split_on_len(s: Seq<char>, sep: char)
    ensures
        split_on(s, sep).len() >= 1,
    decreases s.len(),
{
    if s.len() > 0 {
        lemma_split_on_len(s.drop_last(), sep);
    }
}

/// Calls `String::push` of the standard library, which puts a character at
/// the end of a text.
#[verifier::external_body]
pub(crate) fn push_char(text: &mut String, c: char)
    ensures
        final(text)@ == old(text)@.push(c),
{
    text.push(c);
}

/// Cuts a text at every separator.
pub fn split(s: &str, sep: char) -> (parts: Vec<String>)
    ensures
        names_of(parts@) == split_on(s@, sep),
{
    let chars = chars_of(s);
    let mut parts: Vec<String> = Vec::new();
    let mut piece = String::new();
    let mut i: usize = 0;
    proof {
        assert(s@.take(0) =~= Seq::<char>::empty());
        assert(names_of(parts@).push(piece@) =~= seq![Seq::<char>::empty()]);
    }
    while i < chars.len()
        invariant
            i <= chars.len(),
            chars@ == s@,
            split_on(s@.take(i as int), sep) == names_of(parts@).push(piece@),
        decreases chars.len() - i,
    {
        let ghost upto = s@.take(i + 1);
        let ghost before = names_of(parts@);
        let ghost current = piece@;
        proof {
            assert(upto.drop_last() =~= s@.take(i as int));
            assert(upto.last() == s@[i as int]);
            let rest = split_on(upto.drop_last(), sep);
            assert(rest.last() == current);
            assert(rest.drop_last() =~= before);
        }
        if chars[i] == sep {
            parts.push(piece);
            piece = String::new();
            assert(names_of(parts@) =~= before.push(current));
        } else {
            push_char(&mut piece, chars[i]);
        }
        i += 1;
    }
    let ghost before = names_of(parts@);
    let ghost current = piece@;
    parts.push(piece);
    proof {
        assert(s@.take(chars.len() as int) =~= s@);
        assert(names_of(parts@) =~= before.push(current));
    }
    parts
}

/// The texts of a run put one behind the other, with the separator between
/// each two.
pub open spec fn join_with(parts: Seq<Seq<char>>, sep: char) -> Seq<char>
    decreases parts.len(),
{
    if parts.len() == 0 {
        Seq::empty()
    } else if parts.len() == 1 {
        parts[0]
    } else {
        join_with(parts.drop_last(), sep).push(sep) + parts.last()
    }
}

/// Puts the texts one behind the other, with a tab between each two.
pub fn join_tabs(parts: &Vec<String>) -> (r: String)
    ensures
        r@ == join_with(names_of(parts@), '\t'),
{
    if parts.len() == 0 {
        return String::new();
    }
    let mut line = parts[0].clone();
    let mut i: usize = 1;
    assert(names_of(parts@).take(1)[0] == parts@[0]@);
    while i < parts.len()
        invariant
            1 <= i <= parts.len(),
            line@ == join_with(names_of(parts@).take(i as int), '\t'),
        decreases parts.len() - i,
    {
        let ghost before = line@;
        proof {
            let upto = names_of(parts@).take(i + 1);
            assert(upto.drop_last() =~= names_of(parts@).take(i as int));
            assert(upto.last() == parts@[i as int]@);
        }
        proof {
            reveal_strlit("\t");
        }
        line.append("\t");
        line.append(parts[i].as_str());
        assert(line@ =~= before.push('\t') + parts@[i as int]@);
        i += 1;
    }
    assert(names_of(parts@).take(parts.len() as int) =~= names_of(parts@));
    line
}

/// The order of the dictionary on texts, character by character; a text
/// comes before every text that it begins.
pub open spec fn text_before(a: Seq<char>, b: Seq<char>) -> bool
    decreases a.len(),
{
    if b.len() == 0 {
        false
    } else if a.len() == 0 {
        true
    } else if a[0] == b[0] {
        text_before(a.drop_first(), b.drop_first())
    } else {
        (a[0] as u32) < (b[0] as u32)
    }
}

/// The order of the dictionary as a relation.
pub open spec fn by_text() -> spec_fn(Seq<char>, Seq<char>) -> bool {
    |a: Seq<char>, b: Seq<char>| text_before(a, b)
}

/// Of two texts at most one comes before the other.
pub proof fn lemma_text_before_one_way(a: Seq<char>, b: Seq<char>)
    ensures
        !(text_before(a, b) && text_before(b, a)),
    decreases a.len(),
{
    if a.len() > 0 && b.len() > 0 && a[0] == b[0] {
        lemma_text_before_one_way(a.drop_first(), b.drop_first());
    }
}

/// A text that is not before a second, which is not before a third, is not
/// before the third.
pub proof fn lemma_text_before_chain(a: Seq<char>, b: Seq<char>, c: Seq<char>)
    ensures
        !text_before(a, b) && !text_before(b, c) ==> !text_before(a, c),
    decreases a.len(),
{
    if a.len() > 0 && b.len() > 0 && c.len() > 0 {
        if a[0] == b[0] && b[0] == c[0] {
            lemma_text_before_chain(a.drop_first(), b.drop_first(), c.drop_first());
        } else {
            vstd::utf8::char_u32_cast(a[0], a[0] as u32);
            vstd::utf8::char_u32_cast(b[0], b[0] as u32);
            vstd::utf8::char_u32_cast(c[0], c[0] as u32);
        }
    }
}

/// The order of the dictionary orders.
pub proof fn lemma_by_text_orders()
    ensures
        orders(by_text()),
{
    assert forall|a: Seq<char>, b: Seq<char>| #[trigger] by_text()(a, b) implies !by_text()(
        b,
        a,
    ) by {
        lemma_text_before_one_way(a, b);
    }
    assert forall|a: Seq<char>, b: Seq<char>, c: Seq<char>|
        !(#[trigger] by_text()(a, b)) && !(#[trigger] by_text()(b, c)) implies !by_text()(
        a,
        c,
    ) by {
        lemma_text_before_chain(a, b, c);
    }
}

/// Whether a text comes before another in the order of the dictionary.
pub fn is_text_before(a: &str, b: &str) -> (r: bool)
    ensures
        r == text_before(a@, b@),
{
    let x = chars_of(a);
    let y = chars_of(b);
    let mut i: usize = 0;
    assert(x@.skip(0) =~= a@ && y@.skip(0) =~= b@);
    loop
        invariant
            i <= x.len(),
            i <= y.len(),
            x@ == a@,
            y@ == b@,
            text_before(a@, b@) == text_before(x@.skip(i as int), y@.skip(i as int)),
        decreases x.len() - i,
    {
        if i == y.len() {
            return false;
        }
        if i == x.len() {
            return true;
        }
        proof {
            assert(x@.skip(i as int).drop_first() =~= x@.skip(i + 1));
            assert(y@.skip(i as int).drop_first() =~= y@.skip(i + 1));
            assert(x@.skip(i as int)[0] == x@[i as int]);
            assert(y@.skip(i as int)[0] == y@[i as int]);
        }
        if x[i] != y[i] {
            return (x[i] as u32) < (y[i] as u32);
        }
        i += 1;
    }
}

/// The texts in the order of the dictionary. Texts that are the same keep
/// their order.
pub fn sort_texts(texts: &Vec<String>) -> (sorted: Vec<String>)
    ensures
        names_of(sorted@) == sorted_by(names_of(texts@), by_text()),
        in_order(names_of(sorted@), by_text()),
        names_of(sorted@).to_multiset() == names_of(texts@).to_multiset(),
{
    proof {
        lemma_by_text_orders();
        lemma_sorted_in_order(names_of(texts@), by_text());
        lemma_sorted_is_permutation(names_of(texts@), by_text());
    }
    let mut sorted: Vec<String> = Vec::new();
    let mut i: usize = 0;
    assert(names_of(texts@).take(0) =~= Seq::<Seq<char>>::empty());
    assert(names_of(sorted@) =~= Seq::<Seq<char>>::empty());
    while i < texts.len()
        invariant
            i <= texts.len(),
            sorted.len() == i,
            names_of(sorted@) == sorted_by(names_of(texts@).take(i as int), by_text()),
        decreases texts.len() - i,
    {
        let text = texts[i].clone();
        let mut j: usize = sorted.len();
        while j > 0 && is_text_before(text.as_str(), sorted[j - 1].as_str())
            invariant
                j <= sorted.len(),
                forall|k: int|
                    j <= k < sorted.len() ==> text_before(text@, #[trigger] names_of(sorted@)[k]),
            decreases j,
        {
            j -= 1;
        }
        proof {
            let before = names_of(sorted@);
            if j > 0 {
                assert(before[j - 1] == sorted@[j - 1]@);
            }
            lemma_insert_place(before, text@, by_text(), j as int);
            let upto = names_of(texts@).take(i + 1);
            assert(upto.drop_last() =~= names_of(texts@).take(i as int));
            assert(upto.last() == text@);
        }
        let ghost before = names_of(sorted@);
        let ghost added = text@;
        sorted.insert(j, text);
        assert(names_of(sorted@) =~= before.insert(j as int, added));
        i += 1;
    }
    assert(names_of(texts@).take(texts.len() as int) =~= names_of(texts@));
    sorted
}

} // verus!
