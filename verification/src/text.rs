//! Text helpers: words, prefixes and trailing white space, on strings seen as
//! sequences of characters.

use vstd::prelude::*;
use vstd::string::*;

verus! {

/// The characters with the Unicode `White_Space` property.
pub open spec fn is_white_space(c: char) -> bool {
    let n = c as u32;
    ||| 0x9 <= n <= 0xd
    ||| n == 0x20
    ||| n == 0x85
    ||| n == 0xa0
    ||| n == 0x1680
    ||| 0x2000 <= n <= 0x200a
    ||| n == 0x2028
    ||| n == 0x2029
    ||| n == 0x202f
    ||| n == 0x205f
    ||| n == 0x3000
}

/// `char::is_whitespace` of std. Its documentation says that it answers
/// whether a character has the `White_Space` property of the Unicode
/// Character Database; the contract lists the characters that have it.
pub assume_specification[ char::is_whitespace ](c: char) -> (b: bool)
    ensures
        b == is_white_space(c),
;

/// Whether no character of `s` is white space.
pub open spec fn has_no_white_space(s: Seq<char>) -> bool {
    forall|i: int| 0 <= i < s.len() ==> !is_white_space(#[trigger] s[i])
}

/// The longest prefix of `s` without white space.
pub open spec fn leading_word(s: Seq<char>) -> Seq<char>
    decreases s.len(),
{
    if s.len() == 0 || is_white_space(s[0]) {
        Seq::empty()
    } else {
        seq![s[0]] + leading_word(s.drop_first())
    }
}

/// `s` from its first character that is not white space on.
pub open spec fn skip_white_space(s: Seq<char>) -> Seq<char>
    decreases s.len(),
{
    if s.len() > 0 && is_white_space(s[0]) {
        skip_white_space(s.drop_first())
    } else {
        s
    }
}

/// The first word of `s`, words being separated by white space; empty when
/// `s` holds no word.
pub open spec fn first_word(s: Seq<char>) -> Seq<char> {
    leading_word(skip_white_space(s))
}

/// `s` without the white space at its end.
pub open spec fn without_trailing_space(s: Seq<char>) -> Seq<char>
    decreases s.len(),
{
    if s.len() > 0 && is_white_space(s.last()) {
        without_trailing_space(s.drop_last())
    } else {
        s
    }
}

/// Whether `needle` stands in `s` at position `at`.
pub open spec fn occurs_at(s: Seq<char>, needle: Seq<char>, at: int) -> bool {
    &&& 0 <= at
    &&& at + needle.len() <= s.len()
    &&& s.subrange(at, at + needle.len()) == needle
}

/// The value of an optional string.
pub open spec fn opt_text(s: Option<String>) -> Option<Seq<char>> {
    match s {
        Some(t) => Some(t@),
        None => None,
    }
}

/// A word starts with the word, and what follows it does not belong to it.
pub proof fn lemma_leading_word(word: Seq<char>, tail: Seq<char>)
    requires
        has_no_white_space(word),
        tail.len() == 0 || is_white_space(tail[0]),
    ensures
        leading_word(word + tail) == word,
    decreases word.len(),
{
    let s = word + tail;
    if word.len() > 0 {
        assert(s.drop_first() =~= word.drop_first() + tail);
        assert forall|i: int| 0 <= i < word.drop_first().len() implies !is_white_space(
            #[trigger] word.drop_first()[i],
        ) by {
            assert(!is_white_space(word[i + 1]));
        }
        lemma_leading_word(word.drop_first(), tail);
        assert(!is_white_space(word[0]));
        assert(seq![s[0]] + word.drop_first() =~= word);
    } else {
        assert(s =~= tail);
        assert(leading_word(s) =~= word);
    }
}

/// The leading word is a prefix, holds no white space, and ends where white
/// space starts.
pub proof fn lemma_leading_word_shape(s: Seq<char>)
    ensures
        leading_word(s).len() <= s.len(),
        leading_word(s) == s.take(leading_word(s).len() as int),
        has_no_white_space(leading_word(s)),
        leading_word(s).len() < s.len() ==> is_white_space(s[leading_word(s).len() as int]),
    decreases s.len(),
{
    if s.len() == 0 || is_white_space(s[0]) {
        assert(s.take(0) =~= Seq::empty());
    } else {
        let rest = s.drop_first();
        lemma_leading_word_shape(rest);
        let w = leading_word(rest);
        assert(leading_word(s) =~= s.take((w.len() + 1) as int));
        assert forall|i: int| 0 <= i < leading_word(s).len() implies !is_white_space(
            #[trigger] leading_word(s)[i],
        ) by {
            if i > 0 {
                assert(leading_word(s)[i] == w[i - 1]);
            }
        }
    }
}

/// `skip_white_space` drops a prefix.
pub proof fn lemma_skip_white_space_at(s: Seq<char>, at: int)
    requires
        0 <= at <= s.len(),
        forall|i: int| 0 <= i < at ==> is_white_space(#[trigger] s[i]),
        at < s.len() ==> !is_white_space(s[at]),
    ensures
        skip_white_space(s) == s.skip(at),
    decreases at,
{
    if at > 0 {
        assert(is_white_space(s[0]));
        assert forall|i: int| 0 <= i < at - 1 implies is_white_space(
            #[trigger] s.drop_first()[i],
        ) by {
            assert(is_white_space(s[i + 1]));
        }
        lemma_skip_white_space_at(s.drop_first(), at - 1);
        assert(s.drop_first().skip(at - 1) =~= s.skip(at));
    } else {
        assert(s.skip(0) =~= s);
    }
}

/// What is cut from the end of `s` is white space, and what is left of it
/// does not end in white space.
pub proof fn lemma_without_trailing_space_shape(s: Seq<char>)
    ensures
        without_trailing_space(s).len() <= s.len(),
        without_trailing_space(s) == s.take(without_trailing_space(s).len() as int),
        without_trailing_space(s).len() > 0 ==> !is_white_space(without_trailing_space(s).last()),
        forall|i: int|
            without_trailing_space(s).len() <= i < s.len() ==> is_white_space(#[trigger] s[i]),
    decreases s.len(),
{
    if s.len() > 0 && is_white_space(s.last()) {
        lemma_without_trailing_space_shape(s.drop_last());
        let kept = without_trailing_space(s.drop_last());
        assert(s.drop_last().take(kept.len() as int) =~= s.take(kept.len() as int));
        assert forall|i: int| kept.len() <= i < s.len() implies is_white_space(#[trigger] s[i]) by {
            if i < s.len() - 1 {
                assert(s.drop_last()[i] == s[i]);
            }
        }
    } else {
        assert(s.take(s.len() as int) =~= s);
    }
}

/// The first word is what stands between the white space before it and the
/// white space behind it, whatever comes after that.
pub proof fn the_first_word_stands_between_spaces(
    gap: Seq<char>,
    word: Seq<char>,
    tail: Seq<char>,
)
    requires
        forall|i: int| 0 <= i < gap.len() ==> is_white_space(#[trigger] gap[i]),
        has_no_white_space(word),
        tail.len() == 0 || word.len() > 0 && is_white_space(tail[0]),
    ensures
        first_word(gap + word + tail) == word,
{
    let s = gap + word + tail;
    let at = gap.len() as int;
    assert forall|i: int| 0 <= i < at implies is_white_space(#[trigger] s[i]) by {
        assert(s[i] == gap[i]);
    }
    if at < s.len() {
        assert(s[at] == word[0]);
        assert(!is_white_space(word[0]));
    }
    lemma_skip_white_space_at(s, at);
    assert(s.skip(at) =~= word + tail);
    lemma_leading_word(word, tail);
}

/// A text that does not end in white space is what is left of it when any
/// white space is set behind it.
pub proof fn trailing_space_is_cut(kept: Seq<char>, tail: Seq<char>)
    requires
        kept.len() == 0 || !is_white_space(kept.last()),
        forall|i: int| 0 <= i < tail.len() ==> is_white_space(#[trigger] tail[i]),
    ensures
        without_trailing_space(kept + tail) == kept,
    decreases tail.len(),
{
    let s = kept + tail;
    if tail.len() > 0 {
        assert(is_white_space(tail[tail.len() - 1]));
        assert(s.drop_last() =~= kept + tail.drop_last());
        assert forall|i: int| 0 <= i < tail.drop_last().len() implies is_white_space(
            #[trigger] tail.drop_last()[i],
        ) by {
            assert(is_white_space(tail[i]));
        }
        trailing_space_is_cut(kept, tail.drop_last());
    } else {
        assert(s =~= kept);
    }
}

/// The characters of `s`, in order.
pub fn chars_of(s: &str) -> (v: Vec<char>)
    ensures
        v@ == s@,
{
    let mut v: Vec<char> = Vec::new();
    for c in it: s.chars()
        invariant
            it.seq() == s@,
            v@ == s@.take(it.index()),
    {
        v.push(c);
    }
    assert(v@ =~= s@);
    v
}

/// Whether `needle` stands in `chars` at position `at`.
pub fn stands_at(chars: &Vec<char>, needle: &Vec<char>, at: usize) -> (b: bool)
    requires
        at <= chars@.len(),
    ensures
        b == occurs_at(chars@, needle@, at as int),
{
    let len: usize = chars.len();
    if needle.len() > len - at {
        return false;
    }
    let mut i: usize = 0;
    while i < needle.len()
        invariant
            i <= needle@.len(),
            len == chars@.len(),
            at + needle@.len() <= len,
            forall|j: int| 0 <= j < i ==> chars@[at + j] == #[trigger] needle@[j],
        decreases needle@.len() - i,
    {
        if chars[at + i] != needle[i] {
            proof {
                let part = chars@.subrange(at as int, at + needle@.len());
                assert(part[i as int] != needle@[i as int]);
            }
            return false;
        }
        i += 1;
    }
    assert(chars@.subrange(at as int, at + needle@.len()) =~= needle@);
    true
}

/// Whether two texts hold the same characters.
pub fn same_text(a: &str, b: &str) -> (same: bool)
    ensures
        same == (a@ == b@),
{
    let left = chars_of(a);
    let right = chars_of(b);
    if left.len() != right.len() {
        return false;
    }
    let same = stands_at(&left, &right, 0);
    assert(left@.subrange(0, right@.len() as int) =~= left@);
    same
}

/// `s` without the white space at its end.
pub fn trim_trailing_space(s: &str) -> (t: &str)
    ensures
        t@ == without_trailing_space(s@),
{
    let chars = chars_of(s);
    let mut end: usize = chars.len();
    assert(s@.take(end as int) =~= s@);
    while end > 0 && chars[end - 1].is_whitespace()
        invariant
            chars@ == s@,
            end <= s@.len(),
            without_trailing_space(s@) == without_trailing_space(s@.take(end as int)),
        decreases end,
    {
        assert(s@.take(end as int).drop_last() =~= s@.take(end - 1));
        end -= 1;
    }
    assert(s@.subrange(0, end as int) =~= s@.take(end as int));
    s.substring_char(0, end)
}

/// The first word of the text that follows the first `from` characters of
/// `s`.
pub fn first_word_from(s: &str, from: usize) -> (word: &str)
    requires
        from <= s@.len(),
    ensures
        word@ == first_word(s@.skip(from as int)),
{
    let chars = chars_of(s);
    let ghost rest = s@.skip(from as int);
    let mut start: usize = from;
    while start < chars.len() && chars[start].is_whitespace()
        invariant
            chars@ == s@,
            from <= start <= s@.len(),
            forall|i: int| from <= i < start ==> is_white_space(#[trigger] s@[i]),
        decreases s@.len() - start,
    {
        start += 1;
    }
    let mut end: usize = start;
    while end < chars.len() && !chars[end].is_whitespace()
        invariant
            chars@ == s@,
            start <= end <= s@.len(),
            forall|i: int| start <= i < end ==> !is_white_space(#[trigger] s@[i]),
        decreases s@.len() - end,
    {
        end += 1;
    }
    proof {
        lemma_skip_white_space_at(rest, start - from);
        assert(rest.skip(start - from) =~= s@.skip(start as int));
        let word = s@.subrange(start as int, end as int);
        assert(s@.skip(start as int) =~= word + s@.skip(end as int));
        lemma_leading_word(word, s@.skip(end as int));
    }
    s.substring_char(start, end)
}

} // verus!
