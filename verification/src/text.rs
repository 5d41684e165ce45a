//! Character-level helpers on strings, with their mathematical counterparts.

use vstd::prelude::*;

verus! {

/// Whether a character has the Unicode property `White_Space`.
pub uninterp spec fn is_white_space(c: char) -> bool;

/// `char::is_whitespace` decides the Unicode property `White_Space`; the
/// property is a fixed table of the standard library, so it is named rather
/// than spelled out.
pub assume_specification[ char::is_whitespace ](c: char) -> (r: bool)
    ensures
        r == is_white_space(c),
;

/// The number of leading white-space characters of `s`.
pub open spec fn leading_white_space(s: Seq<char>) -> nat
    decreases s.len(),
{
    if s.len() > 0 && is_white_space(s[0]) {
        1 + leading_white_space(s.skip(1))
    } else {
        0
    }
}

/// The number of trailing white-space characters of `s`.
pub open spec fn trailing_white_space(s: Seq<char>) -> nat
    decreases s.len(),
{
    if s.len() > 0 && is_white_space(s.last()) {
        1 + trailing_white_space(s.drop_last())
    } else {
        0
    }
}

/// `s` without its leading and trailing white space.
pub open spec fn trimmed(s: Seq<char>) -> Seq<char> {
    let from = leading_white_space(s) as int;
    let rest = s.skip(from);
    rest.take(rest.len() - trailing_white_space(rest))
}

/// `n` spaces.
pub open spec fn blanks(n: nat) -> Seq<char> {
    Seq::new(n, |i: int| ' ')
}

/// `n` white-space characters and then another one, or the end: `n` is the
/// number of leading white-space characters.
pub proof fn lemma_leading_white_space(s: Seq<char>, n: int)
    requires
        0 <= n <= s.len(),
        forall|i: int| 0 <= i < n ==> is_white_space(#[trigger] s[i]),
        n < s.len() ==> !is_white_space(s[n]),
    ensures
        leading_white_space(s) == n,
    decreases n,
{
    if n > 0 {
        let rest = s.skip(1);
        assert forall|i: int| 0 <= i < n - 1 implies is_white_space(#[trigger] rest[i]) by {
            assert(rest[i] == s[i + 1]);
        }
        lemma_leading_white_space(rest, n - 1);
    }
}

/// The same from the end.
pub proof fn lemma_trailing_white_space(s: Seq<char>, n: int)
    requires
        0 <= n <= s.len(),
        forall|i: int| s.len() - n <= i < s.len() ==> is_white_space(#[trigger] s[i]),
        n < s.len() ==> !is_white_space(s[s.len() - n - 1]),
    ensures
        trailing_white_space(s) == n,
    decreases n,
{
    if n > 0 {
        let rest = s.drop_last();
        assert forall|i: int| rest.len() - (n - 1) <= i < rest.len() implies is_white_space(
            #[trigger] rest[i],
        ) by {
            assert(rest[i] == s[i]);
        }
        lemma_trailing_white_space(rest, n - 1);
    }
}

/// A trimmed string has white space at neither end, so trimming it again
/// changes nothing.
pub proof fn lemma_trimmed_idempotent(s: Seq<char>)
    ensures
        trimmed(trimmed(s)) == trimmed(s),
{
    let from = leading_white_space(s) as int;
    lemma_leading_bounds(s);
    let rest = s.skip(from);
    lemma_trailing_bounds(rest);
    let t = trimmed(s);
    lemma_leading_stops(s);
    lemma_trailing_stops(rest);
    if t.len() > 0 {
        assert(t[0] == rest[0]);
        assert(rest[0] == s[from]);
        assert(t.last() == rest[rest.len() - trailing_white_space(rest) - 1]);
        lemma_leading_white_space(t, 0);
        lemma_trailing_white_space(t, 0);
        assert(t.skip(0) =~= t);
        assert(t.take(t.len() as int) =~= t);
    } else {
        assert(t.skip(0) =~= t);
        assert(t.take(0) =~= t);
    }
}

/// There are no more leading white-space characters than characters.
pub proof fn lemma_leading_bounds(s: Seq<char>)
    ensures
        leading_white_space(s) <= s.len(),
    decreases s.len(),
{
    if s.len() > 0 && is_white_space(s[0]) {
        lemma_leading_bounds(s.skip(1));
    }
}

/// There are no more trailing white-space characters than characters.
pub proof fn lemma_trailing_bounds(s: Seq<char>)
    ensures
        trailing_white_space(s) <= s.len(),
    decreases s.len(),
{
    if s.len() > 0 && is_white_space(s.last()) {
        lemma_trailing_bounds(s.drop_last());
    }
}

/// The character after the leading white space, if any, is not white space.
pub proof fn lemma_leading_stops(s: Seq<char>)
    ensures
        leading_white_space(s) < s.len() ==> !is_white_space(s[leading_white_space(s) as int]),
    decreases s.len(),
{
    if s.len() > 0 && is_white_space(s[0]) {
        lemma_leading_stops(s.skip(1));
        lemma_leading_bounds(s.skip(1));
        if leading_white_space(s) < s.len() {
            assert(s.skip(1)[leading_white_space(s.skip(1)) as int] == s[leading_white_space(
                s,
            ) as int]);
        }
    }
}

/// The character before the trailing white space, if any, is not white space.
pub proof fn lemma_trailing_stops(s: Seq<char>)
    ensures
        trailing_white_space(s) < s.len() ==> !is_white_space(
            s[s.len() - trailing_white_space(s) - 1],
        ),
    decreases s.len(),
{
    if s.len() > 0 && is_white_space(s.last()) {
        lemma_trailing_stops(s.drop_last());
        lemma_trailing_bounds(s.drop_last());
        if trailing_white_space(s) < s.len() {
            let rest = s.drop_last();
            assert(rest[rest.len() - trailing_white_space(rest) - 1] == s[s.len()
                - trailing_white_space(s) - 1]);
        }
    }
}

/// `s` without its leading and trailing white space.
pub fn trim(s: &str) -> (r: &str)
    ensures
        r@ == trimmed(s@),
{
    let len: usize = s.unicode_len();
    let mut from: usize = 0;
    while from < len && s.get_char(from).is_whitespace()
        invariant
            from <= len,
            len == s@.len(),
            forall|i: int| 0 <= i < from ==> is_white_space(#[trigger] s@[i]),
        decreases len - from,
    {
        from += 1;
    }
    let mut to: usize = len;
    while to > from && s.get_char(to - 1).is_whitespace()
        invariant
            from <= to <= len,
            len == s@.len(),
            forall|i: int| to <= i < len ==> is_white_space(#[trigger] s@[i]),
        decreases to,
    {
        to -= 1;
    }
    proof {
        lemma_leading_white_space(s@, from as int);
        let rest = s@.skip(from as int);
        assert forall|i: int| rest.len() - (len - to) <= i < rest.len() implies is_white_space(
            #[trigger] rest[i],
        ) by {
            assert(rest[i] == s@[i + from]);
        }
        if len - to < rest.len() {
            assert(rest[rest.len() - (len - to) - 1] == s@[to - 1]);
        }
        lemma_trailing_white_space(rest, len - to);
        assert(s@.subrange(from as int, to as int) =~= rest.take(rest.len() - (len - to)));
    }
    s.substring_char(from, to)
}

/// Whether `s` begins with the character `c`.
pub fn starts_with_char(s: &str, c: char) -> (r: bool)
    ensures
        r == (s@.len() > 0 && s@[0] == c),
{
    s.unicode_len() > 0 && s.get_char(0) == c
}

/// Whether `s` ends with the character `c`.
pub fn ends_with_char(s: &str, c: char) -> (r: bool)
    ensures
        r == (s@.len() > 0 && s@.last() == c),
{
    let len: usize = s.unicode_len();
    len > 0 && s.get_char(len - 1) == c
}

/// Whether the character `c` occurs in `s`.
pub fn contains_char(s: &str, c: char) -> (r: bool)
    ensures
        r == s@.contains(c),
{
    let len: usize = s.unicode_len();
    let mut i: usize = 0;
    while i < len
        invariant
            i <= len,
            len == s@.len(),
            forall|j: int| 0 <= j < i ==> s@[j] != c,
        decreases len - i,
    {
        if s.get_char(i) == c {
            return true;
        }
        i += 1;
    }
    false
}

/// `s` without its first character.
pub fn without_first(s: &str) -> (r: &str)
    requires
        s@.len() > 0,
    ensures
        r@ == s@.skip(1),
{
    let len: usize = s.unicode_len();
    s.substring_char(1, len)
}

/// `s` without its last character.
pub fn without_last(s: &str) -> (r: &str)
    requires
        s@.len() > 0,
    ensures
        r@ == s@.drop_last(),
{
    let len: usize = s.unicode_len();
    s.substring_char(0, len - 1)
}

/// A string of `n` spaces.
pub fn spaces(n: usize) -> (r: String)
    ensures
        r@ == blanks(n as nat),
{
    let mut r: String = String::new();
    let mut i: usize = 0;
    proof {
        assert(r@ =~= blanks(0));
    }
    while i < n
        invariant
            i <= n,
            r@ == blanks(i as nat),
        decreases n - i,
    {
        proof {
            reveal_strlit(" ");
            assert(blanks(i as nat) + " "@ =~= blanks((i + 1) as nat));
        }
        r.append(" ");
        i += 1;
    }
    r
}

} // verus!
