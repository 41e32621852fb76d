//! Searching and cutting text: the first and last occurrence of a character,
//! and the fields of a text that a separator divides.

use vstd::prelude::*;

verus! {

/// The position of the first `c` in `s`, or `s.len()` where `s` holds no `c`.
pub open spec fn first_index(s: Seq<char>, c: char) -> int
    decreases s.len(),
{
    if s.len() == 0 || s[0] == c {
        0
    } else {
        1 + first_index(s.drop_first(), c)
    }
}

/// The position of the last `c` in `s`, or `-1` where `s` holds no `c`.
pub open spec fn last_index(s: Seq<char>, c: char) -> int
    decreases s.len(),
{
    if s.len() == 0 {
        -1
    } else if s.last() == c {
        s.len() - 1
    } else {
        last_index(s.drop_last(), c)
    }
}

/// Field `k` of `s`, counting from zero, where `sep` divides `s` into fields.
/// A text with fewer than `k + 1` fields has the empty text as its field `k`.
pub open spec fn field(s: Seq<char>, sep: char, k: nat) -> Seq<char>
    decreases k,
{
    let end = first_index(s, sep);
    if k == 0 {
        s.take(end)
    } else if end == s.len() {
        Seq::empty()
    } else {
        field(s.skip(end + 1), sep, (k - 1) as nat)
    }
}

/// `first_index` is within the text, nothing before it is `c`, and where it
/// is not the end of the text it is the position of a `c`.
pub proof fn lemma_first_index_bounds(s: Seq<char>, c: char)
    ensures
        0 <= first_index(s, c) <= s.len(),
        first_index(s, c) < s.len() ==> s[first_index(s, c)] == c,
        forall|j: int| 0 <= j < first_index(s, c) ==> s[j] != c,
    decreases s.len(),
{
    if s.len() != 0 && s[0] != c {
        let rest = s.drop_first();
        lemma_first_index_bounds(rest, c);
        assert forall|j: int| 0 <= j < first_index(s, c) implies s[j] != c by {
            if j > 0 {
                assert(s[j] == rest[j - 1]);
            }
        }
    }
}

/// A position `i` that nothing equal to `c` precedes, and that is the end of
/// the text or holds a `c`, is `first_index`.
pub proof fn lemma_first_index_is(s: Seq<char>, c: char, i: int)
    requires
        0 <= i <= s.len(),
        forall|j: int| 0 <= j < i ==> s[j] != c,
        i < s.len() ==> s[i] == c,
    ensures
        first_index(s, c) == i,
    decreases s.len(),
{
    if s.len() != 0 && s[0] != c {
        let rest = s.drop_first();
        assert forall|j: int| 0 <= j < i - 1 implies rest[j] != c by {
            assert(rest[j] == s[j + 1]);
        }
        lemma_first_index_is(rest, c, i - 1);
    }
}

/// `last_index` is `-1` or a position of `c`, and nothing after it is `c`.
pub proof fn lemma_last_index_bounds(s: Seq<char>, c: char)
    ensures
        -1 <= last_index(s, c) < s.len(),
        0 <= last_index(s, c) ==> s[last_index(s, c)] == c,
        forall|j: int| last_index(s, c) < j < s.len() ==> s[j] != c,
    decreases s.len(),
{
    if s.len() != 0 && s.last() != c {
        let front = s.drop_last();
        lemma_last_index_bounds(front, c);
        assert forall|j: int| last_index(s, c) < j < s.len() implies s[j] != c by {
            if j < front.len() {
                assert(s[j] == front[j]);
            }
        }
    }
}

/// A position `i` that nothing equal to `c` follows, and that is `-1` or
/// holds a `c`, is `last_index`.
pub proof fn lemma_last_index_is(s: Seq<char>, c: char, i: int)
    requires
        -1 <= i < s.len(),
        forall|j: int| i < j < s.len() ==> s[j] != c,
        0 <= i ==> s[i] == c,
    ensures
        last_index(s, c) == i,
    decreases s.len(),
{
    if s.len() != 0 && s.last() != c {
        lemma_last_index_is(s.drop_last(), c, i);
    }
}

/// `s` holds no `c`.
pub open spec fn lacks(s: Seq<char>, c: char) -> bool {
    forall|i: int| 0 <= i < s.len() ==> s[i] != c
}

/// Of a text made of a word without separator, a separator and a rest, the
/// first field is the word, and every later field is a field of the rest.
pub proof fn lemma_field_of_joined(word: Seq<char>, sep: char, rest: Seq<char>, k: nat)
    requires
        lacks(word, sep),
    ensures
        k == 0 ==> field(word + seq![sep] + rest, sep, k) == word,
        k > 0 ==> field(word + seq![sep] + rest, sep, k) == field(rest, sep, (k - 1) as nat),
{
    let s = word + seq![sep] + rest;
    lemma_first_index_is(s, sep, word.len() as int);
    if k == 0 {
        assert(s.take(word.len() as int) =~= word);
    } else {
        assert(s.skip(word.len() as int + 1) =~= rest);
    }
}

/// A text without separator is its own first field, and its only one.
pub proof fn lemma_field_of_word(word: Seq<char>, sep: char, k: nat)
    requires
        lacks(word, sep),
    ensures
        k == 0 ==> field(word, sep, k) == word,
        k > 0 ==> field(word, sep, k) == Seq::<char>::empty(),
{
    lemma_first_index_is(word, sep, word.len() as int);
    if k == 0 {
        assert(word.take(word.len() as int) =~= word);
    }
}

/// Whether two texts hold the same characters.
pub fn same_text(a: &str, b: &str) -> (same: bool)
    ensures
        same == (a@ == b@),
{
    let n = a.unicode_len();
    if b.unicode_len() != n {
        return false;
    }
    let mut i: usize = 0;
    while i < n
        invariant
            i <= n,
            n == a@.len(),
            n == b@.len(),
            forall|j: int| 0 <= j < i ==> a@[j] == b@[j],
        decreases n - i,
    {
        if a.get_char(i) != b.get_char(i) {
            return false;
        }
        i += 1;
    }
    assert(a@ =~= b@);
    true
}

/// The position of the first `c` in `s`, or the length of `s` in characters
/// where `s` holds no `c`.
pub fn find_first(s: &str, c: char) -> (i: usize)
    ensures
        i == first_index(s@, c),
{
    let n = s.unicode_len();
    let mut i: usize = 0;
    while i < n && s.get_char(i) != c
        invariant
            i <= n,
            n == s@.len(),
            forall|j: int| 0 <= j < i ==> s@[j] != c,
        decreases n - i,
    {
        i += 1;
    }
    proof {
        lemma_first_index_is(s@, c, i as int);
    }
    i
}

/// The position of the last `c` in `s`, or `None` where `s` holds no `c`.
pub fn find_last(s: &str, c: char) -> (found: Option<usize>)
    ensures
        found matches Some(i) ==> i == last_index(s@, c),
        found is None ==> last_index(s@, c) == -1,
{
    let n = s.unicode_len();
    let mut i: usize = n;
    while i > 0
        invariant
            i <= n,
            n == s@.len(),
            forall|j: int| i <= j < n ==> s@[j] != c,
        decreases i,
    {
        i -= 1;
        if s.get_char(i) == c {
            proof {
                lemma_last_index_is(s@, c, i as int);
            }
            return Some(i);
        }
    }
    proof {
        lemma_last_index_is(s@, c, -1);
    }
    None
}

/// Field `k` of `s`, counting from zero, where `sep` divides `s` into fields;
/// the empty text where `s` has fewer than `k + 1` fields.
pub fn nth_field<'a>(s: &'a str, sep: char, k: usize) -> (part: &'a str)
    ensures
        part@ == field(s@, sep, k as nat),
{
    let n = s.unicode_len();
    let mut start: usize = 0;
    let mut passed: usize = 0;
    let mut i: usize = 0;
    assert(s@.skip(0) =~= s@);
    while i < n
        invariant
            start <= i <= n,
            n == s@.len(),
            passed <= k,
            forall|j: int| start <= j < i ==> s@[j] != sep,
            field(s@, sep, k as nat) == field(s@.skip(start as int), sep, (k - passed) as nat),
        decreases n - i,
    {
        if s.get_char(i) == sep {
            let ghost rest = s@.skip(start as int);
            proof {
                lemma_first_index_is(rest, sep, i - start);
            }
            if passed == k {
                assert(rest.take(i - start) =~= s@.subrange(start as int, i as int));
                return s.substring_char(start, i);
            }
            assert(rest.skip(i - start + 1) =~= s@.skip(i + 1));
            passed += 1;
            start = i + 1;
        }
        i += 1;
    }
    let ghost rest = s@.skip(start as int);
    proof {
        lemma_first_index_is(rest, sep, n - start);
    }
    if passed == k {
        assert(rest.take(n - start) =~= s@.subrange(start as int, n as int));
        s.substring_char(start, n)
    } else {
        s.substring_char(n, n)
    }
}

} // verus!
