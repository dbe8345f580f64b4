//! Character-level helpers on strings, each stated over `Seq<char>`.

use vstd::prelude::*;
use vstd::std_specs::iter::IteratorSpec;

verus! {

/// Appends one character to a `String` (std's `String::push`).
///
/// Trusted: the contract claims that the string afterwards holds its old
/// characters followed by `c`, as std documents.
#[verifier::external_body]
pub(crate) fn push_char(s: &mut String, c: char)
    ensures
        final(s)@ == old(s)@.push(c),
{
    s.push(c);
}


/// The characters of `s`, one by one.
pub fn chars_of(s: &str) -> (r: Vec<char>)
    ensures
        r@ == s@,
{
    let mut r: Vec<char> = Vec::new();
    let chars = s.chars();
    for c in it: chars
        invariant
            it.seq() == s@,
            r@ == s@.take(it.index() as int),
    {
        r.push(c);
        assert(s@.take(it.index() + 1) == s@.take(it.index() as int).push(c));
    }
    assert(s@.take(s@.len() as int) == s@);
    r
}

/// Removes and returns the last character of a `String` (std's
/// `String::pop`).
///
/// Trusted: the contract claims that `None` comes back exactly when the
/// string is empty, and otherwise its last character, which is removed.
#[verifier::external_body]
pub(crate) fn pop_char(s: &mut String) -> (r: Option<char>)
    ensures
        old(s)@.len() == 0 ==> r is None && final(s)@ == old(s)@,
        old(s)@.len() > 0 ==> r == Some(old(s)@.last()) && final(s)@ == old(s)@.drop_last(),
{
    s.pop()
}

/// The pieces of `s` between occurrences of `sep`, as std's `str::split`
/// with a character pattern gives them: one more piece than there are
/// separators, empty pieces included.
pub open spec fn split_on(s: Seq<char>, sep: char) -> Seq<Seq<char>>
    decreases s.len(),
{
    if s.len() == 0 {
        seq![Seq::empty()]
    } else {
        let rest = split_on(s.drop_last(), sep);
        if s.last() == sep {
            rest.push(Seq::empty())
        } else {
            rest.update(rest.len() - 1, rest.last().push(s.last()))
        }
    }
}

/// A split always yields at least one piece.
pub proof fn lemma_split_on_nonempty(s: Seq<char>, sep: char)
    ensures
        split_on(s, sep).len() >= 1,
    decreases s.len(),
{
    if s.len() > 0 {
        lemma_split_on_nonempty(s.drop_last(), sep);
    }
}

/// How the split of `s` grows when one character is appended.
pub proof fn lemma_split_on_push(s: Seq<char>, c: char, sep: char)
    ensures
        split_on(s, sep).len() >= 1,
        c == sep ==> split_on(s.push(c), sep) == split_on(s, sep).push(Seq::empty()),
        c != sep ==> split_on(s.push(c), sep) == split_on(s, sep).drop_last().push(
            split_on(s, sep).last().push(c),
        ),
{
    lemma_split_on_nonempty(s, sep);
    assert(s.push(c).drop_last() == s);
    let rest = split_on(s, sep);
    if c != sep {
        assert(rest.update(rest.len() - 1, rest.last().push(c)) == rest.drop_last().push(
            rest.last().push(c),
        ));
    }
}


/// No character of `s` is `c`.
pub open spec fn free_of(s: Seq<char>, c: char) -> bool {
    forall|i: int| 0 <= i < s.len() ==> s[i] != c
}

/// A piece free of the separator has no effect on the split but to extend
/// its last piece.
pub proof fn lemma_split_on_append_free(a: Seq<char>, b: Seq<char>, sep: char)
    requires
        free_of(b, sep),
    ensures
        split_on(a + b, sep) == split_on(a, sep).drop_last().push(split_on(a, sep).last() + b),
    decreases b.len(),
{
    lemma_split_on_nonempty(a, sep);
    if b.len() == 0 {
        assert(a + b == a);
        assert(split_on(a, sep).last() + b == split_on(a, sep).last());
        assert(split_on(a, sep).drop_last().push(split_on(a, sep).last()) == split_on(a, sep));
    } else {
        let b0 = b.drop_last();
        let c = b.last();
        assert(free_of(b0, sep));
        lemma_split_on_append_free(a, b0, sep);
        assert(a + b == (a + b0).push(c));
        lemma_split_on_push(a + b0, c, sep);
        assert((split_on(a, sep).last() + b0).push(c) == split_on(a, sep).last() + b);
        assert(split_on(a, sep).drop_last().push(split_on(a, sep).last() + b0).drop_last()
            == split_on(a, sep).drop_last());
    }
}

/// A sequence free of the separator splits into itself alone.
pub proof fn lemma_split_on_free(b: Seq<char>, sep: char)
    requires
        free_of(b, sep),
    ensures
        split_on(b, sep) == seq![b],
{
    lemma_split_on_append_free(Seq::empty(), b, sep);
    assert(Seq::<char>::empty() + b == b);
    assert(Seq::<char>::empty() + b == b);
    assert(split_on(Seq::<char>::empty(), sep) == seq![Seq::<char>::empty()]);
}

/// Appending a separator and then a separator-free piece adds that piece
/// to the split.
pub proof fn lemma_split_on_field(a: Seq<char>, b: Seq<char>, sep: char)
    requires
        free_of(b, sep),
    ensures
        split_on(a + seq![sep] + b, sep) == split_on(a, sep).push(b),
{
    assert(a + seq![sep] == a.push(sep));
    lemma_split_on_push(a, sep, sep);
    lemma_split_on_append_free(a + seq![sep], b, sep);
    let parts = split_on(a, sep).push(Seq::empty());
    assert(parts.drop_last() == split_on(a, sep));
    assert(Seq::<char>::empty() + b == b);
}

} // verus!
