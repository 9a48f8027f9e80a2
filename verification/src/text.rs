//! Character-sequence helpers: equality, prefix tests, and splitting on a
//! separator character. Interface names and dotted-decimal addresses are
//! both dash- or dot-delimited tokens, so the codec and the hook share this
//! machinery.

use vstd::prelude::*;

verus! {

/// Index of the first occurrence of `sep` in `s`, or `s.len()` when `s`
/// does not contain `sep`.
pub open spec fn first_index(s: Seq<char>, sep: char) -> int
    decreases s.len(),
{
    if s.len() == 0 {
        0
    } else if s[0] == sep {
        0
    } else {
        1 + first_index(s.drop_first(), sep)
    }
}

/// The fields of `s` between occurrences of `sep`, in order. The split of
/// a sequence without `sep` is the one-element sequence holding it; every
/// occurrence of `sep` ends a field, so the result has one more field than
/// `s` has separators.
pub open spec fn split_char(s: Seq<char>, sep: char) -> Seq<Seq<char>>
    decreases s.len(),
{
    let i = first_index(s, sep);
    if i < 0 || s.len() <= i {
        seq![s]
    } else {
        seq![s.take(i)] + split_char(s.skip(i + 1), sep)
    }
}

/// `p` is a prefix of `s`.
pub open spec fn spec_has_prefix(s: Seq<char>, p: Seq<char>) -> bool {
    p.len() <= s.len() && s.subrange(0, p.len() as int) == p
}

/// The fields of a split, rejoined with the separator.
pub open spec fn join_char(fs: Seq<Seq<char>>, sep: char) -> Seq<char>
    decreases fs.len(),
{
    if fs.len() == 0 {
        Seq::empty()
    } else if fs.len() == 1 {
        fs[0]
    } else {
        fs[0] + seq![sep] + join_char(fs.drop_first(), sep)
    }
}

pub proof fn lemma_first_index_in_range(s: Seq<char>, sep: char)
    ensures
        0 <= first_index(s, sep) <= s.len(),
        first_index(s, sep) < s.len() ==> s[first_index(s, sep)] == sep,
    decreases s.len(),
{
    if s.len() != 0 && s[0] != sep {
        lemma_first_index_in_range(s.drop_first(), sep);
    }
}

/// Joining the fields of a split gives the sequence back: splitting
/// loses nothing but the separators, and keeps every one of them as a
/// field boundary.
pub proof fn lemma_split_join(s: Seq<char>, sep: char)
    ensures
        join_char(split_char(s, sep), sep) == s,
    decreases s.len(),
{
    let i = first_index(s, sep);
    lemma_first_index_in_range(s, sep);
    if 0 <= i < s.len() {
        lemma_split_join(s.skip(i + 1), sep);
        let rest = split_char(s.skip(i + 1), sep);
        let fs = seq![s.take(i)] + rest;
        assert(rest.len() >= 1);
        assert(fs.drop_first() =~= rest);
        assert(join_char(fs, sep) == fs[0] + seq![sep] + join_char(rest, sep));
        assert(s =~= s.take(i) + seq![sep] + s.skip(i + 1));
    }
}

/// `first_index` is determined by any witness position: if no character
/// before `i` is the separator, and `i` is either the end of the sequence
/// or a separator, then `i` is the first index.
pub proof fn lemma_first_index_is(s: Seq<char>, sep: char, i: int)
    requires
        0 <= i <= s.len(),
        forall|k: int| 0 <= k < i ==> s[k] != sep,
        i < s.len() ==> s[i] == sep,
    ensures
        first_index(s, sep) == i,
    decreases s.len(),
{
    if s.len() != 0 && s[0] != sep {
        assert forall|k: int| 0 <= k < i - 1 implies s.drop_first()[k] != sep by {
            assert(s[k + 1] != sep);
        }
        lemma_first_index_is(s.drop_first(), sep, i - 1);
    }
}

/// A sequence without the separator splits into itself alone.
pub proof fn lemma_split_single(s: Seq<char>, sep: char)
    requires
        forall|k: int| 0 <= k < s.len() ==> s[k] != sep,
    ensures
        split_char(s, sep) == seq![s],
{
    lemma_first_index_is(s, sep, s.len() as int);
}

/// Splitting a separator-free field, a separator, and a remainder yields
/// the field followed by the remainder's fields.
pub proof fn lemma_split_prepend(x: Seq<char>, rest: Seq<char>, sep: char)
    requires
        forall|k: int| 0 <= k < x.len() ==> x[k] != sep,
    ensures
        split_char(x + seq![sep] + rest, sep) == seq![x] + split_char(rest, sep),
{
    let s = x + seq![sep] + rest;
    assert forall|k: int| 0 <= k < x.len() implies s[k] != sep by {
        assert(s[k] == x[k]);
    }
    assert(s[x.len() as int] == sep);
    lemma_first_index_is(s, sep, x.len() as int);
    assert(s.take(x.len() as int) =~= x);
    assert(s.skip(x.len() as int + 1) =~= rest);
}

/// Compare two string slices character by character.
pub fn str_eq(a: &str, b: &str) -> (r: bool)
    ensures
        r == (a@ == b@),
{
    let alen = a.unicode_len();
    let blen = b.unicode_len();
    if alen != blen {
        return false;
    }
    let mut i: usize = 0;
    while i < alen
        invariant
            alen == a@.len(),
            alen == b@.len(),
            0 <= i <= alen,
            forall|k: int| 0 <= k < i ==> a@[k] == b@[k],
        decreases alen - i,
    {
        if a.get_char(i) != b.get_char(i) {
            return false;
        }
        i = i + 1;
    }
    proof {
        assert(a@ =~= b@);
    }
    true
}

/// Does `s` start with the prefix `p`?
pub fn has_prefix(s: &str, p: &str) -> (r: bool)
    ensures
        r == spec_has_prefix(s@, p@),
{
    let slen = s.unicode_len();
    let plen = p.unicode_len();
    if plen > slen {
        return false;
    }
    let mut i: usize = 0;
    while i < plen
        invariant
            slen == s@.len(),
            plen == p@.len(),
            plen <= slen,
            0 <= i <= plen,
            forall|k: int| 0 <= k < i ==> s@[k] == p@[k],
        decreases plen - i,
    {
        if s.get_char(i) != p.get_char(i) {
            proof {
                assert(s@.subrange(0, p@.len() as int)[i as int] != p@[i as int]);
            }
            return false;
        }
        i = i + 1;
    }
    proof {
        assert(s@.subrange(0, p@.len() as int) =~= p@);
    }
    true
}

/// Split `s` into its fields between occurrences of `sep`.
pub fn split(s: &str, sep: char) -> (r: Vec<String>)
    ensures
        r.deep_view() == split_char(s@, sep),
{
    let n = s.unicode_len();
    let mut fields: Vec<String> = Vec::new();
    let mut pos: usize = 0;
    proof {
        assert(s@.skip(0) =~= s@);
        assert(fields.deep_view() + split_char(s@, sep) =~= split_char(s@, sep));
    }
    loop
        invariant
            n == s@.len(),
            0 <= pos <= n,
            split_char(s@, sep) == fields.deep_view() + split_char(s@.skip(pos as int), sep),
        decreases n - pos,
    {
        let ghost rest = s@.skip(pos as int);
        let mut j: usize = pos;
        while j < n && s.get_char(j) != sep
            invariant
                n == s@.len(),
                pos <= j <= n,
                forall|k: int| pos <= k < j ==> s@[k] != sep,
            decreases n - j,
        {
            j = j + 1;
        }
        proof {
            assert forall|k: int| 0 <= k < j - pos implies rest[k] != sep by {
                assert(s@[pos + k] != sep);
            }
            lemma_first_index_is(rest, sep, j - pos);
        }
        let f = String::from_str(s.substring_char(pos, j));
        let ghost pre = fields.deep_view();
        fields.push(f);
        proof {
            assert(fields.deep_view() =~= pre.push(f@));
            assert(rest.take(j - pos) =~= s@.subrange(pos as int, j as int));
        }
        if j == n {
            proof {
                assert(rest.take(j - pos) =~= rest);
                assert(split_char(rest, sep) =~= seq![rest]);
                assert(fields.deep_view() =~= split_char(s@, sep));
            }
            return fields;
        }
        proof {
            assert(rest.skip(j - pos + 1) =~= s@.skip(j as int + 1));
            assert(split_char(rest, sep) =~= seq![rest.take(j - pos)] + split_char(
                s@.skip(j as int + 1),
                sep,
            ));
            assert(split_char(s@, sep) =~= fields.deep_view() + split_char(
                s@.skip(j as int + 1),
                sep,
            ));
        }
        pos = j + 1;
    }
}

} // verus!
