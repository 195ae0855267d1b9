//! Counting and finding bytes: the mathematical definitions, their laws, and the calls
//! into `bytecount` and `memchr` that compute them.
use vstd::prelude::*;

verus! {

pub open spec fn newline() -> u8 {
    10u8
}

/// The number of times `b` occurs in `s`.
pub open spec fn count_byte(s: Seq<u8>, b: u8) -> nat
    decreases s.len(),
{
    if s.len() == 0 {
        0
    } else {
        count_byte(s.drop_last(), b) + if s.last() == b { 1nat } else { 0nat }
    }
}

/// The number of line terminators in `s`.
pub open spec fn count_nl(s: Seq<u8>) -> nat {
    count_byte(s, newline())
}

/// The index of the first `b` in `s`, if there is one.
pub open spec fn is_first_index(s: Seq<u8>, b: u8, i: int) -> bool {
    &&& 0 <= i < s.len()
    &&& s[i] == b
    &&& forall|j: int| 0 <= j < i ==> s[j] != b
}

pub proof fn lemma_count_concat(a: Seq<u8>, c: Seq<u8>, b: u8)
    ensures
        count_byte(a + c, b) == count_byte(a, b) + count_byte(c, b),
    decreases c.len(),
{
    if c.len() == 0 {
        assert(a + c =~= a);
    } else {
        assert((a + c).drop_last() =~= a + c.drop_last());
        lemma_count_concat(a, c.drop_last(), b);
    }
}

pub proof fn lemma_count_le_len(s: Seq<u8>, b: u8)
    ensures
        count_byte(s, b) <= s.len(),
    decreases s.len(),
{
    if s.len() > 0 {
        lemma_count_le_len(s.drop_last(), b);
    }
}

pub proof fn lemma_count_single(x: u8, b: u8)
    ensures
        count_byte(seq![x], b) == if x == b { 1nat } else { 0nat },
{
    assert(seq![x].drop_last() =~= Seq::<u8>::empty());
    assert(seq![x].last() == x);
    assert(count_byte(seq![x].drop_last(), b) == 0);
}

pub proof fn lemma_count_zero_absent(s: Seq<u8>, b: u8)
    ensures
        count_byte(s, b) == 0 <==> forall|j: int| 0 <= j < s.len() ==> s[j] != b,
    decreases s.len(),
{
    if s.len() > 0 {
        lemma_count_zero_absent(s.drop_last(), b);
        if count_byte(s, b) == 0 {
            assert forall|j: int| 0 <= j < s.len() implies s[j] != b by {
                if j < s.len() - 1 {
                    assert(s[j] == s.drop_last()[j]);
                }
            }
        }
    }
}

/// Calls `bytecount::count`, which counts the occurrences of `needle` in `haystack`.
#[verifier::external_body]
pub fn count_occurrences(haystack: &[u8], needle: u8) -> (r: usize)
    ensures
        r == count_byte(haystack@, needle),
{
    bytecount::count(haystack, needle)
}

/// Calls `memchr::memchr`, which gives the index of the first occurrence of `needle`
/// in `haystack`, or `None` where there is none.
#[verifier::external_body]
pub fn find_first(needle: u8, haystack: &[u8]) -> (r: Option<usize>)
    ensures
        match r {
            Some(i) => is_first_index(haystack@, needle, i as int),
            None => forall|j: int| 0 <= j < haystack@.len() ==> haystack@[j] != needle,
        },
{
    memchr::memchr(needle, haystack)
}

} // verus!
