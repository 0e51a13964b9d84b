use vstd::arithmetic::div_mod::{lemma_fundamental_div_mod, lemma_fundamental_div_mod_converse};
use vstd::bytes::{
    lemma_auto_spec_u64_to_from_le_bytes, spec_u64_from_le_bytes, spec_u64_to_le_bytes,
    u64_from_le_bytes, u64_to_le_bytes,
};
use vstd::prelude::*;
use vstd::slice::slice_subrange;

verus! {

/// Fixed-width layout shared by every table: a value is first flattened into
/// 64-bit words, and each word is stored as eight little-endian bytes.
pub open spec fn words_to_bytes(w: Seq<u64>) -> Seq<u8> {
    Seq::new((8 * w.len()) as nat, |j: int| spec_u64_to_le_bytes(w[j / 8])[j % 8])
}

/// The words that `b` holds, when its length is a whole number of words.
pub open spec fn bytes_to_words(b: Seq<u8>) -> Option<Seq<u64>> {
    if b.len() % 8 == 0 {
        Some(
            Seq::new(
                b.len() / 8,
                |i: int| spec_u64_from_le_bytes(b.subrange(8 * i, 8 * i + 8)),
            ),
        )
    } else {
        None
    }
}

proof fn lemma_split_index(i: int, k: int)
    requires
        0 <= k < 8,
    ensures
        (8 * i + k) / 8 == i,
        (8 * i + k) % 8 == k,
{
    lemma_fundamental_div_mod_converse(8 * i + k, 8, i, k);
}

/// Reading back the bytes of a word sequence gives the same words.
pub proof fn lemma_words_round_trip(w: Seq<u64>)
    ensures
        bytes_to_words(words_to_bytes(w)) == Some(w),
{
    let b = words_to_bytes(w);
    lemma_split_index(w.len() as int, 0);
    assert(b.len() % 8 == 0 && b.len() / 8 == w.len());
    lemma_auto_spec_u64_to_from_le_bytes();
    let d = Seq::new(b.len() / 8, |i: int| spec_u64_from_le_bytes(b.subrange(8 * i, 8 * i + 8)));
    assert forall|i: int| 0 <= i < w.len() implies d[i] == w[i] by {
        let s = b.subrange(8 * i, 8 * i + 8);
        assert forall|k: int| 0 <= k < 8 implies s[k] == spec_u64_to_le_bytes(w[i])[k] by {
            lemma_split_index(i, k);
        }
        assert(s =~= spec_u64_to_le_bytes(w[i]));
    }
    assert(d =~= w);
}

/// Stores each word of `w` as eight little-endian bytes.
pub fn encode_words(w: &Vec<u64>) -> (r: Vec<u8>)
    requires
        8 * w@.len() <= usize::MAX,
    ensures
        r@ == words_to_bytes(w@),
{
    let mut out: Vec<u8> = Vec::new();
    let n = w.len();
    for i in 0..n
        invariant
            n == w@.len(),
            8 * n <= usize::MAX,
            out@.len() == 8 * i,
            forall|j: int| 0 <= j < 8 * i ==> out@[j] == spec_u64_to_le_bytes(w@[j / 8])[j % 8],
    {
        let bytes = u64_to_le_bytes(w[i]);
        proof {
            lemma_auto_spec_u64_to_from_le_bytes();
        }
        for k in 0..8usize
            invariant
                n == w@.len(),
                i < n,
                8 * n <= usize::MAX,
                bytes@ == spec_u64_to_le_bytes(w@[i as int]),
                bytes@.len() == 8,
                out@.len() == 8 * i + k,
                forall|j: int|
                    0 <= j < 8 * i + k ==> out@[j] == spec_u64_to_le_bytes(w@[j / 8])[j % 8],
        {
            proof {
                lemma_split_index(i as int, k as int);
            }
            out.push(bytes[k]);
        }
    }
    assert(out@ =~= words_to_bytes(w@));
    out
}

/// The words stored in `b`, or `None` when its length is not a whole number
/// of words.
pub fn decode_words(b: &[u8]) -> (r: Option<Vec<u64>>)
    ensures
        match bytes_to_words(b@) {
            Some(w) => r is Some && r->Some_0@ == w,
            None => r is None,
        },
{
    if b.len() % 8 != 0 {
        return None;
    }
    let len = b.len();
    let n = len / 8;
    let mut out: Vec<u64> = Vec::new();
    for i in 0..n
        invariant
            len == b@.len(),
            n == b@.len() / 8,
            b@.len() % 8 == 0,
            out@.len() == i,
            forall|j: int|
                0 <= j < i ==> out@[j] == spec_u64_from_le_bytes(b@.subrange(8 * j, 8 * j + 8)),
    {
        proof {
            lemma_fundamental_div_mod(len as int, 8);
            assert(8 * i + 8 <= 8 * n) by (nonlinear_arith)
                requires
                    i < n,
            ;
        }
        let word = u64_from_le_bytes(slice_subrange(b, 8 * i, 8 * i + 8));
        out.push(word);
    }
    assert(out@ =~= bytes_to_words(b@)->Some_0);
    Some(out)
}

} // verus!
