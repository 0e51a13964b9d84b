use crate::codec::{
    bytes_to_words, decode_words, encode_words, lemma_words_round_trip, words_to_bytes,
};
use crate::schema::{CodecError, KeyCodec, Schema, ValueCodec};
use crate::types::{GhostdagData, GhostdagModel, HashValue, Header, HeaderRecord, ReachabilityEntry};
use vstd::prelude::*;

verus! {

/// Table of parent lists: block hash to its ordered parent hashes.
pub struct RelationsSchema;

/// Table of headers: block hash to its header and auxiliary counter.
pub struct HeadersSchema;

/// Table of consensus data: block hash to its ghostdag data.
pub struct GhostdagSchema;

/// Table of the reachability index: block hash to the entry it was indexed with.
pub struct ReachabilitySchema;

impl Schema for RelationsSchema {
    const COLUMN_FAMILY: &'static str = "block-relations";

    type Key = HashValue;

    type Value = Vec<HashValue>;
}

impl Schema for HeadersSchema {
    const COLUMN_FAMILY: &'static str = "block-headers";

    type Key = HashValue;

    type Value = HeaderRecord;
}

impl Schema for GhostdagSchema {
    const COLUMN_FAMILY: &'static str = "block-ghostdag-data";

    type Key = HashValue;

    type Value = GhostdagData;
}

impl Schema for ReachabilitySchema {
    const COLUMN_FAMILY: &'static str = "reachability-data";

    type Key = HashValue;

    type Value = ReachabilityEntry;
}

/// Words of a header record: counter, hash, then the parents.
pub open spec fn header_record_words(r: (HashValue, Seq<HashValue>, u64)) -> Seq<u64> {
    seq![r.2, r.0] + r.1
}

pub open spec fn header_record_of_words(w: Seq<u64>) -> Option<(HashValue, Seq<HashValue>, u64)> {
    if w.len() >= 2 {
        Some((w[1], w.subrange(2, w.len() as int), w[0]))
    } else {
        None
    }
}

/// Words of ghostdag data: selected parent, blue score, number of blues,
/// then the blues and the reds.
pub open spec fn ghostdag_words(g: GhostdagModel) -> Seq<u64> {
    seq![g.selected_parent, g.blue_score, g.blues.len() as u64] + g.blues + g.reds
}

pub open spec fn ghostdag_of_words(w: Seq<u64>) -> Option<GhostdagModel> {
    if w.len() >= 3 && w[2] <= w.len() - 3 {
        Some(
            GhostdagModel {
                selected_parent: w[0],
                blue_score: w[1],
                blues: w.subrange(3, 3 + w[2]),
                reds: w.subrange(3 + w[2], w.len() as int),
            },
        )
    } else {
        None
    }
}

/// Words of a reachability entry: selected parent, then the merge set.
pub open spec fn reachability_words(e: (HashValue, Seq<HashValue>)) -> Seq<u64> {
    seq![e.0] + e.1
}

pub open spec fn reachability_of_words(w: Seq<u64>) -> Option<(HashValue, Seq<HashValue>)> {
    if w.len() >= 1 {
        Some((w[0], w.subrange(1, w.len() as int)))
    } else {
        None
    }
}

pub open spec fn hash_of_words(w: Seq<u64>) -> Option<HashValue> {
    if w.len() == 1 {
        Some(w[0])
    } else {
        None
    }
}

/// Appends the words of `s` to `out`.
fn push_all(out: &mut Vec<u64>, s: &Vec<u64>)
    ensures
        final(out)@ == old(out)@ + s@,
{
    let ghost start = out@;
    for i in 0..s.len()
        invariant
            out@ == start + s@.subrange(0, i as int),
    {
        out.push(s[i]);
        assert(out@ =~= start + s@.subrange(0, i + 1));
    }
    assert(s@.subrange(0, s@.len() as int) =~= s@);
}

/// The words of `w` from `lo` up to `hi`.
fn copy_range(w: &Vec<u64>, lo: usize, hi: usize) -> (r: Vec<u64>)
    requires
        lo <= hi <= w@.len(),
    ensures
        r@ == w@.subrange(lo as int, hi as int),
{
    let mut r: Vec<u64> = Vec::new();
    for i in lo..hi
        invariant
            hi <= w@.len(),
            r@ == w@.subrange(lo as int, i as int),
    {
        r.push(w[i]);
        assert(r@ =~= w@.subrange(lo as int, i + 1));
    }
    r
}

/// Stores the words, unless their bytes would not fit in memory.
fn encode_checked(w: &Vec<u64>) -> (r: Result<Vec<u8>, CodecError>)
    ensures
        match r {
            Ok(b) => b@ == words_to_bytes(w@),
            Err(e) => e == CodecError::TooLarge && words_to_bytes(w@).len() > usize::MAX,
        },
{
    if w.len() > usize::MAX / 8 {
        Err(CodecError::TooLarge)
    } else {
        Ok(encode_words(w))
    }
}

impl<S> KeyCodec<S> for HashValue {
    open spec fn key_bytes(&self) -> Seq<u8> {
        words_to_bytes(seq![*self])
    }

    open spec fn key_of_bytes(data: Seq<u8>) -> Option<HashValue> {
        match bytes_to_words(data) {
            Some(w) => hash_of_words(w),
            None => None,
        }
    }

    proof fn lemma_key_round_trip(&self) {
        lemma_words_round_trip(seq![*self]);
    }

    fn encode_key(&self) -> (r: Result<Vec<u8>, CodecError>) {
        let w: Vec<u64> = vec![*self];
        assert(w@ =~= seq![*self]);
        encode_checked(&w)
    }

    fn decode_key(data: &[u8]) -> (r: Result<HashValue, CodecError>) {
        match decode_words(data) {
            None => Err(CodecError::BadLength),
            Some(w) => {
                if w.len() == 1 {
                    Ok(w[0])
                } else {
                    Err(CodecError::BadLength)
                }
            },
        }
    }
}

impl ValueCodec<RelationsSchema> for Vec<HashValue> {
    open spec fn value_bytes(&self) -> Seq<u8> {
        words_to_bytes(self@)
    }

    open spec fn value_of_bytes(data: Seq<u8>) -> Option<Seq<HashValue>> {
        bytes_to_words(data)
    }

    proof fn lemma_value_round_trip(&self) {
        lemma_words_round_trip(self@);
    }

    fn encode_value(&self) -> (r: Result<Vec<u8>, CodecError>) {
        encode_checked(self)
    }

    fn decode_value(data: &[u8]) -> (r: Result<Vec<HashValue>, CodecError>) {
        match decode_words(data) {
            None => Err(CodecError::BadLength),
            Some(w) => Ok(w),
        }
    }
}

impl ValueCodec<HeadersSchema> for HeaderRecord {
    open spec fn value_bytes(&self) -> Seq<u8> {
        words_to_bytes(header_record_words(self@))
    }

    open spec fn value_of_bytes(data: Seq<u8>) -> Option<(HashValue, Seq<HashValue>, u64)> {
        match bytes_to_words(data) {
            Some(w) => header_record_of_words(w),
            None => None,
        }
    }

    proof fn lemma_value_round_trip(&self) {
        let w = header_record_words(self@);
        lemma_words_round_trip(w);
        assert(w.subrange(2, w.len() as int) =~= self.header.parents@);
    }

    fn encode_value(&self) -> (r: Result<Vec<u8>, CodecError>) {
        let mut w: Vec<u64> = vec![self.counter, self.header.hash];
        push_all(&mut w, &self.header.parents);
        assert(w@ =~= header_record_words(self@));
        encode_checked(&w)
    }

    fn decode_value(data: &[u8]) -> (r: Result<HeaderRecord, CodecError>) {
        match decode_words(data) {
            None => Err(CodecError::BadLength),
            Some(w) => {
                if w.len() < 2 {
                    Err(CodecError::BadLength)
                } else {
                    let parents = copy_range(&w, 2, w.len());
                    Ok(HeaderRecord { header: Header::new(w[1], parents), counter: w[0] })
                }
            },
        }
    }
}

impl ValueCodec<GhostdagSchema> for GhostdagData {
    open spec fn value_bytes(&self) -> Seq<u8> {
        words_to_bytes(ghostdag_words(self@))
    }

    open spec fn value_of_bytes(data: Seq<u8>) -> Option<GhostdagModel> {
        match bytes_to_words(data) {
            Some(w) => ghostdag_of_words(w),
            None => None,
        }
    }

    proof fn lemma_value_round_trip(&self) {
        let w = ghostdag_words(self@);
        lemma_words_round_trip(w);
        broadcast use vstd::std_specs::vec::axiom_spec_len;

        assert(self.mergeset_blues.len() == self.mergeset_blues@.len());
        let n = self.mergeset_blues@.len() as int;
        assert(w.subrange(3, 3 + n) =~= self.mergeset_blues@);
        assert(w.subrange(3 + n, w.len() as int) =~= self.mergeset_reds@);
    }

    fn encode_value(&self) -> (r: Result<Vec<u8>, CodecError>) {
        let nb = self.mergeset_blues.len() as u64;
        let mut w: Vec<u64> = vec![self.selected_parent, self.blue_score, nb];
        push_all(&mut w, &self.mergeset_blues);
        push_all(&mut w, &self.mergeset_reds);
        assert(w@ =~= ghostdag_words(self@));
        encode_checked(&w)
    }

    fn decode_value(data: &[u8]) -> (r: Result<GhostdagData, CodecError>) {
        match decode_words(data) {
            None => Err(CodecError::BadLength),
            Some(w) => {
                if w.len() < 3 {
                    Err(CodecError::BadLength)
                } else if w[2] > (w.len() - 3) as u64 {
                    Err(CodecError::Malformed)
                } else {
                    let split = 3 + w[2] as usize;
                    let blues = copy_range(&w, 3, split);
                    let reds = copy_range(&w, split, w.len());
                    Ok(GhostdagData::new(w[0], w[1], blues, reds))
                }
            },
        }
    }
}

impl ValueCodec<ReachabilitySchema> for ReachabilityEntry {
    open spec fn value_bytes(&self) -> Seq<u8> {
        words_to_bytes(reachability_words(self@))
    }

    open spec fn value_of_bytes(data: Seq<u8>) -> Option<(HashValue, Seq<HashValue>)> {
        match bytes_to_words(data) {
            Some(w) => reachability_of_words(w),
            None => None,
        }
    }

    proof fn lemma_value_round_trip(&self) {
        let w = reachability_words(self@);
        lemma_words_round_trip(w);
        assert(w.subrange(1, w.len() as int) =~= self.mergeset@);
    }

    fn encode_value(&self) -> (r: Result<Vec<u8>, CodecError>) {
        let mut w: Vec<u64> = vec![self.selected_parent];
        push_all(&mut w, &self.mergeset);
        assert(w@ =~= reachability_words(self@));
        encode_checked(&w)
    }

    fn decode_value(data: &[u8]) -> (r: Result<ReachabilityEntry, CodecError>) {
        match decode_words(data) {
            None => Err(CodecError::BadLength),
            Some(w) => {
                if w.len() < 1 {
                    Err(CodecError::BadLength)
                } else {
                    let mergeset = copy_range(&w, 1, w.len());
                    Ok(ReachabilityEntry { selected_parent: w[0], mergeset })
                }
            },
        }
    }
}

} // verus!
