use vstd::prelude::*;

verus! {

/// Failure to turn stored bytes back into a typed value.
#[derive(Debug, Clone, Copy, PartialEq, Eq, Structural)]
pub enum CodecError {
    /// The encoding would not fit in memory.
    TooLarge,
    /// The byte length does not fit the layout of the table.
    BadLength,
    /// The bytes have the right length but describe no valid value.
    Malformed,
}

/// Key encoding of a table `S` (a `Schema`). Every implementation proves that decoding
/// its encoding gives back the key.
pub trait KeyCodec<S: ?Sized>: Sized + View {
    /// The bytes that stand for `self` in storage.
    spec fn key_bytes(&self) -> Seq<u8>;

    /// The key that `data` stands for, if any.
    spec fn key_of_bytes(data: Seq<u8>) -> Option<Self::V>;

    /// Decoding the encoding of a key gives the key back.
    proof fn lemma_key_round_trip(&self)
        ensures
            Self::key_of_bytes(self.key_bytes()) == Some(self@),
    ;

    /// Converts `self` to bytes to be stored.
    fn encode_key(&self) -> (r: Result<Vec<u8>, CodecError>)
        ensures
            match r {
                Ok(b) => b@ == self.key_bytes(),
                Err(e) => e == CodecError::TooLarge && self.key_bytes().len() > usize::MAX,
            },
    ;

    /// Converts bytes fetched from storage to a key.
    fn decode_key(data: &[u8]) -> (r: Result<Self, CodecError>)
        ensures
            match Self::key_of_bytes(data@) {
                Some(k) => r is Ok && r->Ok_0@ == k,
                None => r is Err,
            },
    ;
}

/// Value encoding of a table `S`, with the same round-trip obligation.
pub trait ValueCodec<S: ?Sized>: Sized + View {
    /// The bytes that stand for `self` in storage.
    spec fn value_bytes(&self) -> Seq<u8>;

    /// The value that `data` stands for, if any.
    spec fn value_of_bytes(data: Seq<u8>) -> Option<Self::V>;

    /// Decoding the encoding of a value gives the value back.
    proof fn lemma_value_round_trip(&self)
        ensures
            Self::value_of_bytes(self.value_bytes()) == Some(self@),
    ;

    /// Converts `self` to bytes to be stored.
    fn encode_value(&self) -> (r: Result<Vec<u8>, CodecError>)
        ensures
            match r {
                Ok(b) => b@ == self.value_bytes(),
                Err(e) => e == CodecError::TooLarge && self.value_bytes().len() > usize::MAX,
            },
    ;

    /// Converts bytes fetched from storage to a value.
    fn decode_value(data: &[u8]) -> (r: Result<Self, CodecError>)
        ensures
            match Self::value_of_bytes(data@) {
                Some(v) => r is Ok && r->Ok_0@ == v,
                None => r is Err,
            },
    ;
}

/// A logical table: its storage partition name and its key and value types.
pub trait Schema {
    /// The name of the storage partition that holds the table.
    const COLUMN_FAMILY: &'static str;

    type Key: KeyCodec<Self>;

    type Value: ValueCodec<Self>;
}

} // verus!
