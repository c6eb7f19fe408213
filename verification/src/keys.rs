//! Texts as keys: a text is stored under its UTF-8 bytes, so that keys are
//! ordered as their bytes are.

use vstd::prelude::*;
use vstd::slice::slice_to_vec;
use vstd::utf8::*;

use crate::codec::text_from_utf8;
use crate::error::TableError;
use crate::record::ByteRep;

verus! {

impl ByteRep for String {
    type Model = Seq<char>;

    open spec fn model(&self) -> Seq<char> {
        self@
    }

    open spec fn encoding(value: Seq<char>) -> Option<Seq<u8>> {
        Some(encode_utf8(value))
    }

    open spec fn decoding(bytes: Seq<u8>) -> Option<Seq<char>> {
        if valid_utf8(bytes) {
            Some(decode_utf8(bytes))
        } else {
            None
        }
    }

    fn to_bytes(&self) -> (r: Result<Vec<u8>, TableError>) {
        Ok(slice_to_vec(self.as_str().as_bytes()))
    }

    fn from_bytes(bytes: &[u8]) -> (r: Result<Self, TableError>) {
        match text_from_utf8(slice_to_vec(bytes)) {
            Some(text) => Ok(text),
            None => Err(TableError::DecodingFailure),
        }
    }

    proof fn lemma_round_trip(value: Seq<char>) {
        encode_utf8_valid_utf8(value);
        encode_utf8_decode_utf8(value);
    }
}

} // verus!
