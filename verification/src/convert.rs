//! Byte-for-byte conversion of a buffer from one encoding to another: a strict
//! decode under the source encoding followed by a strict encode under the
//! target encoding. Reading and writing files is the caller's business.

use vstd::prelude::*;

use crate::codec::{strict_decode, strict_encode, EncodingDescriptor};

verus! {

/// What converting a buffer came to.
pub enum ConvertOutcome {
    /// The buffer was empty; there is nothing to convert or write.
    EmptyInput,
    /// The buffer is invalid under the source encoding.
    DecodeFailed,
    /// Some decoded character is unrepresentable in the target encoding.
    EncodeFailed,
    /// The converted bytes.
    Converted(Vec<u8>),
}

/// Converts buffers between encodings.
pub struct Converter;

impl Converter {
    pub fn new() -> (r: Converter)
        ensures
            r == (Converter {  }),
    {
        Converter {  }
    }

    /// Converts `data` from `decoder`'s encoding to `encoder`'s: the strict
    /// decode of `data`, strictly encoded. Empty input is left alone, and
    /// either strict failure is reported rather than repaired.
    pub fn convert_content(
        &self,
        data: &Vec<u8>,
        decoder: &EncodingDescriptor,
        encoder: &EncodingDescriptor,
    ) -> (r: ConvertOutcome)
        ensures
            r is EmptyInput <==> data@.len() == 0,
            r is DecodeFailed <==> data@.len() > 0 && strict_decode(decoder.name_view(), data@)
                is None,
            r is EncodeFailed <==> data@.len() > 0 && strict_decode(decoder.name_view(), data@)
                is Some && strict_encode(
                encoder.name_view(),
                strict_decode(decoder.name_view(), data@)->0,
            ) is None,
            r is Converted <==> data@.len() > 0 && strict_decode(decoder.name_view(), data@)
                is Some && strict_encode(
                encoder.name_view(),
                strict_decode(decoder.name_view(), data@)->0,
            ) is Some,
            r is Converted ==> r->0@ == strict_encode(
                encoder.name_view(),
                strict_decode(decoder.name_view(), data@)->0,
            )->0,
    {
        if data.len() == 0 {
            return ConvertOutcome::EmptyInput;
        }
        match decoder.decode(data) {
            None => ConvertOutcome::DecodeFailed,
            Some(text) => {
                match encoder.encode(text.as_str()) {
                    None => ConvertOutcome::EncodeFailed,
                    Some(bytes) => ConvertOutcome::Converted(bytes),
                }
            },
        }
    }
}

} // verus!
