//! The encoding registry: a fixed, enumerable table of named encodings, each
//! able to strictly decode bytes, strictly encode text, and report a canonical
//! byte-order-mark sequence.
//!
//! The table itself and the per-codec transcoding live in the `encoding` crate;
//! this module states what those calls return. Strict decoding and encoding are
//! functions of the encoding's canonical name and the input alone, so their
//! results are named by uninterpreted spec functions, and everything that reads
//! them is verified against those names.

use vstd::prelude::*;
use vstd::string::StringExecFns;

use crate::errors::ErrorString;

verus! {

/// The canonical name of the encoding at `index` in the registry table, or
/// `None` past the end of the table. The table is fixed, and every entry has a
/// distinct canonical name.
pub uninterp spec fn registry_name(index: int) -> Option<Seq<char>>;

/// The canonical name of the encoding that WHATWG label resolution assigns to
/// `label`, or `None` for an unknown label.
pub uninterp spec fn canonical_name(label: Seq<char>) -> Option<Seq<char>>;

/// The text that the encoding named `name` strictly decodes `data` to, or
/// `None` if any part of `data` is invalid under that encoding.
pub uninterp spec fn strict_decode(name: Seq<char>, data: Seq<u8>) -> Option<Seq<char>>;

/// The bytes that the encoding named `name` strictly encodes `text` to, or
/// `None` if some character is unrepresentable in that encoding.
pub uninterp spec fn strict_encode(name: Seq<char>, text: Seq<char>) -> Option<Seq<u8>>;

/// Whether some registry entry has the canonical name `name`.
pub open spec fn in_registry(name: Seq<char>) -> bool {
    exists|i: int| registry_name(i) == Some(name)
}

/// Relies on `encoding::all::encodings`: the registry is a fixed table, so its
/// length bounds exactly the positions that hold an encoding.
#[verifier::external_body]
pub(crate) fn registry_len() -> (n: usize)
    ensures
        forall|i: int| 0 <= i < n ==> registry_name(i) is Some,
        forall|i: int| !(0 <= i < n) ==> registry_name(i) is None,
{
    encoding::all::encodings().len()
}

/// Relies on `encoding::all::encodings` and `encoding::types::Encoding::name`:
/// the table is fixed, so the canonical name at a position is a function of the
/// position alone.
#[verifier::external_body]
pub(crate) fn registry_name_at(index: usize) -> (r: Option<String>)
    ensures
        r is Some <==> registry_name(index as int) is Some,
        r is Some ==> registry_name(index as int) == Some(r->0@),
{
    encoding::all::encodings().get(index).map(|e| String::from(e.name()))
}

/// Relies on `encoding::label::encoding_from_whatwg_label` and
/// `encoding::types::Encoding::name`: label resolution is a fixed table lookup,
/// a function of the label alone.
#[verifier::external_body]
pub(crate) fn resolve_label(label: &str) -> (r: Option<String>)
    ensures
        r is Some <==> canonical_name(label@) is Some,
        r is Some ==> canonical_name(label@) == Some(r->0@),
{
    encoding::label::encoding_from_whatwg_label(label).map(|e| String::from(e.name()))
}

/// Relies on `encoding::all::encodings` and `encoding::types::Encoding::decode`
/// with `DecoderTrap::Strict`: strict decoding rejects any invalid input and is
/// a function of the encoding and the input bytes alone.
#[verifier::external_body]
pub(crate) fn decode_at(index: usize, data: &Vec<u8>) -> (r: Option<String>)
    ensures
        registry_name(index as int) is None ==> r is None,
        registry_name(index as int) is Some ==> (r is Some <==> strict_decode(
            registry_name(index as int)->0,
            data@,
        ) is Some),
        r is Some && registry_name(index as int) is Some ==> r->0@ == strict_decode(
            registry_name(index as int)->0,
            data@,
        )->0,
{
    match encoding::all::encodings().get(index) {
        Some(e) => e.decode(&data[..], encoding::types::DecoderTrap::Strict).ok(),
        None => None,
    }
}

/// Relies on `encoding::all::encodings` and `encoding::types::Encoding::encode`
/// with `EncoderTrap::Strict`: strict encoding rejects any unrepresentable
/// character and is a function of the encoding and the input text alone.
#[verifier::external_body]
pub(crate) fn encode_at(index: usize, text: &str) -> (r: Option<Vec<u8>>)
    ensures
        registry_name(index as int) is None ==> r is None,
        registry_name(index as int) is Some ==> (r is Some <==> strict_encode(
            registry_name(index as int)->0,
            text@,
        ) is Some),
        r is Some && registry_name(index as int) is Some ==> r->0@ == strict_encode(
            registry_name(index as int)->0,
            text@,
        )->0,
{
    match encoding::all::encodings().get(index) {
        Some(e) => e.encode(text, encoding::types::EncoderTrap::Strict).ok(),
        None => None,
    }
}

/// One encoding of the registry: its position in the table and its canonical
/// name, which always agree.
#[derive(Debug)]
pub struct EncodingDescriptor {
    index: usize,
    name: String,
}

impl EncodingDescriptor {
    /// The descriptor's canonical name, for contracts.
    pub closed spec fn name_view(&self) -> Seq<char> {
        self.name@
    }

    #[verifier::type_invariant]
    spec fn type_inv(&self) -> bool {
        registry_name(self.index as int) == Some(self.name@)
    }

    /// The canonical name of this encoding.
    pub fn name(&self) -> (r: &String)
        ensures
            r@ == self.name_view(),
    {
        &self.name
    }

    /// Strictly decodes `data` under this encoding; `None` exactly when some
    /// part of `data` is invalid under it.
    pub fn decode(&self, data: &Vec<u8>) -> (r: Option<String>)
        ensures
            r is Some <==> strict_decode(self.name_view(), data@) is Some,
            r is Some ==> r->0@ == strict_decode(self.name_view(), data@)->0,
    {
        proof {
            use_type_invariant(self);
        }
        decode_at(self.index, data)
    }

    /// Strictly encodes `text` under this encoding; `None` exactly when some
    /// character of `text` is unrepresentable in it.
    pub fn encode(&self, text: &str) -> (r: Option<Vec<u8>>)
        ensures
            r is Some <==> strict_encode(self.name_view(), text@) is Some,
            r is Some ==> r->0@ == strict_encode(self.name_view(), text@)->0,
    {
        proof {
            use_type_invariant(self);
        }
        encode_at(self.index, text)
    }

    /// Resolves a WHATWG label against the registry. Fails exactly on labels
    /// that no encoding of the registry answers to, with the same message the
    /// scan configuration reports for an unknown encoding.
    pub fn lookup(label: &str) -> (r: Result<EncodingDescriptor, Box<ErrorString>>)
        ensures
            r is Ok <==> (canonical_name(label@) is Some && in_registry(
                canonical_name(label@)->0,
            )),
            r is Ok ==> r->Ok_0.name_view() == canonical_name(label@)->0,
            r is Err ==> r->Err_0.msg_view() == "Failed to parse encoding param "@ + label@,
    {
        let canon = resolve_label(label);
        match canon {
            Some(name) => {
                match find_registry_index(&name) {
                    Some(index) => Ok(EncodingDescriptor { index, name }),
                    None => Err(ErrorString::new(
                        String::from_str("Failed to parse encoding param ").concat(label),
                    )),
                }
            },
            None => Err(ErrorString::new(
                String::from_str("Failed to parse encoding param ").concat(label),
            )),
        }
    }
}

/// Finds the position of the registry entry with the given canonical name.
pub(crate) fn find_registry_index(name: &String) -> (r: Option<usize>)
    ensures
        r is Some ==> registry_name(r->0 as int) == Some(name@),
        r is None ==> !in_registry(name@),
{
    let n = registry_len();
    let mut i: usize = 0;
    while i < n
        invariant
            i <= n,
            forall|k: int| 0 <= k < i ==> registry_name(k) != Some(name@),
            forall|k: int| 0 <= k < n ==> registry_name(k) is Some,
            forall|k: int| !(0 <= k < n) ==> registry_name(k) is None,
        decreases n - i,
    {
        let row = registry_name_at(i);
        match row {
            Some(row_name) => {
                if row_name == *name {
                    return Some(i);
                }
            },
            None => {
                proof {
                    assert(false);
                }
            },
        }
        i = i + 1;
    }
    None
}

/// The canonical names of all registry encodings, in registry order.
pub fn registry_names() -> (r: Vec<String>)
    ensures
        forall|k: int| 0 <= k < r@.len() ==> registry_name(k) == Some(r@[k]@),
        registry_name(r@.len() as int) is None,
{
    let n = registry_len();
    let mut names: Vec<String> = Vec::new();
    let mut i: usize = 0;
    while i < n
        invariant
            i <= n,
            names@.len() == i,
            forall|k: int| 0 <= k < i ==> registry_name(k) == Some(names@[k]@),
            forall|k: int| 0 <= k < n ==> registry_name(k) is Some,
            forall|k: int| !(0 <= k < n) ==> registry_name(k) is None,
        decreases n - i,
    {
        let row = registry_name_at(i);
        match row {
            Some(row_name) => {
                names.push(row_name);
            },
            None => {
                proof {
                    assert(false);
                }
                return names;
            },
        }
        i = i + 1;
    }
    names
}

} // verus!
