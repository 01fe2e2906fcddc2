//! Turning stored values into storage-safe text and back: the value is
//! serialised with postcard, compressed into a zlib stream, and written as
//! hexadecimal digits.
use vstd::prelude::*;
use crate::hex::{all_digits, from_hex, hex_of, lemma_unhex_hex, to_hex, unhex};

verus! {

/// The bytes that postcard writes for a signed 32-bit integer.
pub uninterp spec fn postcard_i32(v: i32) -> Seq<u8>;

/// The bytes that postcard writes for a signed 64-bit integer.
pub uninterp spec fn postcard_i64(v: i64) -> Seq<u8>;

/// The bytes that postcard writes for a string.
pub uninterp spec fn postcard_str(s: Seq<char>) -> Seq<u8>;

/// The zlib stream that yazi writes for a byte string at its best compression.
pub uninterp spec fn zlib_of(b: Seq<u8>) -> Seq<u8>;

/// Relies on `postcard::to_allocvec`: the serialised form of an `i32`. Its
/// `Vec` output never reports an error.
#[verifier::external_body]
fn i32_to_postcard(v: &i32) -> (r: Option<Vec<u8>>)
    ensures
        r is Some,
        r matches Some(b) ==> b@ == postcard_i32(*v),
{
    postcard::to_allocvec(v).ok()
}

/// Relies on `postcard::from_bytes`: bytes that postcard wrote for an `i32`
/// are read back as that integer.
#[verifier::external_body]
fn i32_from_postcard(b: &[u8]) -> (r: Option<i32>)
    ensures
        forall|v: i32| b@ == #[trigger] postcard_i32(v) ==> r == Some(v),
{
    postcard::from_bytes::<i32>(b).ok()
}

/// Relies on `postcard::to_allocvec`: the serialised form of an `i64`. Its
/// `Vec` output never reports an error.
#[verifier::external_body]
fn i64_to_postcard(v: &i64) -> (r: Option<Vec<u8>>)
    ensures
        r is Some,
        r matches Some(b) ==> b@ == postcard_i64(*v),
{
    postcard::to_allocvec(v).ok()
}

/// Relies on `postcard::from_bytes`: bytes that postcard wrote for an `i64`
/// are read back as that integer.
#[verifier::external_body]
fn i64_from_postcard(b: &[u8]) -> (r: Option<i64>)
    ensures
        forall|v: i64| b@ == #[trigger] postcard_i64(v) ==> r == Some(v),
{
    postcard::from_bytes::<i64>(b).ok()
}

/// Relies on `postcard::to_allocvec`: the serialised form of a string. Its
/// `Vec` output never reports an error.
#[verifier::external_body]
fn str_to_postcard(s: &String) -> (r: Option<Vec<u8>>)
    ensures
        r is Some,
        r matches Some(b) ==> b@ == postcard_str(s@),
{
    postcard::to_allocvec(s).ok()
}

/// Relies on `postcard::from_bytes`: bytes that postcard wrote for a string
/// are read back as that string.
#[verifier::external_body]
fn str_from_postcard(b: &[u8]) -> (r: Option<String>)
    ensures
        forall|s: Seq<char>| b@ == #[trigger] postcard_str(s) ==> (r is Some && r->0@ == s),
{
    postcard::from_bytes::<String>(b).ok()
}

/// Relies on `yazi::compress` with the zlib format and the best-size level.
/// Its `Vec` output never reports an error.
#[verifier::external_body]
fn zlib_compress(b: &[u8]) -> (r: Option<Vec<u8>>)
    ensures
        r is Some,
        r matches Some(c) ==> c@ == zlib_of(b@),
{
    yazi::compress(b, yazi::Format::Zlib, yazi::CompressionLevel::BestSize).ok()
}

/// Relies on `yazi::decompress` with the zlib format: a stream that
/// `yazi::compress` wrote inflates to the bytes it was made from.
#[verifier::external_body]
fn zlib_decompress(c: &[u8]) -> (r: Option<Vec<u8>>)
    ensures
        forall|b: Seq<u8>| c@ == #[trigger] zlib_of(b) ==> (r is Some && r->0@ == b),
{
    match yazi::decompress(c, yazi::Format::Zlib) {
        Ok((bytes, _checksum)) => Some(bytes),
        Err(_) => None,
    }
}

/// A value that the cache can hold: it has a byte form, and the bytes it
/// writes are read back as the same value.
pub trait Persist: Sized + View {
    /// The byte form of a value.
    spec fn serialized(v: Self::V) -> Seq<u8>;

    fn to_bytes(&self) -> (r: Vec<u8>)
        ensures
            r@ == Self::serialized(self@),
    ;

    fn from_bytes(b: &[u8]) -> (r: Option<Self>)
        ensures
            forall|v: Self::V| b@ == #[trigger] Self::serialized(v) ==> (r is Some && r->0@ == v),
    ;
}

impl Persist for i32 {
    open spec fn serialized(v: i32) -> Seq<u8> {
        postcard_i32(v)
    }

    fn to_bytes(&self) -> (r: Vec<u8>) {
        i32_to_postcard(self).unwrap()
    }

    fn from_bytes(b: &[u8]) -> (r: Option<i32>) {
        i32_from_postcard(b)
    }
}

impl Persist for i64 {
    open spec fn serialized(v: i64) -> Seq<u8> {
        postcard_i64(v)
    }

    fn to_bytes(&self) -> (r: Vec<u8>) {
        i64_to_postcard(self).unwrap()
    }

    fn from_bytes(b: &[u8]) -> (r: Option<i64>) {
        i64_from_postcard(b)
    }
}

impl Persist for String {
    open spec fn serialized(v: Seq<char>) -> Seq<u8> {
        postcard_str(v)
    }

    fn to_bytes(&self) -> (r: Vec<u8>) {
        str_to_postcard(self).unwrap()
    }

    fn from_bytes(b: &[u8]) -> (r: Option<String>) {
        str_from_postcard(b)
    }
}

/// The compressed byte form of a value.
pub open spec fn packed<T: Persist>(v: T::V) -> Seq<u8> {
    zlib_of(T::serialized(v))
}

/// The text that stands for a value in a storage medium.
pub open spec fn encoded<T: Persist>(v: T::V) -> Seq<char> {
    hex_of(packed::<T>(v))
}

/// Serialises and compresses a value.
pub fn serde_to_bytes<T: Persist>(value: &T) -> (r: Vec<u8>)
    ensures
        r@ == packed::<T>(value@),
{
    let raw = value.to_bytes();
    zlib_compress(raw.as_slice()).unwrap()
}

/// Inflates and deserialises bytes written by `serde_to_bytes`.
pub fn try_serde_from_bytes<T: Persist>(bytes: &[u8]) -> (r: Option<T>)
    ensures
        forall|v: T::V| bytes@ == #[trigger] packed::<T>(v) ==> (r is Some && r->0@ == v),
{
    match zlib_decompress(bytes) {
        Some(raw) => T::from_bytes(raw.as_slice()),
        None => None,
    }
}

/// The storage-safe text of a value: an even run of lower-case hexadecimal
/// digits.
pub fn serde_to_string<T: Persist>(value: &T) -> (r: String)
    ensures
        r@ == encoded::<T>(value@),
        r@.len() % 2 == 0,
        all_digits(r@),
        unhex(r@) == Some(packed::<T>(value@)),
{
    let b = serde_to_bytes(value);
    proof {
        lemma_unhex_hex(b@);
    }
    to_hex(b.as_slice())
}

/// Reads back text written by `serde_to_string`. Text that is not an even run
/// of hexadecimal digits gives `None`; so does a payload that does not inflate
/// or deserialise.
pub fn try_serde_from_string<T: Persist>(value: &str) -> (r: Option<T>)
    ensures
        forall|v: T::V| value@ == #[trigger] encoded::<T>(v) ==> (r is Some && r->0@ == v),
        unhex(value@) is None ==> r is None,
{
    match from_hex(value) {
        Some(bytes) => {
            proof {
                assert forall|v: T::V| value@ == #[trigger] encoded::<T>(v) implies bytes@
                    == packed::<T>(v) by {
                    lemma_unhex_hex(packed::<T>(v));
                }
            }
            try_serde_from_bytes(bytes.as_slice())
        },
        None => None,
    }
}

/// Reads back text that is known to be the encoding of some value.
pub fn serde_from_string<T: Persist>(value: &str) -> (r: T)
    requires
        exists|v: T::V| value@ == #[trigger] encoded::<T>(v),
    ensures
        forall|v: T::V| value@ == #[trigger] encoded::<T>(v) ==> r@ == v,
{
    let r = try_serde_from_string::<T>(value);
    r.unwrap()
}

/// The hexadecimal layer of a value's text gives back the value's compressed
/// bytes exactly; what inflates and deserialises them is stated by
/// `try_serde_from_bytes`.
pub proof fn lemma_round_trip<T: Persist>(v: T::V)
    ensures
        unhex(encoded::<T>(v)) == Some(packed::<T>(v)),
{
    lemma_unhex_hex(packed::<T>(v));
}

} // verus!
