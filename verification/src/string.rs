//! Length-prefixed UTF-8 strings: a VarInt count of bytes, then the bytes.

use vstd::prelude::*;
use vstd::utf8::{decode_utf8, encode_utf8, valid_utf8};

use crate::reader::PacketBuf;
use crate::util::ReadError;
use crate::varint::{p_varint, varint_bytes, ReadVarInt, WriteVarInt};

verus! {

/// The wire form of a string: its UTF-8 byte count as a VarInt, then the bytes.
pub open spec fn string_bytes(s: Seq<char>) -> Seq<u8> {
    varint_bytes(encode_utf8(s).len() as i32) + encode_utf8(s)
}

/// Whether a string's UTF-8 form fits the non-negative range of the VarInt
/// length prefix.
pub open spec fn string_fits(s: Seq<char>) -> bool {
    encode_utf8(s).len() <= 0x7FFFFFFF
}

/// Spec parser: a VarInt byte count, that many bytes, decoded as UTF-8.
/// A count that is negative or longer than the input is `EndOfFile`; bytes
/// that are not UTF-8 are `InvalidUtf8`.
pub open spec fn p_string(s: Seq<u8>) -> Result<(Seq<char>, Seq<u8>), ReadError> {
    match p_varint(s) {
        Ok((len, rest)) => {
            if len < 0 || rest.len() < len {
                Err(ReadError::EndOfFile)
            } else {
                let bytes = rest.take(len as int);
                if valid_utf8(bytes) {
                    Ok((decode_utf8(bytes), rest.skip(len as int)))
                } else {
                    Err(ReadError::InvalidUtf8)
                }
            }
        },
        Err(e) => Err(e),
    }
}

/// Round trip: an encoded string followed by anything parses back to the
/// same characters and leaves exactly that remainder.
pub proof fn lemma_p_string(s: Seq<char>, rest: Seq<u8>)
    requires
        string_fits(s),
    ensures
        p_string(string_bytes(s) + rest) == Ok::<(Seq<char>, Seq<u8>), ReadError>((s, rest)),
{
    let bytes = encode_utf8(s);
    let len = bytes.len() as i32;
    crate::varint::lemma_p_varint(len, bytes + rest);
    assert(string_bytes(s) + rest =~= varint_bytes(len) + (bytes + rest));
    assert((bytes + rest).take(len as int) =~= bytes);
    assert((bytes + rest).skip(len as int) =~= rest);
    vstd::utf8::encode_utf8_valid_utf8(s);
    vstd::utf8::encode_utf8_decode_utf8(s);
}

#[verifier::external_type_specification]
#[verifier::external_body]
pub struct ExFromUtf8Error(std::string::FromUtf8Error);

/// Relies on String::from_utf8: it succeeds exactly on valid UTF-8 input and
/// returns the string those bytes spell.
pub assume_specification[ std::string::String::from_utf8 ](vec: Vec<u8>) -> (r: Result<
    std::string::String,
    std::string::FromUtf8Error,
>)
    ensures
        r is Ok <==> valid_utf8(vec@),
        r is Ok ==> r->Ok_0@ == decode_utf8(vec@),
;

/// A string as it stands in packet bodies, carrying its wire encoding.
#[derive(Debug, PartialEq, Eq, Clone)]
pub struct String(pub std::string::String);

impl View for String {
    type V = Seq<char>;

    open spec fn view(&self) -> Seq<char> {
        self.0@
    }
}

impl String {
    /// The wire bytes of this string.
    pub fn to_bytes(&self) -> (r: Vec<u8>)
        requires
            string_fits(self@),
        ensures
            r@ == string_bytes(self@),
    {
        let mut buf: Vec<u8> = Vec::new();
        buf.write_string(self.0.as_str());
        buf
    }
}

pub trait ReadString {
    /// Reads one length-prefixed UTF-8 string field.
    fn read_string(&mut self) -> (r: Result<std::string::String, ReadError>) where Self: Sized
        requires
            old(self).pre_read_string(),
        ensures
            final(self).post_read_string(*old(self), r),
    ;

    spec fn pre_read_string(&self) -> bool;

    spec fn post_read_string(&self, pre: Self, r: Result<std::string::String, ReadError>) -> bool where Self: Sized;
}

impl ReadString for PacketBuf {
    open spec fn pre_read_string(&self) -> bool {
        self.wf()
    }

    open spec fn post_read_string(
        &self,
        pre: Self,
        r: Result<std::string::String, ReadError>,
    ) -> bool {
        &&& self.wf()
        &&& self.data@ == pre.data@
        &&& match p_string(pre.remaining()) {
            Ok((cs, rest)) => r is Ok && r->Ok_0@ == cs && self.remaining() == rest,
            Err(e) => r == Err::<std::string::String, ReadError>(e),
        }
    }

    fn read_string(&mut self) -> (r: Result<std::string::String, ReadError>) {
        let len = match self.read_varint() {
            Ok(len) => len,
            Err(e) => {
                return Err(e);
            },
        };
        if len < 0 {
            return Err(ReadError::EndOfFile);
        }
        let bytes = match self.read_bytes(len as usize) {
            Ok(bytes) => bytes,
            Err(e) => {
                return Err(e);
            },
        };
        match std::string::String::from_utf8(bytes) {
            Ok(st) => Ok(st),
            Err(_) => Err(ReadError::InvalidUtf8),
        }
    }
}

pub trait WriteString {
    /// Appends one length-prefixed UTF-8 string field; returns how many bytes
    /// were written.
    fn write_string(&mut self, value: &str) -> (n: usize) where Self: Sized
        requires
            string_fits(value@),
        ensures
            final(self).post_write_string(*old(self), value@, n),
    ;

    spec fn post_write_string(&self, pre: Self, value: Seq<char>, n: usize) -> bool where Self: Sized;
}

impl WriteString for Vec<u8> {
    open spec fn post_write_string(&self, pre: Self, value: Seq<char>, n: usize) -> bool {
        self@ == pre@ + string_bytes(value) && n == string_bytes(value).len()
    }

    fn write_string(&mut self, value: &str) -> (n: usize) {
        let before = self.len();
        let bytes = value.as_bytes();
        self.write_varint(bytes.len() as i32);
        self.extend_from_slice(bytes);
        proof {
            assert(self@ =~= old(self)@ + string_bytes(value@));
        }
        self.len() - before
    }
}

} // verus!
