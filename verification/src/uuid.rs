//! Offline-mode UUIDs: a deterministic hash of the player name, with the
//! version and variant bits forced to "version 3, IETF variant".

use vstd::arithmetic::power2::*;
use vstd::prelude::*;
use vstd::utf8::encode_utf8;

use crate::reader::{be_bytes, be_nat, lemma_be_nat_bound, write_be};

verus! {

/// What `md5::compute` returns for the given input bytes. The digest is a
/// pure function of its input, so the name stands for its 16 bytes.
pub uninterp spec fn md5_of(data: Seq<u8>) -> Seq<u8>;

/// Relies on md5::compute: the digest depends on the input bytes alone and
/// is 16 bytes long.
#[verifier::external_body]
fn md5_digest(data: &Vec<u8>) -> (r: Vec<u8>)
    ensures
        r@ == md5_of(data@),
        r@.len() == 16,
{
    md5::compute(data.as_slice()).0.to_vec()
}

/// The name-hash input prefix for offline UUIDs.
pub open spec fn offline_prefix() -> Seq<char> {
    seq!['O', 'f', 'f', 'l', 'i', 'n', 'e', 'P', 'l', 'a', 'y', 'e', 'r', ':']
}

/// The digest bytes of an offline UUID before packing: the MD5 of
/// `OfflinePlayer:<name>` with byte 6 forced to version 3 and byte 8 to the
/// IETF variant.
pub open spec fn offline_digest(name: Seq<char>) -> Seq<u8> {
    let d = md5_of(encode_utf8(offline_prefix() + name));
    d.update(6, (d[6] & 0x0f | 0x30) as u8).update(8, (d[8] & 0x3f | 0x80) as u8)
}

/// The offline UUID of a player name, as a 128-bit value.
pub open spec fn offline_uuid(name: Seq<char>) -> nat {
    be_nat(offline_digest(name))
}

/// Encoding a character sequence pieces together the encodings of its parts.
pub proof fn lemma_encode_utf8_concat(a: Seq<char>, b: Seq<char>)
    ensures
        encode_utf8(a + b) == encode_utf8(a) + encode_utf8(b),
    decreases a.len(),
{
    if a.len() == 0 {
        assert(a + b =~= b);
        assert(encode_utf8(a) + encode_utf8(b) =~= encode_utf8(b));
    } else {
        assert((a + b).drop_first() =~= a.drop_first() + b);
        lemma_encode_utf8_concat(a.drop_first(), b);
        assert(encode_utf8(a + b) =~= encode_utf8(a) + encode_utf8(b));
    }
}

/// A 128-bit UUID.
#[derive(Debug, PartialEq, Eq, Clone, Copy, Structural)]
pub struct Uuid(pub u128);

impl Uuid {
    /// The deterministic offline UUID of a player name.
    pub fn offline(name: std::string::String) -> (r: Self)
        ensures
            r.0 == offline_uuid(name@),
    {
        let prefix: &str = "OfflinePlayer:";
        proof {
            reveal_strlit("OfflinePlayer:");
            assert(prefix@ =~= offline_prefix());
        }
        let mut input: Vec<u8> = Vec::new();
        input.extend_from_slice(prefix.as_bytes());
        input.extend_from_slice(name.as_str().as_bytes());
        proof {
            lemma_encode_utf8_concat(offline_prefix(), name@);
            assert(input@ =~= encode_utf8(offline_prefix() + name@));
        }
        let hash = md5_digest(&input);
        let h6: u8 = hash[6] & 0x0f | 0x30;
        let h8: u8 = hash[8] & 0x3f | 0x80;
        let ghost d2 = offline_digest(name@);
        proof {
            assert(d2.len() == 16);
            assert(d2 =~= hash@.update(6, h6).update(8, h8));
            assert(d2.take(0) =~= Seq::<u8>::empty());
            lemma2_to64();
        }
        let mut acc: u128 = 0;
        let mut i: usize = 0;
        while i < 16
            invariant
                i <= 16,
                hash@.len() == 16,
                d2.len() == 16,
                d2 == offline_digest(name@),
                d2 == hash@.update(6, h6).update(8, h8),
                acc == be_nat(d2.take(i as int)),
                acc < pow2(8 * i as nat),
            decreases 16 - i,
        {
            let b: u8 = if i == 6 {
                h6
            } else if i == 8 {
                h8
            } else {
                hash[i]
            };
            proof {
                assert(b == d2[i as int]);
                lemma_pow2_adds(8 * i as nat, 8);
                lemma2_to64();
                assert(acc * 256 + b < pow2(8 * i as nat) * 256) by (nonlinear_arith)
                    requires
                        acc < pow2(8 * i as nat),
                        b < 256,
                ;
                assert(pow2(8 * (i + 1) as nat) <= pow2(128)) by {
                    if i + 1 < 16 {
                        lemma_pow2_strictly_increases(8 * (i + 1) as nat, 128);
                    }
                }
                assert(pow2(128) == 0x100000000000000000000000000000000) by {
                    lemma_pow2_adds(64, 64);
                    lemma2_to64();
                    lemma2_to64_rest();
                }
                assert(d2.take(i + 1).drop_last() =~= d2.take(i as int));
                assert(d2.take(i + 1).last() == d2[i as int]);
            }
            acc = acc * 256 + (b as u128);
            i = i + 1;
        }
        proof {
            assert(d2.take(16) =~= d2);
        }
        Uuid(acc)
    }

    /// The sixteen big-endian bytes of this UUID.
    pub fn to_bytes(&self) -> (r: Vec<u8>)
        ensures
            r@ == be_bytes(self.0 as nat, 16),
            r@.len() == 16,
    {
        let mut r: Vec<u8> = Vec::new();
        write_be(&mut r, self.0, 16);
        proof {
            crate::reader::lemma_be_bytes_len(self.0 as nat, 16);
        }
        r
    }
}

impl Default for Uuid {
    /// Generated from the name `default`.
    fn default() -> (r: Self)
        ensures
            r.0 == 110388530216132912663215514682830219291u128,
    {
        Uuid(110388530216132912663215514682830219291)
    }
}

} // verus!
