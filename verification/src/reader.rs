//! A positioned byte buffer with big-endian field readers.
//!
//! All packet bodies are decoded through [`PacketBuf`]; each reader's
//! contract is phrased over the spec-level parsers (`p_be`, `p_bytes`),
//! which consume a prefix of the remaining bytes.

use vstd::arithmetic::power2::*;
use vstd::prelude::*;

use crate::util::ReadError;

verus! {

/// The big-endian value of a byte sequence.
pub open spec fn be_nat(s: Seq<u8>) -> nat
    decreases s.len(),
{
    if s.len() == 0 {
        0
    } else {
        (256 * be_nat(s.drop_last()) + s.last()) as nat
    }
}

/// The `k` big-endian bytes of `v % 2^(8k)`.
pub open spec fn be_bytes(v: nat, k: nat) -> Seq<u8>
    decreases k,
{
    if k == 0 {
        Seq::empty()
    } else {
        be_bytes(v / 256, (k - 1) as nat).push((v % 256) as u8)
    }
}

pub proof fn lemma_be_bytes_len(v: nat, k: nat)
    ensures
        be_bytes(v, k).len() == k,
    decreases k,
{
    if k > 0 {
        lemma_be_bytes_len(v / 256, (k - 1) as nat);
    }
}

pub proof fn lemma_be_nat_bound(s: Seq<u8>)
    ensures
        be_nat(s) < pow2(8 * s.len()),
    decreases s.len(),
{
    if s.len() == 0 {
        lemma2_to64();
    } else {
        lemma_be_nat_bound(s.drop_last());
        lemma_pow2_adds(8 * (s.len() - 1) as nat, 8);
        lemma2_to64();
        assert(256 * be_nat(s.drop_last()) + s.last() < 256 * pow2(8 * (s.len() - 1) as nat))
            by (nonlinear_arith)
            requires
                be_nat(s.drop_last()) < pow2(8 * (s.len() - 1) as nat),
                s.last() < 256,
        ;
    }
}

/// Round trip: the big-endian bytes of a value below `2^(8k)` read back as that value.
pub proof fn lemma_be_roundtrip(v: nat, k: nat)
    requires
        v < pow2(8 * k),
    ensures
        be_nat(be_bytes(v, k)) == v,
        be_bytes(v, k).len() == k,
    decreases k,
{
    lemma_be_bytes_len(v, k);
    if k == 0 {
        lemma2_to64();
    } else {
        lemma_pow2_adds(8 * (k - 1) as nat, 8);
        lemma2_to64();
        assert(v / 256 < pow2(8 * (k - 1) as nat)) by (nonlinear_arith)
            requires
                v < pow2(8 * (k - 1) as nat) * 256,
        ;
        lemma_be_roundtrip(v / 256, (k - 1) as nat);
        assert(be_bytes(v, k).drop_last() =~= be_bytes(v / 256, (k - 1) as nat));
        vstd::arithmetic::div_mod::lemma_fundamental_div_mod(v as int, 256);
    }
}

/// Spec parser: a `k`-byte big-endian field at the head of `s`.
pub open spec fn p_be(s: Seq<u8>, k: nat) -> Result<(nat, Seq<u8>), ReadError> {
    if s.len() >= k {
        Ok((be_nat(s.take(k as int)), s.skip(k as int)))
    } else {
        Err(ReadError::EndOfFile)
    }
}

/// Spec parser: one byte at the head of `s`.
pub open spec fn p_u8(s: Seq<u8>) -> Result<(u8, Seq<u8>), ReadError> {
    if s.len() >= 1 {
        Ok((s[0], s.skip(1)))
    } else {
        Err(ReadError::EndOfFile)
    }
}

/// Spec parser: `k` raw bytes at the head of `s`.
pub open spec fn p_bytes(s: Seq<u8>, k: nat) -> Result<(Seq<u8>, Seq<u8>), ReadError> {
    if s.len() >= k {
        Ok((s.take(k as int), s.skip(k as int)))
    } else {
        Err(ReadError::EndOfFile)
    }
}

/// A byte buffer with a read position, the source every packet field is
/// decoded from.
pub struct PacketBuf {
    pub data: Vec<u8>,
    pub data_pos: usize,
    pub metadata: Vec<u32>,
    pub metadata_pos: usize,
}

impl PacketBuf {
    pub open spec fn wf(&self) -> bool {
        self.data_pos <= self.data@.len()
    }

    /// The bytes not yet consumed.
    pub open spec fn remaining(&self) -> Seq<u8> {
        self.data@.skip(self.data_pos as int)
    }

    pub fn new(data: Vec<u8>, metadata: Vec<u32>) -> (r: Self)
        ensures
            r.wf(),
            r.data@ == data@,
            r.data_pos == 0,
            r.remaining() == data@,
    {
        let r = Self { data, metadata, data_pos: 0, metadata_pos: 0 };
        proof {
            assert(r.remaining() =~= r.data@);
        }
        r
    }

    /// How many bytes are left to read.
    pub fn remaining_len(&self) -> (n: usize)
        requires
            self.wf(),
        ensures
            n == self.remaining().len(),
    {
        self.data.len() - self.data_pos
    }

    /// Reads a `k`-byte big-endian unsigned value, `k <= 16`.
    pub fn read_be(&mut self, k: usize) -> (r: Result<u128, ReadError>)
        requires
            old(self).wf(),
            k <= 16,
        ensures
            final(self).wf(),
            final(self).data@ == old(self).data@,
            match p_be(old(self).remaining(), k as nat) {
                Ok((v, rest)) => r == Ok::<u128, ReadError>((v as u128)) && final(self).remaining()
                    == rest,
                Err(e) => r == Err::<u128, ReadError>(e) && *final(self) == *old(self),
            },
    {
        let len = self.data.len();
        if len - self.data_pos < k {
            return Err(ReadError::EndOfFile);
        }
        let ghost s = old(self).remaining();
        let mut acc: u128 = 0;
        let mut i: usize = 0;
        proof {
            lemma2_to64();
            assert(s.take(0) =~= Seq::<u8>::empty());
        }
        while i < k
            invariant
                self == old(self),
                self.wf(),
                i <= k,
                k <= 16,
                len == self.data@.len(),
                self.data_pos + k <= len,
                s == old(self).remaining(),
                acc == be_nat(s.take(i as int)),
                acc < pow2(8 * i as nat),
            decreases k - i,
        {
            let b = self.data[self.data_pos + i];
            proof {
                lemma_pow2_adds(8 * i as nat, 8);
                lemma2_to64();
                assert(acc * 256 + b < pow2(8 * i as nat) * 256) by (nonlinear_arith)
                    requires
                        acc < pow2(8 * i as nat),
                        b < 256,
                ;
                lemma_pow2_pos(8 * (i + 1) as nat);
                assert(pow2(8 * (i + 1) as nat) <= pow2(128)) by {
                    if i + 1 < 16 {
                        lemma_pow2_strictly_increases(8 * (i + 1) as nat, 128);
                    }
                }
                assert(pow2(128) == 0x100000000000000000000000000000000) by {
                    lemma_pow2_adds(64, 64);
                    lemma2_to64();
                    lemma2_to64_rest();
                }
                assert(s.take(i + 1).drop_last() =~= s.take(i as int));
                assert(s.take(i + 1).last() == s[i as int]);
                assert(s[i as int] == self.data@[self.data_pos + i]);
            }
            acc = acc * 256 + (b as u128);
            i = i + 1;
        }
        self.data_pos = self.data_pos + k;
        proof {
            assert(self.remaining() =~= s.skip(k as int));
        }
        Ok(acc)
    }

    /// Reads one byte.
    pub fn read_u8(&mut self) -> (r: Result<u8, ReadError>)
        requires
            old(self).wf(),
        ensures
            final(self).wf(),
            final(self).data@ == old(self).data@,
            match p_u8(old(self).remaining()) {
                Ok((v, rest)) => r == Ok::<u8, ReadError>(v) && final(self).remaining() == rest,
                Err(e) => r == Err::<u8, ReadError>(e) && *final(self) == *old(self),
            },
    {
        if self.data_pos < self.data.len() {
            let b = self.data[self.data_pos];
            self.data_pos = self.data_pos + 1;
            Ok(b)
        } else {
            Err(ReadError::EndOfFile)
        }
    }

    /// Reads a big-endian `u16`.
    pub fn read_u16(&mut self) -> (r: Result<u16, ReadError>)
        requires
            old(self).wf(),
        ensures
            final(self).wf(),
            final(self).data@ == old(self).data@,
            match p_be(old(self).remaining(), 2) {
                Ok((v, rest)) => r == Ok::<u16, ReadError>((v as u16)) && final(self).remaining() == rest,
                Err(e) => r == Err::<u16, ReadError>(e) && *final(self) == *old(self),
            },
    {
        proof {
            if old(self).remaining().len() >= 2 {
                lemma_be_nat_bound(old(self).remaining().take(2));
                lemma2_to64();
            }
        }
        match self.read_be(2) {
            Ok(v) => Ok(v as u16),
            Err(e) => Err(e),
        }
    }

    /// Reads a big-endian `u32`.
    pub fn read_u32(&mut self) -> (r: Result<u32, ReadError>)
        requires
            old(self).wf(),
        ensures
            final(self).wf(),
            final(self).data@ == old(self).data@,
            match p_be(old(self).remaining(), 4) {
                Ok((v, rest)) => r == Ok::<u32, ReadError>((v as u32)) && final(self).remaining() == rest,
                Err(e) => r == Err::<u32, ReadError>(e) && *final(self) == *old(self),
            },
    {
        proof {
            if old(self).remaining().len() >= 4 {
                lemma_be_nat_bound(old(self).remaining().take(4));
                lemma2_to64();
            }
        }
        match self.read_be(4) {
            Ok(v) => Ok(v as u32),
            Err(e) => Err(e),
        }
    }

    /// Reads a big-endian `u64`.
    pub fn read_u64(&mut self) -> (r: Result<u64, ReadError>)
        requires
            old(self).wf(),
        ensures
            final(self).wf(),
            final(self).data@ == old(self).data@,
            match p_be(old(self).remaining(), 8) {
                Ok((v, rest)) => r == Ok::<u64, ReadError>((v as u64)) && final(self).remaining() == rest,
                Err(e) => r == Err::<u64, ReadError>(e) && *final(self) == *old(self),
            },
    {
        proof {
            if old(self).remaining().len() >= 8 {
                lemma_be_nat_bound(old(self).remaining().take(8));
                lemma2_to64();
            }
        }
        match self.read_be(8) {
            Ok(v) => Ok(v as u64),
            Err(e) => Err(e),
        }
    }

    /// Reads a big-endian `u128`.
    pub fn read_u128(&mut self) -> (r: Result<u128, ReadError>)
        requires
            old(self).wf(),
        ensures
            final(self).wf(),
            final(self).data@ == old(self).data@,
            match p_be(old(self).remaining(), 16) {
                Ok((v, rest)) => r == Ok::<u128, ReadError>((v as u128)) && final(self).remaining()
                    == rest,
                Err(e) => r == Err::<u128, ReadError>(e) && *final(self) == *old(self),
            },
    {
        self.read_be(16)
    }

    /// Reads a big-endian `i64` (the two's-complement reading of 8 bytes).
    pub fn read_i64(&mut self) -> (r: Result<i64, ReadError>)
        requires
            old(self).wf(),
        ensures
            final(self).wf(),
            final(self).data@ == old(self).data@,
            match p_be(old(self).remaining(), 8) {
                Ok((v, rest)) => r == Ok::<i64, ReadError>(((v as u64) as i64)) && final(self).remaining()
                    == rest,
                Err(e) => r == Err::<i64, ReadError>(e) && *final(self) == *old(self),
            },
    {
        match self.read_u64() {
            Ok(v) => Ok(v as i64),
            Err(e) => Err(e),
        }
    }

    /// Reads `k` raw bytes.
    pub fn read_bytes(&mut self, k: usize) -> (r: Result<Vec<u8>, ReadError>)
        requires
            old(self).wf(),
        ensures
            final(self).wf(),
            final(self).data@ == old(self).data@,
            match p_bytes(old(self).remaining(), k as nat) {
                Ok((v, rest)) => r is Ok && r->Ok_0@ == v && final(self).remaining() == rest,
                Err(e) => r == Err::<Vec<u8>, ReadError>(e) && *final(self) == *old(self),
            },
    {
        let len = self.data.len();
        if len - self.data_pos < k {
            return Err(ReadError::EndOfFile);
        }
        let ghost s = old(self).remaining();
        let mut out: Vec<u8> = Vec::new();
        let mut i: usize = 0;
        proof {
            assert(out@ =~= s.take(0));
        }
        while i < k
            invariant
                self == old(self),
                self.wf(),
                i <= k,
                len == self.data@.len(),
                self.data_pos + k <= len,
                s == old(self).remaining(),
                out@ =~= s.take(i as int),
            decreases k - i,
        {
            out.push(self.data[self.data_pos + i]);
            proof {
                assert(out@ =~= s.take(i + 1));
            }
            i = i + 1;
        }
        self.data_pos = self.data_pos + k;
        proof {
            assert(self.remaining() =~= s.skip(k as int));
        }
        Ok(out)
    }
}

/// Appends the `k` big-endian bytes of `v` (`k <= 16`) to `buf`.
pub fn write_be(buf: &mut Vec<u8>, v: u128, k: usize)
    requires
        k <= 16,
    ensures
        final(buf)@ == old(buf)@ + be_bytes(v as nat, k as nat),
    decreases k,
{
    if k == 0 {
        proof {
            assert(buf@ =~= old(buf)@ + be_bytes(v as nat, 0));
        }
    } else {
        write_be(buf, v / 256, k - 1);
        buf.push((v % 256) as u8);
        proof {
            assert(buf@ =~= old(buf)@ + be_bytes(v as nat, k as nat));
        }
    }
}

/// Spec parser: a big-endian `u16`.
pub open spec fn p_u16(s: Seq<u8>) -> Result<(u16, Seq<u8>), ReadError> {
    match p_be(s, 2) {
        Ok((v, rest)) => Ok(((v as u16), rest)),
        Err(e) => Err(e),
    }
}

/// Spec parser: a big-endian `u32`.
pub open spec fn p_u32(s: Seq<u8>) -> Result<(u32, Seq<u8>), ReadError> {
    match p_be(s, 4) {
        Ok((v, rest)) => Ok(((v as u32), rest)),
        Err(e) => Err(e),
    }
}

/// Spec parser: a big-endian `u64`.
pub open spec fn p_u64(s: Seq<u8>) -> Result<(u64, Seq<u8>), ReadError> {
    match p_be(s, 8) {
        Ok((v, rest)) => Ok(((v as u64), rest)),
        Err(e) => Err(e),
    }
}

/// Spec parser: a big-endian `u128`.
pub open spec fn p_u128(s: Seq<u8>) -> Result<(u128, Seq<u8>), ReadError> {
    match p_be(s, 16) {
        Ok((v, rest)) => Ok(((v as u128), rest)),
        Err(e) => Err(e),
    }
}

/// Spec parser: a big-endian `i64`, the two's-complement reading of 8 bytes.
pub open spec fn p_i64(s: Seq<u8>) -> Result<(i64, Seq<u8>), ReadError> {
    match p_be(s, 8) {
        Ok((v, rest)) => Ok((((v as u64) as i64), rest)),
        Err(e) => Err(e),
    }
}

/// Spec parser: one byte read as a boolean, any nonzero value counting as true.
pub open spec fn p_bool(s: Seq<u8>) -> Result<(bool, Seq<u8>), ReadError> {
    match p_u8(s) {
        Ok((b, rest)) => Ok(((b != 0), rest)),
        Err(e) => Err(e),
    }
}

/// The one-byte encoding of a boolean.
pub open spec fn bool_byte(b: bool) -> Seq<u8> {
    seq![if b { 1u8 } else { 0u8 }]
}

/// Round trip in parser form: a `k`-byte field followed by anything parses to
/// the value and leaves exactly that remainder.
pub proof fn lemma_p_be(v: nat, k: nat, rest: Seq<u8>)
    requires
        v < pow2(8 * k),
    ensures
        p_be(be_bytes(v, k) + rest, k) == Ok::<(nat, Seq<u8>), ReadError>((v, rest)),
{
    lemma_be_roundtrip(v, k);
    assert((be_bytes(v, k) + rest).take(k as int) =~= be_bytes(v, k));
    assert((be_bytes(v, k) + rest).skip(k as int) =~= rest);
}

pub proof fn lemma_p_u16(v: u16, rest: Seq<u8>)
    ensures
        p_u16(be_bytes(v as nat, 2) + rest) == Ok::<(u16, Seq<u8>), ReadError>((v, rest)),
{
    lemma2_to64();
    lemma_p_be(v as nat, 2, rest);
}

pub proof fn lemma_p_u32(v: u32, rest: Seq<u8>)
    ensures
        p_u32(be_bytes(v as nat, 4) + rest) == Ok::<(u32, Seq<u8>), ReadError>((v, rest)),
{
    lemma2_to64();
    lemma_p_be(v as nat, 4, rest);
}

pub proof fn lemma_p_u64(v: u64, rest: Seq<u8>)
    ensures
        p_u64(be_bytes(v as nat, 8) + rest) == Ok::<(u64, Seq<u8>), ReadError>((v, rest)),
{
    lemma2_to64();
    lemma2_to64_rest();
    lemma_p_be(v as nat, 8, rest);
}

pub proof fn lemma_p_u128(v: u128, rest: Seq<u8>)
    ensures
        p_u128(be_bytes(v as nat, 16) + rest) == Ok::<(u128, Seq<u8>), ReadError>((v, rest)),
{
    assert(v < pow2(128)) by {
        lemma_pow2_adds(64, 64);
        lemma2_to64();
        lemma2_to64_rest();
    }
    lemma_p_be(v as nat, 16, rest);
}

pub proof fn lemma_p_i64(v: i64, rest: Seq<u8>)
    ensures
        p_i64(be_bytes((v as u64) as nat, 8) + rest) == Ok::<(i64, Seq<u8>), ReadError>((v, rest)),
{
    lemma_p_u64(v as u64, rest);
    assert(((v as u64) as i64) == v) by (bit_vector);
}

pub proof fn lemma_p_bool(b: bool, rest: Seq<u8>)
    ensures
        p_bool(bool_byte(b) + rest) == Ok::<(bool, Seq<u8>), ReadError>((b, rest)),
{
    assert((bool_byte(b) + rest).skip(1) =~= rest);
}

} // verus!
