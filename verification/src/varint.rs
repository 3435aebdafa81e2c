//! LEB128 variable-length integers: the VarInt (32-bit, at most 5 bytes) and
//! VarLong (64-bit, at most 10 bytes) wire primitives.
//!
//! Encoding emits the low 7 bits of the remaining value per byte and sets the
//! top bit while more remain. Decoding accumulates 7 bits per byte; the
//! terminal byte slot only admits the bits that still fit the target width.
//! When it carries more, the decoder finishes consuming the field (so stream
//! framing is not lost) and reports `Overflow`.

use vstd::arithmetic::div_mod::lemma_fundamental_div_mod;
use vstd::arithmetic::power2::*;
use vstd::prelude::*;

use crate::reader::PacketBuf;
use crate::util::ReadError;

verus! {

/// The LEB128 encoding of `v`: low 7 bits per byte, continuation bit on all
/// but the last byte.
pub open spec fn leb_bytes(v: u64) -> Seq<u8>
    decreases v,
{
    if v < 0x80 {
        seq![v as u8]
    } else {
        seq![(v % 0x80 + 0x80) as u8] + leb_bytes(v / 0x80)
    }
}

/// The encoding of an `i32` VarInt: its unsigned 32-bit reinterpretation in LEB128.
pub open spec fn varint_bytes(v: i32) -> Seq<u8> {
    leb_bytes((v as u32) as u64)
}

/// The encoding of an `i64` VarLong.
pub open spec fn varlong_bytes(v: i64) -> Seq<u8> {
    leb_bytes(v as u64)
}

/// Outcome of reading one LEB128 field from the head of a byte sequence:
/// a value and the bytes consumed, an overflow and the bytes consumed, or
/// exhaustion of the input mid-field.
pub enum LebRead {
    Value { v: nat, n: nat },
    Overflow { n: nat },
    Eof,
}

/// Bytes consumed to finish a field whose previous byte had the continuation
/// bit set: everything up to and including the first byte without it.
pub open spec fn skip_cont(s: Seq<u8>) -> Option<nat>
    decreases s.len(),
{
    if s.len() == 0 {
        None
    } else if s[0] < 0x80 {
        Some(1)
    } else {
        match skip_cont(s.skip(1)) {
            Some(n) => Some((n + 1) as nat),
            None => None,
        }
    }
}

/// Reads one LEB128 field from the head of `s` with `slots` byte slots; the
/// terminal slot admits only byte values below `limit`. A terminal-slot byte
/// at or above `limit` is an overflow: the rest of the field is still
/// consumed, continuation byte by continuation byte.
pub open spec fn leb_read(s: Seq<u8>, slots: nat, limit: u8) -> LebRead
    decreases slots,
{
    if s.len() == 0 {
        LebRead::Eof
    } else {
        let b = s[0];
        if slots <= 1 {
            if b < limit {
                LebRead::Value { v: b as nat, n: 1 }
            } else if b < 0x80 {
                LebRead::Overflow { n: 1 }
            } else {
                match skip_cont(s.skip(1)) {
                    Some(n) => LebRead::Overflow { n: (n + 1) as nat },
                    None => LebRead::Eof,
                }
            }
        } else {
            if b < 0x80 {
                LebRead::Value { v: b as nat, n: 1 }
            } else {
                match leb_read(s.skip(1), (slots - 1) as nat, limit) {
                    LebRead::Value { v, n } => LebRead::Value {
                        v: ((b - 0x80) + 0x80 * v) as nat,
                        n: (n + 1) as nat,
                    },
                    LebRead::Overflow { n } => LebRead::Overflow { n: (n + 1) as nat },
                    LebRead::Eof => LebRead::Eof,
                }
            }
        }
    }
}

/// Reading a VarInt: 5 byte slots, terminal byte below `0x10` (bits 28..31).
pub open spec fn varint_read(s: Seq<u8>) -> LebRead {
    leb_read(s, 5, 0x10)
}

/// Reading a VarLong: 10 byte slots, terminal byte below `0x02` (bit 63).
pub open spec fn varlong_read(s: Seq<u8>) -> LebRead {
    leb_read(s, 10, 0x02)
}

/// A value read within `slots` slots under `limit` is below `2^(7(slots-1)) * limit`,
/// and consumed at most `slots` bytes, at most the whole input.
pub proof fn lemma_leb_read_bound(s: Seq<u8>, slots: nat, limit: u8)
    requires
        slots >= 1,
        limit >= 1,
    ensures
        match leb_read(s, slots, limit) {
            LebRead::Value { v, n } => v < pow2(7 * (slots - 1) as nat) * limit && 1 <= n <= slots
                && n <= s.len(),
            LebRead::Overflow { n } => 1 <= n <= s.len(),
            LebRead::Eof => true,
        },
    decreases slots,
{
    lemma2_to64();
    if s.len() == 0 {
    } else {
        let b = s[0];
        if slots <= 1 {
            if b >= limit && b >= 0x80 {
                lemma_skip_cont_bound(s.skip(1));
            }
        } else {
            let p = pow2(7 * (slots - 2) as nat);
            lemma_pow2_adds(7, 7 * (slots - 2) as nat);
            lemma_pow2_pos(7 * (slots - 2) as nat);
            if b < 0x80 {
                assert(b < 0x80 * p * limit) by (nonlinear_arith)
                    requires
                        b < 0x80,
                        p >= 1,
                        limit >= 1,
                ;
            } else {
                lemma_leb_read_bound(s.skip(1), (slots - 1) as nat, limit);
                match leb_read(s.skip(1), (slots - 1) as nat, limit) {
                    LebRead::Value { v, n } => {
                        assert((b - 0x80) + 0x80 * v < pow2(7 * (slots - 1) as nat) * limit)
                            by (nonlinear_arith)
                            requires
                                v < p * limit,
                                b < 0x100,
                                pow2(7 * (slots - 1) as nat) == 0x80 * p,
                                p >= 1,
                        ;
                    },
                    _ => {},
                }
            }
        }
    }
}

proof fn lemma_skip_cont_bound(s: Seq<u8>)
    ensures
        match skip_cont(s) {
            Some(n) => 1 <= n <= s.len(),
            None => true,
        },
    decreases s.len(),
{
    if s.len() > 0 && s[0] >= 0x80 {
        lemma_skip_cont_bound(s.skip(1));
    }
}

/// Round trip: an encoded value that fits the slot budget reads back as itself,
/// whatever bytes follow it.
pub proof fn lemma_leb_roundtrip(v: u64, rest: Seq<u8>, slots: nat, limit: u8)
    requires
        slots >= 1,
        1 <= limit <= 0x80,
        v < pow2(7 * (slots - 1) as nat) * limit,
    ensures
        leb_read(leb_bytes(v) + rest, slots, limit) == (LebRead::Value {
            v: v as nat,
            n: leb_bytes(v).len(),
        }),
    decreases slots,
{
    lemma2_to64();
    let s = leb_bytes(v) + rest;
    if v < 0x80 {
        assert(s[0] == v as u8);
        if slots <= 1 {
            assert(pow2(0) == 1);
            assert(v < limit) by (nonlinear_arith)
                requires
                    v < pow2(7 * (slots - 1) as nat) * limit,
                    pow2(7 * (slots - 1) as nat) == 1,
            ;
        }
    } else {
        // The slot budget cannot be 1: the value would not fit.
        if slots == 1 {
            assert(pow2(0) == 1);
            assert(v < limit) by (nonlinear_arith)
                requires
                    v < pow2(7 * (slots - 1) as nat) * limit,
                    pow2(7 * (slots - 1) as nat) == 1,
            ;
            assert(false);
        }
        let b = (v % 0x80 + 0x80) as u8;
        assert(s[0] == b);
        assert(b >= 0x80);
        let p = pow2(7 * (slots - 2) as nat);
        lemma_pow2_adds(7, 7 * (slots - 2) as nat);
        lemma_pow2_pos(7 * (slots - 2) as nat);
        assert(v / 0x80 < p * limit) by (nonlinear_arith)
            requires
                v < 0x80 * p * limit,
                p >= 1,
                limit >= 1,
        ;
        lemma_leb_roundtrip(v / 0x80, rest, (slots - 1) as nat, limit);
        assert(s.skip(1) =~= leb_bytes(v / 0x80) + rest);
        lemma_fundamental_div_mod(v as int, 0x80);
    }
}

/// The encoding of a value below `2^(7k)` takes at most `k` bytes.
pub proof fn lemma_leb_bytes_len(v: u64, k: nat)
    requires
        k >= 1,
        v < pow2(7 * k),
    ensures
        1 <= leb_bytes(v).len() <= k,
    decreases k,
{
    lemma2_to64();
    if v >= 0x80 {
        if k == 1 {
            assert(false);
        }
        lemma_pow2_adds(7, 7 * (k - 1) as nat);
        lemma_pow2_pos(7 * (k - 1) as nat);
        assert(v / 0x80 < pow2(7 * (k - 1) as nat)) by (nonlinear_arith)
            requires
                v < 0x80 * pow2(7 * (k - 1) as nat),
        ;
        lemma_leb_bytes_len(v / 0x80, (k - 1) as nat);
    }
}

/// A VarInt encodes to at most 5 bytes.
pub proof fn lemma_varint_len(v: i32)
    ensures
        1 <= varint_bytes(v).len() <= 5,
{
    assert(pow2(35) == 0x800000000) by {
        lemma2_to64();
        lemma2_to64_rest();
    }
    lemma_leb_bytes_len((v as u32) as u64, 5);
}

/// A VarLong encodes to at most 10 bytes.
pub proof fn lemma_varlong_len(v: i64)
    ensures
        1 <= varlong_bytes(v).len() <= 10,
{
    assert(pow2(70) == 0x400000000000000000) by {
        lemma2_to64();
        lemma2_to64_rest();
        lemma_pow2_adds(64, 6);
    }
    lemma_leb_bytes_len(v as u64, 10);
}

/// Round trip for VarInt: decoding the encoding of any `i32` yields it back,
/// whatever bytes follow the field.
pub proof fn lemma_varint_roundtrip(v: i32, rest: Seq<u8>)
    ensures
        varint_read(varint_bytes(v) + rest) == (LebRead::Value {
            v: (v as u32) as nat,
            n: varint_bytes(v).len(),
        }),
        ((v as u32) as i32) == v,
{
    assert(pow2(28) * 0x10 == 0x100000000) by {
        lemma2_to64();
    }
    lemma_leb_roundtrip((v as u32) as u64, rest, 5, 0x10);
    assert(((v as u32) as i32) == v) by (bit_vector);
}

/// Round trip for VarLong.
pub proof fn lemma_varlong_roundtrip(v: i64, rest: Seq<u8>)
    ensures
        varlong_read(varlong_bytes(v) + rest) == (LebRead::Value {
            v: (v as u64) as nat,
            n: varlong_bytes(v).len(),
        }),
        ((v as u64) as i64) == v,
{
    assert(pow2(63) * 0x02 == 0x10000000000000000) by {
        lemma2_to64();
        lemma2_to64_rest();
    }
    lemma_leb_roundtrip(v as u64, rest, 10, 0x02);
    assert(((v as u64) as i64) == v) by (bit_vector);
}

/// Overflow: a VarInt whose first four bytes carry continuation bits and whose
/// fifth byte sets any bit above bit 3 never reads as a value. With the
/// continuation bit clear it is consumed whole as exactly 5 bytes; with it
/// set, the field's remaining continuation bytes are consumed too.
pub proof fn lemma_varint_overflow(s: Seq<u8>)
    requires
        s.len() >= 5,
        forall|i: int| 0 <= i < 4 ==> s[i] >= 0x80,
        s[4] >= 0x10,
    ensures
        !(varint_read(s) is Value),
        s[4] < 0x80 ==> varint_read(s) == (LebRead::Overflow { n: 5 }),
        s[4] >= 0x80 && skip_cont(s.skip(5)) is Some ==> varint_read(s) == (LebRead::Overflow {
            n: (5 + skip_cont(s.skip(5))->Some_0) as nat,
        }),
        s[4] >= 0x80 && skip_cont(s.skip(5)) is None ==> varint_read(s) == LebRead::Eof,
{
    let s1 = s.skip(1);
    let s2 = s1.skip(1);
    let s3 = s2.skip(1);
    let s4 = s3.skip(1);
    assert(s1 =~= s.skip(1));
    assert(s2 =~= s.skip(2));
    assert(s3 =~= s.skip(3));
    assert(s4 =~= s.skip(4));
    assert(s4[0] == s[4]);
    assert(s4.skip(1) =~= s.skip(5));
    if s[4] < 0x80 {
        assert(leb_read(s4, 1, 0x10) == (LebRead::Overflow { n: 1 }));
        assert(leb_read(s3, 2, 0x10) == (LebRead::Overflow { n: 2 }));
        assert(leb_read(s2, 3, 0x10) == (LebRead::Overflow { n: 3 }));
        assert(leb_read(s1, 4, 0x10) == (LebRead::Overflow { n: 4 }));
        assert(leb_read(s, 5, 0x10) == (LebRead::Overflow { n: 5 }));
    } else {
        match skip_cont(s.skip(5)) {
            Some(n) => {
                assert(leb_read(s4, 1, 0x10) == (LebRead::Overflow { n: (n + 1) as nat }));
                assert(leb_read(s3, 2, 0x10) == (LebRead::Overflow { n: (n + 2) as nat }));
                assert(leb_read(s2, 3, 0x10) == (LebRead::Overflow { n: (n + 3) as nat }));
                assert(leb_read(s1, 4, 0x10) == (LebRead::Overflow { n: (n + 4) as nat }));
                assert(leb_read(s, 5, 0x10) == (LebRead::Overflow { n: (n + 5) as nat }));
            },
            None => {
                assert(leb_read(s4, 1, 0x10) == LebRead::Eof);
                assert(leb_read(s3, 2, 0x10) == LebRead::Eof);
                assert(leb_read(s2, 3, 0x10) == LebRead::Eof);
                assert(leb_read(s1, 4, 0x10) == LebRead::Eof);
                assert(leb_read(s, 5, 0x10) == LebRead::Eof);
            },
        }
    }
}

/// Writes one value in LEB128 onto the end of `buf`.
fn write_leb(buf: &mut Vec<u8>, v: u64)
    ensures
        final(buf)@ == old(buf)@ + leb_bytes(v),
    decreases v,
{
    if v < 0x80 {
        buf.push(v as u8);
        proof {
            assert(buf@ =~= old(buf)@ + leb_bytes(v));
        }
    } else {
        buf.push((v % 0x80 + 0x80) as u8);
        proof {
            assert(v / 0x80 < v) by (nonlinear_arith)
                requires
                    v >= 0x80,
            ;
        }
        write_leb(buf, v / 0x80);
        proof {
            assert(buf@ =~= old(buf)@ + leb_bytes(v));
        }
    }
}

/// Reads one LEB128 field, mirroring [`leb_read`].
fn read_leb(buf: &mut PacketBuf, slots: u8, limit: u8) -> (r: Result<u64, ReadError>)
    requires
        old(buf).wf(),
        1 <= slots <= 10,
        1 <= limit <= 0x80,
        pow2(7 * (slots - 1) as nat) * limit <= pow2(64),
    ensures
        final(buf).wf(),
        final(buf).data@ == old(buf).data@,
        match leb_read(old(buf).remaining(), slots as nat, limit) {
            LebRead::Value { v, n } => r == Ok::<u64, ReadError>((v as u64)) && final(buf).remaining()
                == old(buf).remaining().skip(n as int),
            LebRead::Overflow { n } => r == Err::<u64, ReadError>(ReadError::Overflow)
                && final(buf).remaining() == old(buf).remaining().skip(n as int),
            LebRead::Eof => r == Err::<u64, ReadError>(ReadError::EndOfFile),
        },
    decreases slots,
{
    proof {
        lemma_leb_read_bound(old(buf).remaining(), slots as nat, limit);
        lemma2_to64();
    }
    let ghost s = old(buf).remaining();
    let b = match buf.read_u8() {
        Ok(b) => b,
        Err(e) => {
            return Err(ReadError::EndOfFile);
        },
    };
    proof {
        assert(s.take(1).drop_last() =~= Seq::<u8>::empty());
        assert(b == s[0]);
        assert(buf.remaining() =~= s.skip(1));
    }
    if slots <= 1 {
        if b < limit {
            Ok(b as u64)
        } else if b < 0x80 {
            Err(ReadError::Overflow)
        } else {
            // Consume the rest of the field so framing is kept, then report.
            let ghost tail = buf.remaining();
            let mut cont = true;
            let ghost consumed: nat = 0nat;
            proof {
                assert(tail.skip(0) =~= tail);
            }
            while cont
                invariant
                    buf.wf(),
                    buf.data@ == old(buf).data@,
                    s == old(buf).remaining(),
                    s.len() >= 1,
                    slots == 1,
                    s[0] >= limit,
                    s[0] >= 0x80,
                    tail == s.skip(1),
                    consumed <= tail.len(),
                    buf.remaining() == tail.skip(consumed as int),
                    cont ==> skip_cont(tail) == match skip_cont(tail.skip(consumed as int)) {
                        Some(n) => Some((n + consumed) as nat),
                        None => None::<nat>,
                    },
                    !cont ==> skip_cont(tail) == Some(consumed),
                decreases tail.len() - consumed,
            {
                let ghost cur = buf.remaining();
                match buf.read_u8() {
                    Ok(nb) => {
                        proof {
                            assert(nb == cur[0]);
                            assert(buf.remaining() =~= cur.skip(1));
                            assert(cur.skip(1) =~= tail.skip(consumed as int + 1));
                            consumed = consumed + 1;
                        }
                        if nb < 0x80 {
                            cont = false;
                        }
                    },
                    Err(_) => {
                        proof {
                            assert(cur.len() == 0);
                            assert(skip_cont(cur) is None);
                            assert(cur == tail.skip(consumed as int));
                            assert(skip_cont(tail) is None);
                            assert(tail == s.skip(1));
                            assert(leb_read(s, slots as nat, limit) is Eof);
                        }
                        return Err(ReadError::EndOfFile);
                    },
                }
            }
            proof {
                assert(buf.remaining() =~= s.skip(1 + skip_cont(tail)->Some_0 as int));
            }
            Err(ReadError::Overflow)
        }
    } else {
        if b < 0x80 {
            Ok(b as u64)
        } else {
            proof {
                lemma_leb_read_bound(s.skip(1), (slots - 1) as nat, limit);
                lemma_pow2_adds(7, 7 * (slots - 2) as nat);
                lemma_pow2_pos(7 * (slots - 2) as nat);
                assert(0x80 * pow2(7 * (slots - 2) as nat) * limit == pow2(7 * (slots - 1) as nat) * limit)
                    by (nonlinear_arith)
                    requires
                        pow2(7 * (slots - 1) as nat) == 0x80 * pow2(7 * (slots - 2) as nat),
                ;
                assert(pow2(7 * (slots - 2) as nat) * limit <= pow2(64)) by (nonlinear_arith)
                    requires
                        0x80 * pow2(7 * (slots - 2) as nat) * limit <= pow2(64),
                        pow2(7 * (slots - 2) as nat) >= 1,
                        limit >= 1,
                ;
            }
            match read_leb(buf, slots - 1, limit) {
                Ok(rest_v) => {
                    proof {
                        let p = pow2(7 * (slots - 2) as nat);
                        assert(0x80 * (p * limit) == pow2(7 * (slots - 1) as nat) * limit)
                            by (nonlinear_arith)
                            requires
                                pow2(7 * (slots - 1) as nat) == 0x80 * p,
                        ;
                        assert((b - 0x80) + 0x80 * rest_v < pow2(64)) by (nonlinear_arith)
                            requires
                                rest_v < p * limit,
                                b < 0x100,
                                0x80 * (p * limit) <= pow2(64),
                                p >= 1,
                                limit >= 1,
                        ;
                        let n_inner = leb_read(s.skip(1), (slots - 1) as nat, limit)->Value_n;
                        assert(buf.remaining() =~= s.skip(1 + n_inner as int));
                    }
                    Ok(((b - 0x80) as u64) + 0x80 * rest_v)
                },
                Err(e) => {
                    proof {
                        if leb_read(s.skip(1), (slots - 1) as nat, limit) is Overflow {
                            let n_inner = leb_read(
                                s.skip(1),
                                (slots - 1) as nat,
                                limit,
                            )->Overflow_n;
                            assert(buf.remaining() =~= s.skip(1 + n_inner as int));
                        }
                    }
                    Err(e)
                },
            }
        }
    }
}

/// A 32-bit variable-length integer.
pub struct VarInt(pub i32);

/// A 64-bit variable-length integer.
pub struct VarLong(pub i64);

impl VarInt {
    /// The LEB128 bytes of this value.
    pub fn to_bytes(&self) -> (r: Vec<u8>)
        ensures
            r@ == varint_bytes(self.0),
    {
        let mut buf: Vec<u8> = Vec::new();
        buf.write_varint(self.0);
        proof {
            assert(buf@ =~= varint_bytes(self.0));
        }
        buf
    }
}

impl VarLong {
    /// The LEB128 bytes of this value.
    pub fn to_bytes(&self) -> (r: Vec<u8>)
        ensures
            r@ == varlong_bytes(self.0),
    {
        let mut buf: Vec<u8> = Vec::new();
        buf.write_varlong(self.0);
        proof {
            assert(buf@ =~= varlong_bytes(self.0));
        }
        buf
    }
}

pub trait ReadVarInt {
    /// Reads one VarInt field; on success the field's bytes are consumed,
    /// on overflow the whole malformed field is consumed.
    fn read_varint(&mut self) -> (r: Result<i32, ReadError>) where Self: Sized
        requires
            old(self).pre_read(),
        ensures
            final(self).post_read_varint(*old(self), r),
    ;

    spec fn pre_read(&self) -> bool;

    spec fn post_read_varint(&self, pre: Self, r: Result<i32, ReadError>) -> bool where Self: Sized;
}

pub trait ReadVarLong {
    /// Reads one VarLong field.
    fn read_varlong(&mut self) -> (r: Result<i64, ReadError>) where Self: Sized
        requires
            old(self).pre_read(),
        ensures
            final(self).post_read_varlong(*old(self), r),
    ;

    spec fn pre_read(&self) -> bool;

    spec fn post_read_varlong(&self, pre: Self, r: Result<i64, ReadError>) -> bool where Self: Sized;
}

impl ReadVarInt for PacketBuf {
    open spec fn pre_read(&self) -> bool {
        self.wf()
    }

    open spec fn post_read_varint(&self, pre: Self, r: Result<i32, ReadError>) -> bool {
        &&& self.wf()
        &&& self.data@ == pre.data@
        &&& match varint_read(pre.remaining()) {
            LebRead::Value { v, n } => r == Ok::<i32, ReadError>(((v as u32) as i32))
                && self.remaining() == pre.remaining().skip(n as int),
            LebRead::Overflow { n } => r == Err::<i32, ReadError>(ReadError::Overflow)
                && self.remaining() == pre.remaining().skip(n as int),
            LebRead::Eof => r == Err::<i32, ReadError>(ReadError::EndOfFile),
        }
    }

    fn read_varint(&mut self) -> (r: Result<i32, ReadError>) {
        proof {
            lemma2_to64();
            lemma2_to64_rest();
            assert(pow2(28) * 0x10 <= pow2(64));
            lemma_leb_read_bound(self.remaining(), 5, 0x10);
        }
        match read_leb(self, 5, 0x10) {
            Ok(v) => Ok((v as u32) as i32),
            Err(e) => Err(e),
        }
    }
}

impl ReadVarLong for PacketBuf {
    open spec fn pre_read(&self) -> bool {
        self.wf()
    }

    open spec fn post_read_varlong(&self, pre: Self, r: Result<i64, ReadError>) -> bool {
        &&& self.wf()
        &&& self.data@ == pre.data@
        &&& match varlong_read(pre.remaining()) {
            LebRead::Value { v, n } => r == Ok::<i64, ReadError>(((v as u64) as i64))
                && self.remaining() == pre.remaining().skip(n as int),
            LebRead::Overflow { n } => r == Err::<i64, ReadError>(ReadError::Overflow)
                && self.remaining() == pre.remaining().skip(n as int),
            LebRead::Eof => r == Err::<i64, ReadError>(ReadError::EndOfFile),
        }
    }

    fn read_varlong(&mut self) -> (r: Result<i64, ReadError>) {
        proof {
            lemma2_to64();
            lemma2_to64_rest();
            assert(pow2(63) * 0x02 <= pow2(64)) by {
                lemma2_to64_rest();
            }
            lemma_leb_read_bound(self.remaining(), 10, 0x02);
        }
        match read_leb(self, 10, 0x02) {
            Ok(v) => Ok(v as i64),
            Err(e) => Err(e),
        }
    }
}

pub trait WriteVarInt {
    /// Appends one VarInt field; returns how many bytes were written.
    fn write_varint(&mut self, value: i32) -> (n: usize) where Self: Sized
        ensures
            final(self).post_write_varint(*old(self), value, n),
    ;

    spec fn post_write_varint(&self, pre: Self, value: i32, n: usize) -> bool where Self: Sized;
}

pub trait WriteVarLong {
    /// Appends one VarLong field; returns how many bytes were written.
    fn write_varlong(&mut self, value: i64) -> (n: usize) where Self: Sized
        ensures
            final(self).post_write_varlong(*old(self), value, n),
    ;

    spec fn post_write_varlong(&self, pre: Self, value: i64, n: usize) -> bool where Self: Sized;
}

impl WriteVarInt for Vec<u8> {
    open spec fn post_write_varint(&self, pre: Self, value: i32, n: usize) -> bool {
        self@ == pre@ + varint_bytes(value) && n == varint_bytes(value).len()
    }

    fn write_varint(&mut self, value: i32) -> (n: usize) {
        let before = self.len();
        write_leb(self, (value as u32) as u64);
        self.len() - before
    }
}

impl WriteVarLong for Vec<u8> {
    open spec fn post_write_varlong(&self, pre: Self, value: i64, n: usize) -> bool {
        self@ == pre@ + varlong_bytes(value) && n == varlong_bytes(value).len()
    }

    fn write_varlong(&mut self, value: i64) -> (n: usize) {
        let before = self.len();
        write_leb(self, value as u64);
        self.len() - before
    }
}

/// Spec parser: one VarInt field at the head of `s`.
pub open spec fn p_varint(s: Seq<u8>) -> Result<(i32, Seq<u8>), ReadError> {
    match varint_read(s) {
        LebRead::Value { v, n } => Ok((((v as u32) as i32), s.skip(n as int))),
        LebRead::Overflow { n } => Err(ReadError::Overflow),
        LebRead::Eof => Err(ReadError::EndOfFile),
    }
}

/// Spec parser: one VarLong field at the head of `s`.
pub open spec fn p_varlong(s: Seq<u8>) -> Result<(i64, Seq<u8>), ReadError> {
    match varlong_read(s) {
        LebRead::Value { v, n } => Ok((((v as u64) as i64), s.skip(n as int))),
        LebRead::Overflow { n } => Err(ReadError::Overflow),
        LebRead::Eof => Err(ReadError::EndOfFile),
    }
}

/// Round trip in parser form: a VarInt field followed by anything parses to
/// the value and leaves exactly that remainder.
pub proof fn lemma_p_varint(v: i32, rest: Seq<u8>)
    ensures
        p_varint(varint_bytes(v) + rest) == Ok::<(i32, Seq<u8>), ReadError>((v, rest)),
{
    lemma_varint_roundtrip(v, rest);
    assert((varint_bytes(v) + rest).skip(varint_bytes(v).len() as int) =~= rest);
}

/// Round trip in parser form for VarLong.
pub proof fn lemma_p_varlong(v: i64, rest: Seq<u8>)
    ensures
        p_varlong(varlong_bytes(v) + rest) == Ok::<(i64, Seq<u8>), ReadError>((v, rest)),
{
    lemma_varlong_roundtrip(v, rest);
    assert((varlong_bytes(v) + rest).skip(varlong_bytes(v).len() as int) =~= rest);
}

} // verus!
