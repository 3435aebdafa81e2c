//! The paletted chunk-section codec: 4096 block-state ids bit-packed into
//! 64-bit words, with a single-value, indirect (local palette) or direct
//! layout chosen by the number of distinct ids. Entries never span a word
//! boundary; unused high bits of a word stay zero.

use vstd::arithmetic::div_mod::lemma_fundamental_div_mod_converse;
use vstd::arithmetic::power2::*;
use vstd::prelude::*;

use crate::dimension::Dimension;
use crate::reader::{be_bytes, p_u16, p_u8, write_be, PacketBuf};
use crate::util::ReadError;
use crate::varint::{
    lemma_p_varint, p_varint, varint_bytes, ReadVarInt, WriteVarInt,
};

verus! {

/// The three block-state ids the running block count leaves out.
pub open spec fn is_air(id: u16) -> bool {
    id == 0 || id == 12817 || id == 12818
}

/// How many entries of a section are not air.
pub open spec fn non_air_count(s: Seq<u16>) -> nat
    decreases s.len(),
{
    if s.len() == 0 {
        0
    } else {
        non_air_count(s.drop_last()) + if is_air(s.last()) {
            0nat
        } else {
            1nat
        }
    }
}

pub proof fn lemma_non_air_count_bound(s: Seq<u16>)
    ensures
        non_air_count(s) <= s.len(),
    decreases s.len(),
{
    if s.len() > 0 {
        lemma_non_air_count_bound(s.drop_last());
    }
}

/// Whether a sequence is strictly increasing, so sorted and duplicate-free.
pub open spec fn strictly_sorted(s: Seq<u16>) -> bool {
    forall|i: int, j: int| 0 <= i < j < s.len() ==> s[i] < s[j]
}

/// How many entries of `s` are below `x`: the insertion point of `x` in a
/// strictly sorted sequence.
pub open spec fn count_lt(s: Seq<u16>, x: u16) -> nat
    decreases s.len(),
{
    if s.len() == 0 {
        0
    } else {
        count_lt(s.drop_last(), x) + if s.last() < x {
            1nat
        } else {
            0nat
        }
    }
}

proof fn lemma_count_lt_sorted(s: Seq<u16>, x: u16)
    requires
        strictly_sorted(s),
    ensures
        count_lt(s, x) <= s.len(),
        forall|i: int| 0 <= i < count_lt(s, x) ==> s[i] < x,
        forall|i: int| count_lt(s, x) <= i < s.len() ==> s[i] >= x,
    decreases s.len(),
{
    if s.len() > 0 {
        assert(strictly_sorted(s.drop_last()));
        lemma_count_lt_sorted(s.drop_last(), x);
        let c = count_lt(s.drop_last(), x);
        assert(forall|i: int| 0 <= i < s.len() - 1 ==> #[trigger] s.drop_last()[i] == s[i]);
        if s.last() < x {
            // Everything before the last entry is smaller still.
            assert(forall|i: int| 0 <= i < s.len() - 1 ==> #[trigger] s[i] < s[s.len() - 1]);
            assert(c == s.len() - 1) by {
                if c < s.len() - 1 {
                    assert(s.drop_last()[c as int] == s[c as int]);
                    assert(s[c as int] >= x);
                    assert(s[c as int] < s[s.len() - 1]);
                }
            }
        }
        let c2 = count_lt(s, x);
        assert forall|i: int| 0 <= i < c2 implies s[i] < x by {
            if i < s.len() - 1 {
                assert(s.drop_last()[i] < x);
                assert(s.drop_last()[i] == s[i]);
            }
        }
        assert forall|i: int| c2 <= i < s.len() implies s[i] >= x by {
            if i < s.len() - 1 {
                assert(s.drop_last()[i] >= x);
                assert(s.drop_last()[i] == s[i]);
            }
        }
    }
}

/// `s` with `x` put in sorted position, or `s` itself if already present.
pub open spec fn sorted_insert(s: Seq<u16>, x: u16) -> Seq<u16> {
    if s.contains(x) {
        s
    } else {
        let j = count_lt(s, x) as int;
        s.take(j) + seq![x] + s.skip(j)
    }
}

proof fn lemma_sorted_insert(s: Seq<u16>, x: u16)
    requires
        strictly_sorted(s),
    ensures
        strictly_sorted(sorted_insert(s, x)),
        sorted_insert(s, x).contains(x),
        forall|y: u16| #[trigger] sorted_insert(s, x).contains(y) <==> s.contains(y) || y == x,
        s.contains(x) ==> sorted_insert(s, x) == s,
        !s.contains(x) ==> sorted_insert(s, x).len() == s.len() + 1,
{
    lemma_count_lt_sorted(s, x);
    if !s.contains(x) {
        let j = count_lt(s, x) as int;
        let r = s.take(j) + seq![x] + s.skip(j);
        assert(forall|i: int| 0 <= i < s.len() ==> s[i] != x);
        assert(forall|i: int| j <= i < s.len() ==> s[i] > x);
        assert(r[j] == x);
        assert(strictly_sorted(r)) by {
            assert(forall|i: int| 0 <= i < j ==> r[i] == s[i]);
            assert(forall|i: int| j < i < r.len() ==> r[i] == s[i - 1]);
        }
        assert(r.contains(x));
        assert forall|y: u16| #[trigger] r.contains(y) implies s.contains(y) || y == x by {
            let i = choose|i: int| 0 <= i < r.len() && r[i] == y;
            if i < j {
                assert(s[i] == y);
            } else if i > j {
                assert(s[i - 1] == y);
            }
        }
        assert forall|y: u16| s.contains(y) implies r.contains(y) by {
            let i = choose|i: int| 0 <= i < s.len() && s[i] == y;
            if i < j {
                assert(r[i] == y);
            } else {
                assert(r[i + 1] == y);
            }
        }
    }
}

/// The sorted, deduplicated distinct values of `s`: its local palette.
pub open spec fn palette_of(s: Seq<u16>) -> Seq<u16>
    decreases s.len(),
{
    if s.len() == 0 {
        Seq::empty()
    } else {
        sorted_insert(palette_of(s.drop_last()), s.last())
    }
}

pub proof fn lemma_palette_of(s: Seq<u16>)
    ensures
        strictly_sorted(palette_of(s)),
        forall|y: u16| #[trigger] palette_of(s).contains(y) <==> s.contains(y),
        palette_of(s).len() <= s.len(),
    decreases s.len(),
{
    if s.len() == 0 {
        assert(forall|y: u16| !s.contains(y));
    } else {
        lemma_palette_of(s.drop_last());
        lemma_sorted_insert(palette_of(s.drop_last()), s.last());
        let r = palette_of(s);
        assert forall|y: u16| #[trigger] r.contains(y) implies s.contains(y) by {
            if y == s.last() {
                assert(s[s.len() - 1] == y);
            } else {
                let i = choose|i: int| 0 <= i < s.len() - 1 && s.drop_last()[i] == y;
                assert(s[i] == y);
            }
        }
        assert forall|y: u16| s.contains(y) implies r.contains(y) by {
            let i = choose|i: int| 0 <= i < s.len() && s[i] == y;
            if i < s.len() - 1 {
                assert(s.drop_last()[i] == y);
            }
        }
    }
}

/// The position of the first occurrence of `b` in `pal`.
pub open spec fn pal_index(pal: Seq<u16>, b: u16) -> int
    decreases pal.len(),
{
    if pal.len() == 0 {
        0
    } else if pal[0] == b {
        0
    } else {
        1 + pal_index(pal.skip(1), b)
    }
}

pub proof fn lemma_pal_index(pal: Seq<u16>, b: u16)
    requires
        pal.contains(b),
    ensures
        0 <= pal_index(pal, b) < pal.len(),
        pal[pal_index(pal, b)] == b,
    decreases pal.len(),
{
    if pal[0] != b {
        let i = choose|i: int| 0 <= i < pal.len() && pal[i] == b;
        assert(pal.skip(1)[i - 1] == b);
        lemma_pal_index(pal.skip(1), b);
    }
}

/// Characterisation of `pal_index` as the first matching position.
pub proof fn lemma_pal_index_at(pal: Seq<u16>, b: u16, j: int)
    requires
        0 <= j < pal.len(),
        pal[j] == b,
        forall|i: int| 0 <= i < j ==> pal[i] != b,
    ensures
        pal_index(pal, b) == j,
    decreases j,
{
    if j > 0 {
        assert(pal.skip(1)[j - 1] == b);
        assert(forall|i: int| 0 <= i < j - 1 ==> pal.skip(1)[i] == pal[i + 1]);
        lemma_pal_index_at(pal.skip(1), b, j - 1);
    }
}

/// The value of a word holding `digits` in base `base`, lowest digit first.
pub open spec fn word_val(digits: Seq<u64>, base: nat) -> nat
    decreases digits.len(),
{
    if digits.len() == 0 {
        0
    } else {
        (digits[0] + base * word_val(digits.skip(1), base)) as nat
    }
}

/// The low `count` digits of `w` in base `base`.
pub open spec fn word_digits(w: nat, base: nat, count: nat) -> Seq<u64>
    decreases count,
{
    if count == 0 {
        Seq::empty()
    } else {
        seq![(w % base) as u64] + word_digits(w / base, base, (count - 1) as nat)
    }
}

pub proof fn lemma_word_val_bound(digits: Seq<u64>, bpe: nat)
    requires
        forall|i: int| 0 <= i < digits.len() ==> digits[i] < pow2(bpe),
    ensures
        word_val(digits, pow2(bpe)) < pow2(bpe * digits.len()),
    decreases digits.len(),
{
    lemma_pow2_pos(bpe);
    lemma_pow2_pos(bpe * digits.len());
    if digits.len() > 0 {
        assert(forall|i: int| 0 <= i < digits.skip(1).len() ==> digits.skip(1)[i] == digits[i + 1]);
        lemma_word_val_bound(digits.skip(1), bpe);
        let p = pow2(bpe);
        let r = word_val(digits.skip(1), pow2(bpe));
        lemma_pow2_adds(bpe, bpe * (digits.len() - 1) as nat);
        assert(bpe * digits.len() == bpe + bpe * (digits.len() - 1) as nat) by (nonlinear_arith)
            requires
                digits.len() >= 1,
        ;
        assert(digits[0] + p * r < p * pow2(bpe * (digits.len() - 1) as nat)) by (nonlinear_arith)
            requires
                digits[0] < p,
                r < pow2(bpe * (digits.len() - 1) as nat),
                p >= 1,
        ;
    }
}

/// Unpacking a packed word gives back its digits, padded with zeroes up to
/// the word's digit capacity.
pub proof fn lemma_word_roundtrip(digits: Seq<u64>, base: nat, count: nat)
    requires
        base >= 2,
        digits.len() <= count,
        forall|i: int| 0 <= i < digits.len() ==> digits[i] < base,
    ensures
        word_digits(word_val(digits, base), base, count) == digits + Seq::new(
            (count - digits.len()) as nat,
            |i: int| 0u64,
        ),
    decreases count,
{
    if count == 0 {
        assert(word_digits(0, base, 0) =~= digits + Seq::new(0, |i: int| 0u64));
    } else if digits.len() == 0 {
        assert(word_val(digits, base) == 0);
        assert(0nat % base == 0) by (nonlinear_arith)
            requires
                base >= 2,
        ;
        assert(0nat / base == 0) by (nonlinear_arith)
            requires
                base >= 2,
        ;
        lemma_word_roundtrip(digits, base, (count - 1) as nat);
        assert(word_digits(0, base, count) =~= digits + Seq::new(count, |i: int| 0u64));
    } else {
        let d0 = digits[0];
        let rest = digits.skip(1);
        let r = word_val(rest, base);
        let w = word_val(digits, base);
        assert(w as int == (r as int) * (base as int) + (d0 as int)) by (nonlinear_arith)
            requires
                w == (d0 + base * r) as nat,
                base >= 2,
        ;
        lemma_fundamental_div_mod_converse(w as int, base as int, r as int, d0 as int);
        assert(w % base == d0);
        assert(w / base == r);
        assert(forall|i: int| 0 <= i < rest.len() ==> rest[i] == digits[i + 1]);
        lemma_word_roundtrip(rest, base, (count - 1) as nat);
        assert(word_digits(w, base, count) =~= digits + Seq::new(
            (count - digits.len()) as nat,
            |i: int| 0u64,
        ));
    }
}

/// Packs digits into words of `per` digits each; the last word may hold fewer.
pub open spec fn pack_words(digits: Seq<u64>, per: nat, base: nat) -> Seq<u64>
    decreases digits.len(),
{
    if digits.len() == 0 || per == 0 {
        Seq::empty()
    } else if digits.len() <= per {
        seq![word_val(digits, base) as u64]
    } else {
        seq![word_val(digits.take(per as int), base) as u64] + pack_words(
            digits.skip(per as int),
            per,
            base,
        )
    }
}

/// All digits of a word sequence, `per` from each word.
pub open spec fn all_digits(words: Seq<u64>, base: nat, per: nat) -> Seq<u64>
    decreases words.len(),
{
    if words.len() == 0 {
        Seq::empty()
    } else {
        word_digits(words[0] as nat, base, per) + all_digits(words.skip(1), base, per)
    }
}

/// How many words a digit sequence packs into: the round-up quotient.
pub open spec fn word_count(n: nat, per: nat) -> nat {
    ((n + per - 1) as nat) / per
}

pub proof fn lemma_pack_words_len(digits: Seq<u64>, per: nat, base: nat)
    requires
        per >= 1,
        digits.len() >= 1,
    ensures
        pack_words(digits, per, base).len() == word_count(digits.len(), per),
        pack_words(digits, per, base).len() >= 1,
    decreases digits.len(),
{
    let n = digits.len();
    if n <= per {
        assert(word_count(n, per) == 1) by (nonlinear_arith)
            requires
                1 <= n <= per,
        ;
    } else {
        lemma_pack_words_len(digits.skip(per as int), per, base);
        assert(word_count((n - per) as nat, per) + 1 == word_count(n, per)) by (nonlinear_arith)
            requires
                n > per >= 1,
        ;
    }
}

/// Unpacking a packed digit sequence gives the digits back, whatever zero
/// padding fills out the final word.
pub proof fn lemma_pack_roundtrip(digits: Seq<u64>, bpe: nat, per: nat)
    requires
        1 <= bpe,
        1 <= per,
        bpe * per <= 64,
        forall|i: int| 0 <= i < digits.len() ==> digits[i] < pow2(bpe),
    ensures
        all_digits(pack_words(digits, per, pow2(bpe)), pow2(bpe), per).take(digits.len() as int)
            == digits,
        all_digits(pack_words(digits, per, pow2(bpe)), pow2(bpe), per).len() >= digits.len(),
    decreases digits.len(),
{
    let base = pow2(bpe);
    lemma_pow2_pos(bpe);
    assert(base >= 2) by {
        lemma2_to64();
        if bpe > 1 {
            lemma_pow2_strictly_increases(1, bpe);
        }
    }
    if digits.len() == 0 {
        assert(all_digits(pack_words(digits, per, base), base, per).take(0) =~= digits);
    } else if digits.len() <= per {
        let w = word_val(digits, base);
        lemma_word_val_bound(digits, bpe);
        assert(pow2(bpe * digits.len()) <= pow2(64)) by {
            if bpe * digits.len() < 64 {
                lemma_pow2_strictly_increases(bpe * digits.len(), 64);
            }
            assert(bpe * digits.len() <= bpe * per) by (nonlinear_arith)
                requires
                    digits.len() <= per,
                    bpe >= 1,
            ;
        }
        lemma2_to64();
        lemma2_to64_rest();
        assert(w < pow2(64));
        let ws = pack_words(digits, per, base);
        assert(ws =~= seq![w as u64]);
        assert(ws.skip(1) =~= Seq::<u64>::empty());
        assert(ws[0] as nat == w);
        lemma_word_roundtrip(digits, base, per);
        assert(all_digits(ws.skip(1), base, per) =~= Seq::<u64>::empty());
        assert(all_digits(ws, base, per) == word_digits(w, base, per) + all_digits(
            ws.skip(1),
            base,
            per,
        ));
        assert(all_digits(ws, base, per) =~= word_digits(w, base, per));
        assert(all_digits(ws, base, per).take(digits.len() as int) =~= digits);
    } else {
        let chunk = digits.take(per as int);
        let rest = digits.skip(per as int);
        assert(forall|i: int| 0 <= i < chunk.len() ==> chunk[i] == digits[i]);
        assert(forall|i: int| 0 <= i < rest.len() ==> rest[i] == digits[i + per]);
        let w = word_val(chunk, base);
        lemma_word_val_bound(chunk, bpe);
        assert(pow2(bpe * per) <= pow2(64)) by {
            if bpe * per < 64 {
                lemma_pow2_strictly_increases(bpe * per, 64);
            }
        }
        lemma2_to64();
        lemma2_to64_rest();
        assert(w < pow2(64));
        lemma_word_roundtrip(chunk, base, per);
        assert(word_digits(w, base, per) =~= chunk);
        lemma_pack_roundtrip(rest, bpe, per);
        let ws = pack_words(digits, per, base);
        assert(ws.skip(1) =~= pack_words(rest, per, base));
        assert(ws[0] as nat == w);
        let tail = all_digits(pack_words(rest, per, base), base, per);
        assert(all_digits(ws, base, per) == word_digits(ws[0] as nat, base, per) + all_digits(
            ws.skip(1),
            base,
            per,
        ));
        assert(all_digits(ws, base, per) == chunk + tail);
        assert((chunk + tail).take(digits.len() as int) =~= chunk + tail.take(rest.len() as int));
        assert(chunk + rest =~= digits);
    }
}


/// Bits per entry for a given number of distinct values: the breakpoint
/// table. One value or fewer packs as single-valued (0); up to 255 distinct
/// values use an indirect local palette; beyond that, direct global ids.
pub open spec fn bpe_for(distinct: nat) -> nat {
    if distinct <= 1 {
        0
    } else if distinct <= 15 {
        4
    } else if distinct <= 31 {
        5
    } else if distinct <= 63 {
        6
    } else if distinct <= 127 {
        7
    } else if distinct <= 255 {
        8
    } else {
        15
    }
}

/// How many entries one 64-bit word holds at `bpe` bits each.
pub open spec fn per_word(bpe: nat) -> nat {
    64nat / bpe
}

/// Palette indices of each block, as packable digits.
pub open spec fn indices_of(blocks: Seq<u16>, pal: Seq<u16>) -> Seq<u64> {
    blocks.map_values(|b: u16| pal_index(pal, b) as u64)
}

/// Global state ids of each block, as packable digits for direct mode.
pub open spec fn direct_digits(blocks: Seq<u16>) -> Seq<u64> {
    blocks.map_values(|b: u16| b as u64)
}

/// The VarInt encodings of a palette, in order.
pub open spec fn varints_of(vals: Seq<u16>) -> Seq<u8>
    decreases vals.len(),
{
    if vals.len() == 0 {
        Seq::empty()
    } else {
        varints_of(vals.drop_last()) + varint_bytes(vals.last() as i32)
    }
}

/// The big-endian bytes of a word sequence.
pub open spec fn words_bytes(ws: Seq<u64>) -> Seq<u8>
    decreases ws.len(),
{
    if ws.len() == 0 {
        Seq::empty()
    } else {
        words_bytes(ws.drop_last()) + be_bytes(ws.last() as nat, 8)
    }
}

/// The block-states container of one section: bits-per-entry, then (by mode)
/// the single value, or the palette and the packed data array.
pub open spec fn spec_block_states(blocks: Seq<u16>) -> Seq<u8> {
    let pal = palette_of(blocks);
    let bpe = bpe_for(pal.len());
    if bpe == 0 {
        seq![0u8] + varint_bytes(blocks[0] as i32) + varint_bytes(0)
    } else if bpe <= 8 {
        let words = pack_words(indices_of(blocks, pal), per_word(bpe), pow2(bpe));
        seq![bpe as u8] + varint_bytes(pal.len() as i32) + varints_of(pal) + varint_bytes(
            words.len() as i32,
        ) + words_bytes(words)
    } else {
        let words = pack_words(direct_digits(blocks), per_word(15), pow2(15));
        seq![15u8] + varint_bytes(words.len() as i32) + words_bytes(words)
    }
}

/// The trivial always-single-valued biome container.
pub open spec fn biome_bytes() -> Seq<u8> {
    seq![0u8] + varint_bytes(56) + varint_bytes(0)
}

/// The full wire form of one section: the non-air block count, the block
/// states container, the biome container.
pub open spec fn spec_section_bytes(blocks: Seq<u16>) -> Seq<u8> {
    be_bytes(non_air_count(blocks), 2) + spec_block_states(blocks) + biome_bytes()
}

/// Puts `x` into a strictly sorted palette, keeping it sorted and
/// duplicate-free.
fn palette_insert(pal: &mut Vec<u16>, x: u16)
    requires
        strictly_sorted(old(pal)@),
    ensures
        final(pal)@ == sorted_insert(old(pal)@, x),
        strictly_sorted(final(pal)@),
{
    let ghost s = old(pal)@;
    proof {
        lemma_count_lt_sorted(s, x);
        lemma_sorted_insert(s, x);
    }
    let mut j: usize = 0;
    while j < pal.len() && pal[j] < x
        invariant
            pal@ == s,
            j <= s.len(),
            strictly_sorted(s),
            forall|i: int| 0 <= i < j ==> s[i] < x,
        decreases s.len() - j,
    {
        j = j + 1;
    }
    proof {
        let c = count_lt(s, x) as int;
        if j < c {
            assert(s[j as int] < x);
            assert(false);
        }
        if j > c {
            assert(s[c] < x);
            assert(s[c] >= x);
            assert(false);
        }
    }
    if j < pal.len() && pal[j] == x {
        proof {
            assert(s.contains(x));
        }
    } else {
        proof {
            assert forall|i: int| 0 <= i < s.len() implies s[i] != x by {
                if i >= j {
                    if j < s.len() {
                        assert(s[j as int] >= x);
                        assert(s[j as int] != x);
                        if i > j {
                            assert(s[i] > s[j as int]);
                        }
                    }
                }
            }
            if s.contains(x) {
                let w = choose|i: int| 0 <= i < s.len() && s[i] == x;
                assert(false);
            }
        }
        pal.insert(j, x);
        proof {
            assert(pal@ =~= sorted_insert(s, x));
        }
    }
}

/// The position of `b` in the palette, mirroring [`pal_index`].
fn find_index(pal: &Vec<u16>, b: u16) -> (r: usize)
    requires
        pal@.contains(b),
    ensures
        r < pal@.len(),
        pal@[r as int] == b,
        r == pal_index(pal@, b),
{
    let mut j: usize = 0;
    while j < pal.len()
        invariant
            j <= pal@.len(),
            pal@.contains(b),
            forall|i: int| 0 <= i < j ==> pal@[i] != b,
        decreases pal@.len() - j,
    {
        if pal[j] == b {
            proof {
                lemma_pal_index_at(pal@, b, j as int);
            }
            return j;
        }
        j = j + 1;
    }
    proof {
        let w = choose|i: int| 0 <= i < pal@.len() && pal@[i] == b;
        assert(false);
    }
    0
}

/// One packed word from `count` digits starting at `start`, lowest digit in
/// the low bits.
fn build_word(digits: &Vec<u64>, start: usize, count: usize, bpe: usize, base: u64) -> (r: u64)
    requires
        start + count <= digits@.len(),
        1 <= bpe <= 15,
        base == pow2(bpe as nat),
        count * bpe <= 64,
        forall|i: int| 0 <= i < digits@.len() ==> digits@[i] < base,
    ensures
        r == word_val(digits@.subrange(start as int, (start + count) as int), base as nat),
    decreases count,
{
    if count == 0 {
        proof {
            assert(digits@.subrange(start as int, start as int).len() == 0);
        }
        0
    } else {
        let n = digits.len();
        proof {
            assert((count - 1) * bpe <= count * bpe) by (nonlinear_arith)
                requires
                    count >= 1,
                    bpe >= 0,
            ;
        }
        let rest = build_word(digits, start + 1, count - 1, bpe, base);
        proof {
            let whole = digits@.subrange(start as int, (start + count) as int);
            let tail = digits@.subrange((start + 1) as int, (start + count) as int);
            assert(whole.skip(1) =~= tail);
            assert(whole[0] == digits@[start as int]);
            assert(forall|i: int| 0 <= i < tail.len() ==> tail[i] == digits@[start + 1 + i]);
            lemma_word_val_bound(tail, bpe as nat);
            lemma_pow2_adds(bpe as nat, (bpe * (count - 1)) as nat);
            assert(bpe * count == bpe + bpe * (count - 1)) by (nonlinear_arith)
                requires
                    count >= 1,
            ;
            assert(bpe * count <= 64) by (nonlinear_arith)
                requires
                    count * bpe <= 64,
            ;
            assert(pow2((bpe * count) as nat) <= pow2(64)) by {
                if bpe * count < 64 {
                    lemma_pow2_strictly_increases((bpe * count) as nat, 64);
                }
            }
            lemma2_to64();
            lemma2_to64_rest();
            assert(digits@[start as int] + base * word_val(tail, base as nat) < pow2(
                (bpe * count) as nat,
            )) by (nonlinear_arith)
                requires
                    digits@[start as int] < base,
                    word_val(tail, base as nat) < pow2((bpe * (count - 1)) as nat),
                    pow2((bpe * count) as nat) == base * pow2((bpe * (count - 1)) as nat),
                    base >= 1,
            ;
        }
        digits[start] + base * rest
    }
}


/// All blocks of one encodable section: 4096 entries, each id below `2^15`
/// so that even direct mode packs without loss.
pub open spec fn section_wf(blocks: Seq<u16>) -> bool {
    blocks.len() == 4096 && (forall|i: int| 0 <= i < blocks.len() ==> blocks[i] < 0x8000)
}

/// Counts the non-air entries of a section.
fn count_non_air(blocks: &Vec<u16>) -> (r: u16)
    requires
        blocks@.len() == 4096,
    ensures
        r == non_air_count(blocks@),
{
    let mut count: u16 = 0;
    let mut i: usize = 0;
    proof {
        assert(blocks@.take(0) =~= Seq::<u16>::empty());
    }
    while i < 4096
        invariant
            blocks@.len() == 4096,
            i <= 4096,
            count == non_air_count(blocks@.take(i as int)),
            count <= i,
        decreases 4096 - i,
    {
        proof {
            assert(blocks@.take(i + 1).drop_last() =~= blocks@.take(i as int));
            assert(blocks@.take(i + 1).last() == blocks@[i as int]);
        }
        let b = blocks[i];
        if !(b == 0 || b == 12817 || b == 12818) {
            count = count + 1;
        }
        i = i + 1;
    }
    proof {
        assert(blocks@.take(4096) =~= blocks@);
    }
    count
}

/// Builds the sorted, deduplicated palette of a section.
fn build_palette(blocks: &Vec<u16>) -> (pal: Vec<u16>)
    ensures
        pal@ == palette_of(blocks@),
        strictly_sorted(pal@),
{
    let mut pal: Vec<u16> = Vec::new();
    let mut i: usize = 0;
    proof {
        assert(blocks@.take(0) =~= Seq::<u16>::empty());
    }
    while i < blocks.len()
        invariant
            i <= blocks@.len(),
            pal@ == palette_of(blocks@.take(i as int)),
            strictly_sorted(pal@),
        decreases blocks@.len() - i,
    {
        proof {
            assert(blocks@.take(i + 1).drop_last() =~= blocks@.take(i as int));
            assert(blocks@.take(i + 1).last() == blocks@[i as int]);
        }
        palette_insert(&mut pal, blocks[i]);
        i = i + 1;
    }
    proof {
        assert(blocks@.take(blocks@.len() as int) =~= blocks@);
    }
    pal
}

/// Packs 4096 digits into non-spanning 64-bit words.
fn pack_digits(digits: &Vec<u64>, per: usize, bpe: usize, base: u64) -> (words: Vec<u64>)
    requires
        digits@.len() == 4096,
        1 <= bpe <= 15,
        base == pow2(bpe as nat),
        per == 64nat / bpe as nat,
        forall|i: int| 0 <= i < digits@.len() ==> digits@[i] < base,
    ensures
        words@ == pack_words(digits@, per as nat, base as nat),
        words@.len() <= 4096,
{
    proof {
        assert(per * bpe <= 64) by (nonlinear_arith)
            requires
                per == 64nat / bpe as nat,
                1 <= bpe,
        ;
        assert(per >= 1) by (nonlinear_arith)
            requires
                per == 64nat / bpe as nat,
                1 <= bpe <= 15,
        ;
    }
    let mut words: Vec<u64> = Vec::new();
    let mut start: usize = 0;
    proof {
        assert(digits@.skip(0) =~= digits@);
    }
    while start < 4096
        invariant
            digits@.len() == 4096,
            forall|i: int| 0 <= i < digits@.len() ==> digits@[i] < base,
            start <= 4096,
            1 <= bpe <= 15,
            base == pow2(bpe as nat),
            per >= 1,
            per * bpe <= 64,
            words@.len() <= start,
            pack_words(digits@, per as nat, base as nat) == words@ + pack_words(
                digits@.skip(start as int),
                per as nat,
                base as nat,
            ),
        decreases 4096 - start,
    {
        let cnt = if 4096 - start < per {
            4096 - start
        } else {
            per
        };
        proof {
            assert(cnt * bpe <= per * bpe) by (nonlinear_arith)
                requires
                    cnt <= per,
                    bpe >= 0,
            ;
        }
        let w = build_word(digits, start, cnt, bpe, base);
        let ghost pre = words@;
        words.push(w);
        proof {
            let d = digits@.skip(start as int);
            let chunk = digits@.subrange(start as int, (start + cnt) as int);
            if d.len() <= per {
                assert(d =~= chunk);
                assert(digits@.skip((start + cnt) as int) =~= Seq::<u64>::empty());
                assert(pack_words(d, per as nat, base as nat) =~= seq![w]);
            } else {
                assert(cnt == per);
                assert(d.take(per as int) =~= chunk);
                assert(d.skip(per as int) =~= digits@.skip((start + cnt) as int));
                assert(pack_words(d, per as nat, base as nat) == seq![w] + pack_words(
                    digits@.skip((start + cnt) as int),
                    per as nat,
                    base as nat,
                ));
            }
            assert(words@ =~= pre + seq![w]);
            assert(pre + seq![w] + pack_words(
                digits@.skip((start + cnt) as int),
                per as nat,
                base as nat,
            ) =~= pre + (seq![w] + pack_words(
                digits@.skip((start + cnt) as int),
                per as nat,
                base as nat,
            )));
        }
        start = start + cnt;
    }
    proof {
        assert(digits@.skip(4096) =~= Seq::<u64>::empty());
        assert(words@ =~= pack_words(digits@, per as nat, base as nat));
    }
    words
}

/// Appends each palette entry as a VarInt.
fn write_palette(r: &mut Vec<u8>, pal: &Vec<u16>)
    ensures
        final(r)@ == old(r)@ + varints_of(pal@),
{
    let ghost pre = r@;
    let mut k: usize = 0;
    proof {
        assert(pal@.take(0) =~= Seq::<u16>::empty());
        assert(r@ =~= pre + varints_of(pal@.take(0)));
    }
    while k < pal.len()
        invariant
            k <= pal@.len(),
            r@ == pre + varints_of(pal@.take(k as int)),
        decreases pal@.len() - k,
    {
        proof {
            assert(pal@.take(k + 1).drop_last() =~= pal@.take(k as int));
            assert(pal@.take(k + 1).last() == pal@[k as int]);
        }
        r.write_varint(pal[k] as i32);
        k = k + 1;
    }
    proof {
        assert(pal@.take(pal@.len() as int) =~= pal@);
    }
}

/// Appends each packed word as eight big-endian bytes.
fn write_words(r: &mut Vec<u8>, words: &Vec<u64>)
    ensures
        final(r)@ == old(r)@ + words_bytes(words@),
{
    let ghost pre = r@;
    let mut k: usize = 0;
    proof {
        assert(words@.take(0) =~= Seq::<u64>::empty());
        assert(r@ =~= pre + words_bytes(words@.take(0)));
    }
    while k < words.len()
        invariant
            k <= words@.len(),
            r@ == pre + words_bytes(words@.take(k as int)),
        decreases words@.len() - k,
    {
        proof {
            assert(words@.take(k + 1).drop_last() =~= words@.take(k as int));
            assert(words@.take(k + 1).last() == words@[k as int]);
        }
        write_be(r, words[k] as u128, 8);
        k = k + 1;
    }
    proof {
        assert(words@.take(words@.len() as int) =~= words@);
    }
}

/// Encodes the block-states container of one section.
#[verifier::rlimit(100)]
#[verifier::spinoff_prover]
pub fn encode_block_states(blocks: &Vec<u16>) -> (r: Vec<u8>)
    requires
        section_wf(blocks@),
    ensures
        r@ == spec_block_states(blocks@),
{
    let pal = build_palette(blocks);
    proof {
        lemma_palette_of(blocks@);
    }
    let plen = pal.len();
    let bpe: usize = if plen <= 1 {
        0
    } else if plen <= 15 {
        4
    } else if plen <= 31 {
        5
    } else if plen <= 63 {
        6
    } else if plen <= 127 {
        7
    } else if plen <= 255 {
        8
    } else {
        15
    };
    proof {
        assert(bpe as nat == bpe_for(pal@.len()));
        lemma2_to64();
    }
    let mut r: Vec<u8> = Vec::new();
    if bpe == 0 {
        r.push(0);
        r.write_varint(blocks[0] as i32);
        r.write_varint(0);
        proof {
            assert(r@ =~= spec_block_states(blocks@));
        }
        return r;
    }
    let base: u64 = if bpe == 4 {
        16
    } else if bpe == 5 {
        32
    } else if bpe == 6 {
        64
    } else if bpe == 7 {
        128
    } else if bpe == 8 {
        256
    } else {
        32768
    };
    proof {
        assert(base == pow2(bpe as nat));
    }
    let per: usize = 64 / bpe;
    proof {
        assert(per as nat == per_word(bpe as nat));
    }
    let mut digits: Vec<u64> = Vec::new();
    if bpe <= 8 {
        proof {
            assert forall|t: int| 0 <= t < blocks@.len() implies pal@.contains(blocks@[t]) by {
                assert(blocks@.contains(blocks@[t]));
            }
            assert(pal@.len() <= base);
        }
        let mut k: usize = 0;
        while k < 4096
            invariant
                section_wf(blocks@),
                pal@ == palette_of(blocks@),
                k <= 4096,
                digits@.len() == k,
                pal@.len() <= base,
                forall|t: int| 0 <= t < blocks@.len() ==> pal@.contains(blocks@[t]),
                forall|t: int| 0 <= t < k ==> digits@[t] == pal_index(pal@, blocks@[t]) as u64,
                forall|t: int| 0 <= t < k ==> digits@[t] < base,
            decreases 4096 - k,
        {
            let idx = find_index(&pal, blocks[k]);
            digits.push(idx as u64);
            k = k + 1;
        }
        proof {
            assert(digits@ =~= indices_of(blocks@, pal@));
        }
    } else {
        let mut k: usize = 0;
        while k < 4096
            invariant
                section_wf(blocks@),
                k <= 4096,
                digits@.len() == k,
                forall|t: int| 0 <= t < k ==> digits@[t] == blocks@[t] as u64,
                forall|t: int| 0 <= t < k ==> digits@[t] < 0x8000,
            decreases 4096 - k,
        {
            digits.push(blocks[k] as u64);
            k = k + 1;
        }
        proof {
            assert(digits@ =~= direct_digits(blocks@));
        }
    }
    let words = pack_digits(&digits, per, bpe, base);
    r.push(bpe as u8);
    if bpe <= 8 {
        r.write_varint(plen as i32);
        write_palette(&mut r, &pal);
    }
    r.write_varint(words.len() as i32);
    write_words(&mut r, &words);
    proof {
        assert(r@ =~= spec_block_states(blocks@));
    }
    r
}

/// Encodes one full section: non-air count, block states, biome container.
pub fn encode_section(blocks: &Vec<u16>) -> (r: Vec<u8>)
    requires
        section_wf(blocks@),
    ensures
        r@ == spec_section_bytes(blocks@),
{
    let count = count_non_air(blocks);
    let states = encode_block_states(blocks);
    let mut r: Vec<u8> = Vec::new();
    write_be(&mut r, count as u128, 2);
    r.extend_from_slice(states.as_slice());
    r.push(0);
    r.write_varint(56);
    r.write_varint(0);
    proof {
        crate::chunk::lemma_non_air_count_bound(blocks@);
        assert(r@ =~= spec_section_bytes(blocks@));
    }
    r
}


/// Spec parser: `n` consecutive VarInt fields.
pub open spec fn p_varint_seq(s: Seq<u8>, n: nat) -> Result<(Seq<i32>, Seq<u8>), ReadError>
    decreases n,
{
    if n == 0 {
        Ok((Seq::empty(), s))
    } else {
        match p_varint(s) {
            Err(e) => Err(e),
            Ok((v, s2)) => match p_varint_seq(s2, (n - 1) as nat) {
                Err(e) => Err(e),
                Ok((vs, s3)) => Ok((seq![v] + vs, s3)),
            },
        }
    }
}

/// Spec parser: `n` consecutive big-endian 64-bit words.
pub open spec fn p_word_seq(s: Seq<u8>, n: nat) -> Result<(Seq<u64>, Seq<u8>), ReadError>
    decreases n,
{
    if n == 0 {
        Ok((Seq::empty(), s))
    } else {
        match crate::reader::p_u64(s) {
            Err(e) => Err(e),
            Ok((v, s2)) => match p_word_seq(s2, (n - 1) as nat) {
                Err(e) => Err(e),
                Ok((vs, s3)) => Ok((seq![v] + vs, s3)),
            },
        }
    }
}

/// `varints_of` taken from the front: its first field and the rest.
proof fn lemma_varints_of_first(vals: Seq<u16>)
    requires
        vals.len() > 0,
    ensures
        varints_of(vals) == varint_bytes(vals[0] as i32) + varints_of(vals.skip(1)),
    decreases vals.len(),
{
    if vals.len() == 1 {
        assert(vals.drop_last().len() == 0);
        assert(vals.skip(1).len() == 0);
        assert(varints_of(vals.drop_last()) == Seq::<u8>::empty());
        assert(varints_of(vals.skip(1)) == Seq::<u8>::empty());
        assert(varints_of(vals) =~= varint_bytes(vals[0] as i32) + varints_of(vals.skip(1)));
    } else {
        let dl = vals.drop_last();
        lemma_varints_of_first(dl);
        assert(vals.skip(1).drop_last() =~= dl.skip(1));
        assert(vals.skip(1).last() == vals.last());
        assert(dl[0] == vals[0]);
        assert(varints_of(vals.skip(1)) == varints_of(dl.skip(1)) + varint_bytes(
            vals.last() as i32,
        ));
        assert(varints_of(vals) =~= varint_bytes(vals[0] as i32) + varints_of(vals.skip(1)));
    }
}

/// `words_bytes` taken from the front: its first word and the rest.
proof fn lemma_words_bytes_first(ws: Seq<u64>)
    requires
        ws.len() > 0,
    ensures
        words_bytes(ws) == be_bytes(ws[0] as nat, 8) + words_bytes(ws.skip(1)),
    decreases ws.len(),
{
    if ws.len() == 1 {
        assert(ws.drop_last().len() == 0);
        assert(ws.skip(1).len() == 0);
        assert(words_bytes(ws.drop_last()) == Seq::<u8>::empty());
        assert(words_bytes(ws.skip(1)) == Seq::<u8>::empty());
        assert(words_bytes(ws) =~= be_bytes(ws[0] as nat, 8) + words_bytes(ws.skip(1)));
    } else {
        let dl = ws.drop_last();
        lemma_words_bytes_first(dl);
        assert(ws.skip(1).drop_last() =~= dl.skip(1));
        assert(ws.skip(1).last() == ws.last());
        assert(dl[0] == ws[0]);
        assert(words_bytes(ws.skip(1)) == words_bytes(dl.skip(1)) + be_bytes(ws.last() as nat, 8));
        assert(words_bytes(ws) =~= be_bytes(ws[0] as nat, 8) + words_bytes(ws.skip(1)));
    }
}

/// Parser round trip: an encoded palette reads back entry by entry.
proof fn lemma_p_varints_of(vals: Seq<u16>, rest: Seq<u8>)
    ensures
        p_varint_seq(varints_of(vals) + rest, vals.len()) == Ok::<(Seq<i32>, Seq<u8>), ReadError>(
            (vals.map_values(|v: u16| v as i32), rest),
        ),
    decreases vals.len(),
{
    if vals.len() == 0 {
        assert(varints_of(vals) + rest =~= rest);
        assert(vals.map_values(|v: u16| v as i32) =~= Seq::<i32>::empty());
    } else {
        lemma_varints_of_first(vals);
        let tail = varints_of(vals.skip(1)) + rest;
        assert(varints_of(vals) + rest =~= varint_bytes(vals[0] as i32) + tail);
        crate::varint::lemma_p_varint(vals[0] as i32, tail);
        lemma_p_varints_of(vals.skip(1), rest);
        assert(vals.map_values(|v: u16| v as i32) =~= seq![vals[0] as i32] + vals.skip(
            1,
        ).map_values(|v: u16| v as i32));
    }
}

/// Parser round trip: encoded packed words read back word by word.
proof fn lemma_p_words_of(ws: Seq<u64>, rest: Seq<u8>)
    ensures
        p_word_seq(words_bytes(ws) + rest, ws.len()) == Ok::<(Seq<u64>, Seq<u8>), ReadError>(
            (ws, rest),
        ),
    decreases ws.len(),
{
    if ws.len() == 0 {
        assert(words_bytes(ws) + rest =~= rest);
        assert(p_word_seq(rest, 0) == Ok::<(Seq<u64>, Seq<u8>), ReadError>((Seq::empty(), rest)));
        assert(ws =~= Seq::<u64>::empty());
    } else {
        lemma_words_bytes_first(ws);
        let tail = words_bytes(ws.skip(1)) + rest;
        assert(words_bytes(ws) + rest =~= be_bytes(ws[0] as nat, 8) + tail);
        crate::reader::lemma_p_u64(ws[0], tail);
        lemma_p_words_of(ws.skip(1), rest);
        assert(seq![ws[0]] + ws.skip(1) =~= ws);
    }
}

/// Decodes the block-states container: the inverse of [`spec_block_states`].
/// Returns the 4096 decoded ids and the bytes after the container.
pub open spec fn spec_decode_block_states(s: Seq<u8>) -> Result<(Seq<u16>, Seq<u8>), ReadError> {
    match p_u8(s) {
        Err(e) => Err(e),
        Ok((bpe, s)) => {
            if bpe == 0 {
                match p_varint(s) {
                    Err(e) => Err(e),
                    Ok((single, s)) => match p_varint(s) {
                        Err(e) => Err(e),
                        Ok((wlen, s)) => {
                            if wlen < 0 {
                                Err(ReadError::Overflow)
                            } else {
                                match p_word_seq(s, wlen as nat) {
                                    Err(e) => Err(e),
                                    Ok((_, s)) => Ok(
                                        (Seq::new(4096, |i: int| single as u16), s),
                                    ),
                                }
                            }
                        },
                    },
                }
            } else if 4 <= bpe <= 8 {
                match p_varint(s) {
                    Err(e) => Err(e),
                    Ok((plen, s)) => {
                        if plen < 0 {
                            Err(ReadError::Overflow)
                        } else {
                            match p_varint_seq(s, plen as nat) {
                                Err(e) => Err(e),
                                Ok((pal, s)) => match p_varint(s) {
                                    Err(e) => Err(e),
                                    Ok((wlen, s)) => {
                                        if wlen < 0 {
                                            Err(ReadError::Overflow)
                                        } else {
                                            match p_word_seq(s, wlen as nat) {
                                                Err(e) => Err(e),
                                                Ok((words, s)) => {
                                                    let digits = all_digits(
                                                        words,
                                                        pow2(bpe as nat),
                                                        per_word(bpe as nat),
                                                    );
                                                    if digits.len() < 4096 {
                                                        Err(ReadError::EndOfFile)
                                                    } else {
                                                        Ok(
                                                            (
                                                                Seq::new(
                                                                    4096,
                                                                    |i: int|
                                                                        if digits[i] < plen {
                                                                            pal[digits[i] as int] as u16
                                                                        } else {
                                                                            0u16
                                                                        },
                                                                ),
                                                                s,
                                                            ),
                                                        )
                                                    }
                                                },
                                            }
                                        }
                                    },
                                },
                            }
                        }
                    },
                }
            } else if bpe == 15 {
                match p_varint(s) {
                    Err(e) => Err(e),
                    Ok((wlen, s)) => {
                        if wlen < 0 {
                            Err(ReadError::Overflow)
                        } else {
                            match p_word_seq(s, wlen as nat) {
                                Err(e) => Err(e),
                                Ok((words, s)) => {
                                    let digits = all_digits(words, pow2(15), per_word(15));
                                    if digits.len() < 4096 {
                                        Err(ReadError::EndOfFile)
                                    } else {
                                        Ok((Seq::new(4096, |i: int| digits[i] as u16), s))
                                    }
                                },
                            }
                        }
                    },
                }
            } else {
                Err(ReadError::Overflow)
            }
        },
    }
}

/// Decodes the trivial biome container at the head of `s`.
pub open spec fn p_biomes(s: Seq<u8>) -> Result<Seq<u8>, ReadError> {
    match p_u8(s) {
        Err(e) => Err(e),
        Ok((bpe, s)) => {
            if bpe != 0 {
                Err(ReadError::Overflow)
            } else {
                match p_varint(s) {
                    Err(e) => Err(e),
                    Ok((_, s)) => match p_varint(s) {
                        Err(e) => Err(e),
                        Ok((wlen, s)) => {
                            if wlen < 0 {
                                Err(ReadError::Overflow)
                            } else {
                                match p_word_seq(s, wlen as nat) {
                                    Err(e) => Err(e),
                                    Ok((_, s)) => Ok(s),
                                }
                            }
                        },
                    },
                }
            }
        },
    }
}

/// Decodes one full section: the inverse of [`spec_section_bytes`]. Returns
/// the non-air count, the 4096 ids, and the bytes after the section.
pub open spec fn spec_decode_section(s: Seq<u8>) -> Result<((u16, Seq<u16>), Seq<u8>), ReadError> {
    match p_u16(s) {
        Err(e) => Err(e),
        Ok((count, s)) => match spec_decode_block_states(s) {
            Err(e) => Err(e),
            Ok((blocks, s)) => match p_biomes(s) {
                Err(e) => Err(e),
                Ok(s) => Ok(((count, blocks), s)),
            },
        },
    }
}


/// The biome container reads back as a no-op.
proof fn lemma_p_biomes(rest: Seq<u8>)
    ensures
        p_biomes(biome_bytes() + rest) == Ok::<Seq<u8>, ReadError>(rest),
{
    let s0 = biome_bytes() + rest;
    assert(s0[0] == 0);
    assert(s0.skip(1) =~= varint_bytes(56) + (varint_bytes(0) + rest));
    crate::varint::lemma_p_varint(56, varint_bytes(0) + rest);
    crate::varint::lemma_p_varint(0, rest);
}

/// Round trip of the block-states container: decoding the encoding of any
/// well-formed section body yields the same 4096 ids.
#[verifier::rlimit(100)]
#[verifier::spinoff_prover]
proof fn lemma_block_states_roundtrip(blocks: Seq<u16>, rest: Seq<u8>)
    requires
        section_wf(blocks),
    ensures
        spec_decode_block_states(spec_block_states(blocks) + rest) == Ok::<
            (Seq<u16>, Seq<u8>),
            ReadError,
        >((blocks, rest)),
{
    lemma_palette_of(blocks);
    let pal = palette_of(blocks);
    let bpe = bpe_for(pal.len());
    let s0 = spec_block_states(blocks) + rest;
    lemma2_to64();
    assert(pal.len() >= 1) by {
        assert(blocks.contains(blocks[0]));
    }
    if bpe == 0 {
        assert(pal.len() == 1);
        assert(s0[0] == 0);
        assert(s0.skip(1) =~= varint_bytes(blocks[0] as i32) + (varint_bytes(0) + rest));
        crate::varint::lemma_p_varint(blocks[0] as i32, varint_bytes(0) + rest);
        crate::varint::lemma_p_varint(0, rest);
        assert forall|i: int| 0 <= i < 4096 implies #[trigger] blocks[i] == blocks[0] by {
            assert(blocks.contains(blocks[i]));
            assert(pal.contains(blocks[i]));
            assert(pal.contains(blocks[0]));
            let ia = choose|k: int| 0 <= k < pal.len() && pal[k] == blocks[i];
            let ib = choose|k: int| 0 <= k < pal.len() && pal[k] == blocks[0];
            assert(ia == 0 && ib == 0);
        }
        assert(Seq::new(4096, |i: int| (blocks[0] as i32) as u16) =~= blocks);
    } else if bpe <= 8 {
        let digits = indices_of(blocks, pal);
        let per = per_word(bpe);
        let base = pow2(bpe);
        let words = pack_words(digits, per, base);
        let t4 = words_bytes(words) + rest;
        let t3 = varint_bytes(words.len() as i32) + t4;
        let t2 = varints_of(pal) + t3;
        let t1 = varint_bytes(pal.len() as i32) + t2;
        assert(s0[0] == bpe as u8);
        assert(s0.skip(1) =~= t1);
        crate::varint::lemma_p_varint(pal.len() as i32, t2);
        assert(t2 =~= varints_of(pal) + t3);
        lemma_p_varints_of(pal, t3);
        crate::varint::lemma_p_varint(words.len() as i32, t4);
        assert(t4 =~= words_bytes(words) + rest);
        lemma_p_words_of(words, rest);
        assert(2 <= pal.len() <= 255);
        assert(per >= 1) by (nonlinear_arith)
            requires
                per == 64nat / bpe,
                1 <= bpe <= 15,
        ;
        assert(per * bpe <= 64) by (nonlinear_arith)
            requires
                per == 64nat / bpe,
                1 <= bpe,
        ;
        assert(pal.len() < pow2(bpe));
        assert forall|i: int| 0 <= i < digits.len() implies digits[i] < pow2(bpe) by {
            assert(blocks.contains(blocks[i]));
            lemma_pal_index(pal, blocks[i]);
        }
        lemma_pack_roundtrip(digits, bpe, per);
        lemma_pack_words_len(digits, per, base);
        assert(word_count(4096, per) <= 4096) by (nonlinear_arith)
            requires
                per >= 1,
        ;
        let ddigits = all_digits(words, base, per);
        assert(ddigits.take(4096) == digits);
        assert(ddigits.len() >= 4096);
        let plen = pal.len() as i32;
        let pal_i32 = pal.map_values(|v: u16| v as i32);
        assert(Seq::new(
            4096,
            |i: int|
                if ddigits[i] < plen {
                    pal_i32[ddigits[i] as int] as u16
                } else {
                    0u16
                },
        ) =~= blocks) by {
            assert forall|i: int|
                0 <= i < 4096 implies (if ddigits[i] < plen {
                pal_i32[ddigits[i] as int] as u16
            } else {
                0u16
            }) == blocks[i] by {
                assert(ddigits[i] == ddigits.take(4096)[i]);
                assert(ddigits[i] == digits[i]);
                assert(blocks.contains(blocks[i]));
                lemma_pal_index(pal, blocks[i]);
                assert(digits[i] == pal_index(pal, blocks[i]) as u64);
                assert(ddigits[i] < plen);
                assert(pal_i32[ddigits[i] as int] == pal[ddigits[i] as int] as i32);
                assert(pal[ddigits[i] as int] == blocks[i]);
            }
        }
    } else {
        let digits = direct_digits(blocks);
        let per = per_word(15);
        let base = pow2(15);
        let words = pack_words(digits, per, base);
        let t4 = words_bytes(words) + rest;
        let t3 = varint_bytes(words.len() as i32) + t4;
        assert(s0[0] == 15u8);
        assert(s0.skip(1) =~= t3);
        crate::varint::lemma_p_varint(words.len() as i32, t4);
        assert(t4 =~= words_bytes(words) + rest);
        lemma_p_words_of(words, rest);
        assert(per == 4);
        assert forall|i: int| 0 <= i < digits.len() implies digits[i] < pow2(15) by {
            assert(blocks[i] < 0x8000);
        }
        lemma_pack_roundtrip(digits, 15, per);
        lemma_pack_words_len(digits, per, base);
        assert(word_count(4096, per) <= 4096) by (nonlinear_arith)
            requires
                per >= 1,
        ;
        let ddigits = all_digits(words, base, per);
        assert(ddigits.take(4096) == digits);
        assert(ddigits.len() >= 4096);
        assert(Seq::new(4096, |i: int| ddigits[i] as u16) =~= blocks) by {
            assert forall|i: int| 0 <= i < 4096 implies ddigits[i] as u16 == blocks[i] by {
                assert(ddigits[i] == ddigits.take(4096)[i]);
                assert(ddigits[i] == digits[i]);
                assert(digits[i] == blocks[i] as u64);
            }
        }
    }
}

/// Chunk codec round trip: decoding the encoding of any well-formed 4096-id
/// array gives the array and the non-air count back, whatever follows the
/// section.
pub proof fn lemma_section_roundtrip(blocks: Seq<u16>, rest: Seq<u8>)
    requires
        section_wf(blocks),
    ensures
        spec_decode_section(spec_section_bytes(blocks) + rest) == Ok::<
            ((u16, Seq<u16>), Seq<u8>),
            ReadError,
        >(((non_air_count(blocks) as u16, blocks), rest)),
{
    lemma_non_air_count_bound(blocks);
    let count = non_air_count(blocks);
    let t1 = spec_block_states(blocks) + (biome_bytes() + rest);
    assert(pow2(16) == 0x10000) by {
        lemma2_to64();
    }
    crate::reader::lemma_p_be(count, 2, t1);
    assert(spec_section_bytes(blocks) + rest =~= be_bytes(count, 2) + t1);
    lemma_block_states_roundtrip(blocks, biome_bytes() + rest);
    assert(t1 =~= spec_block_states(blocks) + (biome_bytes() + rest));
    lemma_p_biomes(rest);
}

/// The mode choice: the container's leading byte is the bits-per-entry given
/// by the breakpoint table for the number of distinct ids, the palette holds
/// exactly the distinct ids without duplicates, and an all-identical section
/// encodes single-valued, with zero bits per entry and an empty data array.
pub proof fn lemma_bpe_choice(blocks: Seq<u16>)
    requires
        section_wf(blocks),
    ensures
        spec_block_states(blocks).len() > 0,
        spec_block_states(blocks)[0] == bpe_for(palette_of(blocks).len()) as u8,
        palette_of(blocks).no_duplicates(),
        forall|y: u16| #[trigger] palette_of(blocks).contains(y) <==> blocks.contains(y),
        (forall|i: int, j: int| 0 <= i < 4096 && 0 <= j < 4096 ==> blocks[i] == blocks[j])
            ==> spec_block_states(blocks) == seq![0u8] + varint_bytes(blocks[0] as i32)
            + varint_bytes(0),
{
    lemma_palette_of(blocks);
    let pal = palette_of(blocks);
    assert(pal.no_duplicates()) by {
        assert forall|i: int, j: int|
            0 <= i < pal.len() && 0 <= j < pal.len() && i != j implies pal[i] != pal[j] by {
            if i < j {
                assert(pal[i] < pal[j]);
            } else {
                assert(pal[j] < pal[i]);
            }
        }
    }
    let bpe = bpe_for(pal.len());
    if bpe == 0 {
        assert(spec_block_states(blocks)[0] == 0);
    } else if bpe <= 8 {
        assert(spec_block_states(blocks)[0] == bpe as u8);
    } else {
        assert(spec_block_states(blocks)[0] == 15u8);
    }
    if forall|i: int, j: int| 0 <= i < 4096 && 0 <= j < 4096 ==> blocks[i] == blocks[j] {
        assert(pal.len() <= 1) by {
            if pal.len() >= 2 {
                assert(pal[0] < pal[1]);
                assert(pal.contains(pal[0]));
                assert(pal.contains(pal[1]));
                let a = choose|k: int| 0 <= k < blocks.len() && blocks[k] == pal[0];
                let b = choose|k: int| 0 <= k < blocks.len() && blocks[k] == pal[1];
                assert(blocks[a] == blocks[b]);
            }
        }
    }
}


/// Reads `n` VarInt fields, mirroring [`p_varint_seq`].
fn read_varint_seq(buf: &mut PacketBuf, n: usize) -> (r: Result<Vec<i32>, ReadError>)
    requires
        old(buf).wf(),
    ensures
        final(buf).wf(),
        final(buf).data@ == old(buf).data@,
        match p_varint_seq(old(buf).remaining(), n as nat) {
            Ok((vs, rest)) => r is Ok && r->Ok_0@ == vs && r->Ok_0@.len() == n
                && final(buf).remaining() == rest,
            Err(e) => r == Err::<Vec<i32>, ReadError>(e),
        },
{
    let ghost orig = old(buf).remaining();
    let mut out: Vec<i32> = Vec::new();
    let mut i: usize = 0;
    while i < n
        invariant
            buf.wf(),
            buf.data@ == old(buf).data@,
            orig == old(buf).remaining(),
            i <= n,
            out@.len() == i,
            match p_varint_seq(buf.remaining(), (n - i) as nat) {
                Ok((vs, rest)) => p_varint_seq(orig, n as nat) == Ok::<
                    (Seq<i32>, Seq<u8>),
                    ReadError,
                >((out@ + vs, rest)),
                Err(e) => p_varint_seq(orig, n as nat) == Err::<(Seq<i32>, Seq<u8>), ReadError>(e),
            },
        decreases n - i,
    {
        let ghost cur = buf.remaining();
        let v = match buf.read_varint() {
            Ok(v) => v,
            Err(e) => {
                proof {
                    assert(p_varint(cur) == Err::<(i32, Seq<u8>), ReadError>(e));
                    assert(p_varint_seq(cur, (n - i) as nat) == Err::<
                        (Seq<i32>, Seq<u8>),
                        ReadError,
                    >(e));
                }
                return Err(e);
            },
        };
        let ghost pre = out@;
        out.push(v);
        proof {
            match p_varint_seq(buf.remaining(), (n - i - 1) as nat) {
                Ok((vs, rest)) => {
                    assert(p_varint_seq(cur, (n - i) as nat) == Ok::<
                        (Seq<i32>, Seq<u8>),
                        ReadError,
                    >((seq![v] + vs, rest)));
                    assert(pre + (seq![v] + vs) =~= out@ + vs);
                },
                Err(e) => {},
            }
        }
        i = i + 1;
    }
    proof {
        assert(p_varint_seq(buf.remaining(), 0) == Ok::<(Seq<i32>, Seq<u8>), ReadError>(
            (Seq::empty(), buf.remaining()),
        ));
        assert(out@ + Seq::<i32>::empty() =~= out@);
    }
    Ok(out)
}

/// Reads `n` big-endian 64-bit words, mirroring [`p_word_seq`].
fn read_word_seq(buf: &mut PacketBuf, n: usize) -> (r: Result<Vec<u64>, ReadError>)
    requires
        old(buf).wf(),
    ensures
        final(buf).wf(),
        final(buf).data@ == old(buf).data@,
        match p_word_seq(old(buf).remaining(), n as nat) {
            Ok((vs, rest)) => r is Ok && r->Ok_0@ == vs && r->Ok_0@.len() == n
                && final(buf).remaining() == rest,
            Err(e) => r == Err::<Vec<u64>, ReadError>(e),
        },
{
    let ghost orig = old(buf).remaining();
    let mut out: Vec<u64> = Vec::new();
    let mut i: usize = 0;
    while i < n
        invariant
            buf.wf(),
            buf.data@ == old(buf).data@,
            orig == old(buf).remaining(),
            i <= n,
            out@.len() == i,
            match p_word_seq(buf.remaining(), (n - i) as nat) {
                Ok((vs, rest)) => p_word_seq(orig, n as nat) == Ok::<
                    (Seq<u64>, Seq<u8>),
                    ReadError,
                >((out@ + vs, rest)),
                Err(e) => p_word_seq(orig, n as nat) == Err::<(Seq<u64>, Seq<u8>), ReadError>(e),
            },
        decreases n - i,
    {
        let ghost cur = buf.remaining();
        let v = match buf.read_u64() {
            Ok(v) => v,
            Err(e) => {
                proof {
                    assert(crate::reader::p_u64(cur) == Err::<(u64, Seq<u8>), ReadError>(e));
                    assert(p_word_seq(cur, (n - i) as nat) == Err::<
                        (Seq<u64>, Seq<u8>),
                        ReadError,
                    >(e));
                }
                return Err(e);
            },
        };
        let ghost pre = out@;
        out.push(v);
        proof {
            match p_word_seq(buf.remaining(), (n - i - 1) as nat) {
                Ok((vs, rest)) => {
                    assert(p_word_seq(cur, (n - i) as nat) == Ok::<
                        (Seq<u64>, Seq<u8>),
                        ReadError,
                    >((seq![v] + vs, rest)));
                    assert(pre + (seq![v] + vs) =~= out@ + vs);
                },
                Err(e) => {},
            }
        }
        i = i + 1;
    }
    proof {
        assert(p_word_seq(buf.remaining(), 0) == Ok::<(Seq<u64>, Seq<u8>), ReadError>(
            (Seq::empty(), buf.remaining()),
        ));
        assert(out@ + Seq::<u64>::empty() =~= out@);
    }
    Ok(out)
}

/// Appends the `per` digits of one word, lowest first.
fn unpack_word(w: u64, per: usize, base: u64, out: &mut Vec<u64>)
    requires
        base >= 2,
    ensures
        final(out)@ == old(out)@ + word_digits(w as nat, base as nat, per as nat),
    decreases per,
{
    if per == 0 {
        proof {
            assert(out@ =~= old(out)@ + word_digits(w as nat, base as nat, 0));
        }
    } else {
        out.push(w % base);
        unpack_word(w / base, per - 1, base, out);
        proof {
            assert(out@ =~= old(out)@ + word_digits(w as nat, base as nat, per as nat));
        }
    }
}

/// All digits of a word sequence, mirroring [`all_digits`].
fn unpack_words(words: &Vec<u64>, per: usize, base: u64) -> (out: Vec<u64>)
    requires
        base >= 2,
    ensures
        out@ == all_digits(words@, base as nat, per as nat),
{
    let mut out: Vec<u64> = Vec::new();
    let mut i: usize = 0;
    proof {
        assert(words@.skip(0) =~= words@);
        assert(out@ =~= Seq::<u64>::empty());
    }
    while i < words.len()
        invariant
            base >= 2,
            i <= words@.len(),
            all_digits(words@, base as nat, per as nat) == out@ + all_digits(
                words@.skip(i as int),
                base as nat,
                per as nat,
            ),
        decreases words@.len() - i,
    {
        let ghost pre = out@;
        unpack_word(words[i], per, base, &mut out);
        proof {
            let d = words@.skip(i as int);
            assert(d[0] == words@[i as int]);
            assert(d.skip(1) =~= words@.skip(i + 1));
            assert(all_digits(d, base as nat, per as nat) == word_digits(
                words@[i as int] as nat,
                base as nat,
                per as nat,
            ) + all_digits(words@.skip(i + 1), base as nat, per as nat));
            assert(pre + (word_digits(words@[i as int] as nat, base as nat, per as nat)
                + all_digits(words@.skip(i + 1), base as nat, per as nat)) =~= out@ + all_digits(
                words@.skip(i + 1),
                base as nat,
                per as nat,
            ));
        }
        i = i + 1;
    }
    proof {
        assert(words@.skip(words@.len() as int) =~= Seq::<u64>::empty());
        assert(out@ =~= all_digits(words@, base as nat, per as nat));
    }
    out
}

/// Decodes the block-states container, mirroring [`spec_decode_block_states`].
#[verifier::rlimit(100)]
#[verifier::spinoff_prover]
pub fn decode_block_states(buf: &mut PacketBuf) -> (r: Result<Vec<u16>, ReadError>)
    requires
        old(buf).wf(),
    ensures
        final(buf).wf(),
        final(buf).data@ == old(buf).data@,
        match spec_decode_block_states(old(buf).remaining()) {
            Ok((blocks, rest)) => r is Ok && r->Ok_0@ == blocks && final(buf).remaining() == rest,
            Err(e) => r == Err::<Vec<u16>, ReadError>(e),
        },
{
    let bpe = match buf.read_u8() {
        Ok(v) => v,
        Err(e) => {
            return Err(e);
        },
    };
    if bpe == 0 {
        let single = match buf.read_varint() {
            Ok(v) => v,
            Err(e) => {
                return Err(e);
            },
        };
        let wlen = match buf.read_varint() {
            Ok(v) => v,
            Err(e) => {
                return Err(e);
            },
        };
        if wlen < 0 {
            return Err(ReadError::Overflow);
        }
        match read_word_seq(buf, wlen as usize) {
            Ok(_) => {},
            Err(e) => {
                return Err(e);
            },
        }
        let mut blocks: Vec<u16> = Vec::new();
        let mut i: usize = 0;
        while i < 4096
            invariant
                blocks@.len() == i,
                i <= 4096,
                forall|t: int| 0 <= t < i ==> blocks@[t] == single as u16,
            decreases 4096 - i,
        {
            blocks.push(single as u16);
            i = i + 1;
        }
        proof {
            assert(blocks@ =~= Seq::new(4096, |i: int| single as u16));
        }
        Ok(blocks)
    } else if 4 <= bpe && bpe <= 8 {
        let plen = match buf.read_varint() {
            Ok(v) => v,
            Err(e) => {
                return Err(e);
            },
        };
        if plen < 0 {
            return Err(ReadError::Overflow);
        }
        let pal = match read_varint_seq(buf, plen as usize) {
            Ok(v) => v,
            Err(e) => {
                return Err(e);
            },
        };
        let wlen = match buf.read_varint() {
            Ok(v) => v,
            Err(e) => {
                return Err(e);
            },
        };
        if wlen < 0 {
            return Err(ReadError::Overflow);
        }
        let words = match read_word_seq(buf, wlen as usize) {
            Ok(v) => v,
            Err(e) => {
                return Err(e);
            },
        };
        let base: u64 = if bpe == 4 {
            16
        } else if bpe == 5 {
            32
        } else if bpe == 6 {
            64
        } else if bpe == 7 {
            128
        } else {
            256
        };
        proof {
            lemma2_to64();
            assert(base == pow2(bpe as nat));
        }
        let per: usize = 64 / (bpe as usize);
        proof {
            assert(per as nat == per_word(bpe as nat));
        }
        let digits = unpack_words(&words, per, base);
        if digits.len() < 4096 {
            return Err(ReadError::EndOfFile);
        }
        let mut blocks: Vec<u16> = Vec::new();
        let mut i: usize = 0;
        let ghost spec_blocks = Seq::new(
            4096,
            |i: int|
                if digits@[i] < plen {
                    pal@[digits@[i] as int] as u16
                } else {
                    0u16
                },
        );
        while i < 4096
            invariant
                digits@.len() >= 4096,
                pal@.len() == plen,
                plen >= 0,
                blocks@.len() == i,
                i <= 4096,
                spec_blocks == Seq::new(
                    4096,
                    |i: int|
                        if digits@[i] < plen {
                            pal@[digits@[i] as int] as u16
                        } else {
                            0u16
                        },
                ),
                forall|t: int| 0 <= t < i ==> blocks@[t] == spec_blocks[t],
            decreases 4096 - i,
        {
            let d = digits[i];
            let b: u16 = if d < plen as u64 {
                pal[d as usize] as u16
            } else {
                0
            };
            blocks.push(b);
            i = i + 1;
        }
        proof {
            assert(blocks@ =~= spec_blocks);
        }
        Ok(blocks)
    } else if bpe == 15 {
        let wlen = match buf.read_varint() {
            Ok(v) => v,
            Err(e) => {
                return Err(e);
            },
        };
        if wlen < 0 {
            return Err(ReadError::Overflow);
        }
        let words = match read_word_seq(buf, wlen as usize) {
            Ok(v) => v,
            Err(e) => {
                return Err(e);
            },
        };
        proof {
            lemma2_to64();
            assert(32768u64 == pow2(15));
        }
        let digits = unpack_words(&words, 4, 32768);
        proof {
            assert(4nat == per_word(15));
        }
        if digits.len() < 4096 {
            return Err(ReadError::EndOfFile);
        }
        let mut blocks: Vec<u16> = Vec::new();
        let mut i: usize = 0;
        while i < 4096
            invariant
                digits@.len() >= 4096,
                blocks@.len() == i,
                i <= 4096,
                forall|t: int| 0 <= t < i ==> blocks@[t] == digits@[t] as u16,
            decreases 4096 - i,
        {
            blocks.push(digits[i] as u16);
            i = i + 1;
        }
        proof {
            assert(blocks@ =~= Seq::new(4096, |i: int| digits@[i] as u16));
        }
        Ok(blocks)
    } else {
        Err(ReadError::Overflow)
    }
}

/// Decodes one full section, mirroring [`spec_decode_section`]: the non-air
/// count and the 4096 ids.
pub fn decode_section(buf: &mut PacketBuf) -> (r: Result<(u16, Vec<u16>), ReadError>)
    requires
        old(buf).wf(),
    ensures
        final(buf).wf(),
        final(buf).data@ == old(buf).data@,
        match spec_decode_section(old(buf).remaining()) {
            Ok(((count, blocks), rest)) => r is Ok && r->Ok_0.0 == count && r->Ok_0.1@ == blocks
                && final(buf).remaining() == rest,
            Err(e) => r == Err::<(u16, Vec<u16>), ReadError>(e),
        },
{
    let count = match buf.read_u16() {
        Ok(v) => v,
        Err(e) => {
            return Err(e);
        },
    };
    let blocks = match decode_block_states(buf) {
        Ok(v) => v,
        Err(e) => {
            return Err(e);
        },
    };
    // biome container
    let b0 = match buf.read_u8() {
        Ok(v) => v,
        Err(e) => {
            return Err(e);
        },
    };
    if b0 != 0 {
        return Err(ReadError::Overflow);
    }
    match buf.read_varint() {
        Ok(_) => {},
        Err(e) => {
            return Err(e);
        },
    }
    let wlen = match buf.read_varint() {
        Ok(v) => v,
        Err(e) => {
            return Err(e);
        },
    };
    if wlen < 0 {
        return Err(ReadError::Overflow);
    }
    match read_word_seq(buf, wlen as usize) {
        Ok(_) => {},
        Err(e) => {
            return Err(e);
        },
    }
    Ok((count, blocks))
}


/// A palette as it stands in a serialised container: one value, an indirect
/// table with packed indices, or direct ids with packed values.
pub enum Palette {
    SingleValued(i32),
    Indirect(u8, Vec<i32>, Vec<i64>),
    Direct(u8, Vec<i64>),
}

/// A serialised paletted container: bits per entry, the palette, and the
/// non-spanning bit-packed data array.
pub struct PalettedContainer {
    pub bits_per_entry: u8,
    pub palette: Palette,
    pub data_array: Vec<i64>,
}

impl PalettedContainer {
    pub fn new(bits_per_entry: u8, palette: Palette, data_array: Vec<i64>) -> (r: Self)
        ensures
            r == (PalettedContainer { bits_per_entry, palette, data_array }),
    {
        Self { bits_per_entry, palette, data_array }
    }
}

/// One 16x16x16 block section, addressed by `x + z*16 + y*256`.
pub struct ChunkSection {
    pub blocks: Vec<u16>,
}

/// The flat index of a block position within a section.
pub open spec fn section_index(x: i32, y: i32, z: i32) -> int {
    (x & 15) + (z & 15) * 16 + (y & 15) * 256
}

impl ChunkSection {
    pub open spec fn wf(&self) -> bool {
        section_wf(self.blocks@)
    }

    /// The block-state id at local coordinates, if the section holds it.
    pub fn get_block(&self, x: i32, y: i32, z: i32) -> (r: Option<u16>)
        ensures
            r == (if section_index(x, y, z) < self.blocks@.len() {
                Some(self.blocks@[section_index(x, y, z)])
            } else {
                None::<u16>
            }),
    {
        proof {
            assert(0 <= (x & 15) < 16 && 0 <= (z & 15) < 16 && 0 <= (y & 15) < 16) by (bit_vector);
        }
        let idx = ((x & 15) + (z & 15) * 16 + (y & 15) * 256) as usize;
        if idx < self.blocks.len() {
            Some(self.blocks[idx])
        } else {
            None
        }
    }

    /// Whether the block at local coordinates is air (or missing).
    pub fn is_empty(&self, x: i32, y: i32, z: i32) -> (r: bool)
        ensures
            r == (if section_index(x, y, z) < self.blocks@.len() {
                is_air(self.blocks@[section_index(x, y, z)])
            } else {
                true
            }),
    {
        match self.get_block(x, y, z) {
            Some(b) => b == 0 || b == 12817 || b == 12818,
            None => true,
        }
    }

    /// The wire bytes of this section.
    pub fn to_bytes(&self) -> (r: Vec<u8>)
        requires
            self.wf(),
        ensures
            r@ == spec_section_bytes(self.blocks@),
    {
        encode_section(&self.blocks)
    }
}

/// One chunk column: the sections of one dimension, bottom first. Sections
/// beyond those present serialise as all-air.
pub struct Chunk {
    pub dimension: Dimension,
    pub chunk_sections: Vec<ChunkSection>,
}

/// The 4096 ids of an all-air section.
pub open spec fn air_section() -> Seq<u16> {
    Seq::new(4096, |i: int| 0u16)
}

/// The ids of section `i` of a column, all-air where none is present.
pub open spec fn section_or_air(secs: Seq<ChunkSection>, i: int) -> Seq<u16> {
    if 0 <= i < secs.len() {
        secs[i].blocks@
    } else {
        air_section()
    }
}

/// The concatenated wire bytes of the first `n` sections of a column.
pub open spec fn chunk_bytes_upto(secs: Seq<ChunkSection>, n: nat) -> Seq<u8>
    decreases n,
{
    if n == 0 {
        Seq::empty()
    } else {
        chunk_bytes_upto(secs, (n - 1) as nat) + spec_section_bytes(
            section_or_air(secs, n - 1),
        )
    }
}

/// The wire bytes of a whole column: all of its dimension's sections.
pub open spec fn spec_chunk_bytes(c: Chunk) -> Seq<u8> {
    chunk_bytes_upto(c.chunk_sections@, c.dimension.spec_chunk_section_n() as nat)
}

impl Chunk {
    pub open spec fn wf(&self) -> bool {
        forall|i: int|
            0 <= i < self.chunk_sections@.len() ==> section_wf(
                #[trigger] self.chunk_sections@[i].blocks@,
            )
    }

    /// The wire bytes of the whole column.
    pub fn to_bytes(&self) -> (r: Vec<u8>)
        requires
            self.wf(),
        ensures
            r@ == spec_chunk_bytes(*self),
    {
        let n = self.dimension.chunk_section_n();
        let mut air: Vec<u16> = Vec::new();
        let mut k: usize = 0;
        while k < 4096
            invariant
                k <= 4096,
                air@.len() == k,
                forall|t: int| 0 <= t < k ==> air@[t] == 0u16,
            decreases 4096 - k,
        {
            air.push(0);
            k = k + 1;
        }
        proof {
            assert(air@ =~= air_section());
        }
        let mut r: Vec<u8> = Vec::new();
        let mut i: usize = 0;
        let n = n as usize;
        while i < n
            invariant
                self.wf(),
                air@ == air_section(),
                i <= n,
                r@ == chunk_bytes_upto(self.chunk_sections@, i as nat),
            decreases n - i,
        {
            let bytes = if i < self.chunk_sections.len() {
                encode_section(&self.chunk_sections[i].blocks)
            } else {
                encode_section(&air)
            };
            r.extend_from_slice(bytes.as_slice());
            i = i + 1;
        }
        r
    }

    /// A deep copy of this column.
    pub fn duplicate(&self) -> (r: Chunk)
        ensures
            r.dimension == self.dimension,
            r.chunk_sections@.len() == self.chunk_sections@.len(),
            forall|i: int|
                0 <= i < self.chunk_sections@.len() ==> #[trigger] r.chunk_sections@[i].blocks@
                    == self.chunk_sections@[i].blocks@,
    {
        let mut secs: Vec<ChunkSection> = Vec::new();
        let mut i: usize = 0;
        while i < self.chunk_sections.len()
            invariant
                i <= self.chunk_sections@.len(),
                secs@.len() == i,
                forall|t: int|
                    0 <= t < i ==> #[trigger] secs@[t].blocks@
                        == self.chunk_sections@[t].blocks@,
            decreases self.chunk_sections@.len() - i,
        {
            let src = &self.chunk_sections[i];
            let mut blocks: Vec<u16> = Vec::new();
            let mut t: usize = 0;
            while t < src.blocks.len()
                invariant
                    t <= src.blocks@.len(),
                    blocks@ == src.blocks@.take(t as int),
                decreases src.blocks@.len() - t,
            {
                blocks.push(src.blocks[t]);
                proof {
                    assert(blocks@ =~= src.blocks@.take(t + 1));
                }
                t = t + 1;
            }
            proof {
                assert(src.blocks@.take(src.blocks@.len() as int) =~= src.blocks@);
            }
            secs.push(ChunkSection { blocks });
            i = i + 1;
        }
        Chunk { dimension: self.dimension, chunk_sections: secs }
    }
}


} // verus!
