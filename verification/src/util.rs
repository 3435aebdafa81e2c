//! World generation and startup hashing: the flat layered test world, the
//! chunk cache, and the hashed seed derived from the world seed.

use vstd::arithmetic::power2::*;
use vstd::prelude::*;
use vstd::utf8::encode_utf8;

use crate::chunk::{section_wf, Chunk, ChunkSection};
use crate::dimension::Dimension;
use crate::reader::{be_bytes, be_nat, write_be};

verus! {

/// Errors raised while decoding wire data from a byte buffer.
#[derive(Debug, PartialEq, Eq, Clone, Copy, Structural)]
pub enum ReadError {
    /// The value being read is larger than expected.
    Overflow,
    /// The end of the buffer was reached.
    EndOfFile,
    /// A length-prefixed string held bytes that are not valid UTF-8.
    InvalidUtf8,
}

/// The state id generated at section `sy`, flat index `idx`: one bedrock
/// layer at the world floor, stone below 60, dirt to 63, grass at 64, air
/// above.
pub open spec fn gen_block_id(sy: int, idx: int) -> u16 {
    let y = sy * 16 + idx / 256 - 64;
    if y == -64 {
        79u16
    } else if -63 <= y < 60 {
        1u16
    } else if 60 <= y < 64 {
        10u16
    } else if y == 64 {
        9u16
    } else {
        0u16
    }
}

/// Whether a column is exactly the generated flat world column.
pub open spec fn is_generated_chunk(c: Chunk) -> bool {
    &&& c.dimension == Dimension::Overworld
    &&& c.chunk_sections@.len() == 24
    &&& forall|s: int, t: int|
        0 <= s < 24 && 0 <= t < 4096 ==> #[trigger] c.chunk_sections@[s].blocks@[t]
            == gen_block_id(s, t)
    &&& c.wf()
}

/// Generates the flat world column. Every coordinate yields the same layers,
/// so the arguments only name which column is being produced.
pub fn generate_chunk(x: i32, z: i32) -> (r: Chunk)
    ensures
        is_generated_chunk(r),
{
    let mut secs: Vec<ChunkSection> = Vec::new();
    let mut sy: usize = 0;
    while sy < 24
        invariant
            sy <= 24,
            secs@.len() == sy,
            forall|s: int, t: int|
                0 <= s < sy && 0 <= t < 4096 ==> #[trigger] secs@[s].blocks@[t] == gen_block_id(
                    s,
                    t,
                ),
            forall|s: int| 0 <= s < sy ==> section_wf(#[trigger] secs@[s].blocks@),
        decreases 24 - sy,
    {
        let mut blocks: Vec<u16> = Vec::new();
        let mut idx: usize = 0;
        while idx < 4096
            invariant
                sy < 24,
                idx <= 4096,
                blocks@.len() == idx,
                forall|t: int| 0 <= t < idx ==> #[trigger] blocks@[t] == gen_block_id(sy as int, t),
                forall|t: int| 0 <= t < idx ==> #[trigger] blocks@[t] < 0x8000,
            decreases 4096 - idx,
        {
            let y: i32 = (sy as i32) * 16 + (idx as i32) / 256 - 64;
            let id: u16 = if y == -64 {
                79
            } else if -63 <= y && y < 60 {
                1
            } else if 60 <= y && y < 64 {
                10
            } else if y == 64 {
                9
            } else {
                0
            };
            blocks.push(id);
            idx = idx + 1;
        }
        secs.push(ChunkSection { blocks });
        sy = sy + 1;
    }
    Chunk { dimension: Dimension::Overworld, chunk_sections: secs }
}

/// Fetches the column at `(x, z)` from the cache, generating and caching it
/// on a miss. Every cached column is the generated one.
pub fn get_chunk(chunks: &mut Vec<((i32, i32), Chunk)>, x: i32, z: i32) -> (r: Chunk)
    requires
        forall|i: int|
            0 <= i < old(chunks)@.len() ==> is_generated_chunk(#[trigger] old(chunks)@[i].1),
    ensures
        is_generated_chunk(r),
        forall|i: int|
            0 <= i < final(chunks)@.len() ==> is_generated_chunk(#[trigger] final(chunks)@[i].1),
{
    let mut i: usize = 0;
    while i < chunks.len()
        invariant
            i <= chunks@.len(),
            forall|k: int|
                0 <= k < chunks@.len() ==> is_generated_chunk(#[trigger] chunks@[k].1),
        decreases chunks@.len() - i,
    {
        if chunks[i].0.0 == x && chunks[i].0.1 == z {
            return chunks[i].1.duplicate();
        }
        i = i + 1;
    }
    let c = generate_chunk(x, z);
    chunks.push(((x, z), c.duplicate()));
    proof {
        assert(forall|k: int|
            0 <= k < chunks@.len() ==> is_generated_chunk(#[trigger] chunks@[k].1));
    }
    c
}

/// What `sha256::digest` returns for the given bytes: 64 lowercase hex
/// characters, a function of the input alone.
pub uninterp spec fn sha256_hex_of(data: Seq<u8>) -> Seq<char>;

/// Relies on sha256::digest: the digest string depends on the input bytes
/// alone and is 64 hex characters, all ASCII.
#[verifier::external_body]
fn sha256_hex(data: &Vec<u8>) -> (r: std::string::String)
    ensures
        r@ == sha256_hex_of(data@),
        r@.len() == 64,
        vstd::utf8::is_ascii_chars(r@),
{
    sha256::digest(data.as_slice())
}

/// The hashed seed sent in the login bootstrap: the first eight bytes of the
/// hex digest of the seed's big-endian bytes, read as a big-endian `i64`.
pub open spec fn spec_hashed_seed(seed: i64) -> i64 {
    (be_nat(encode_utf8(sha256_hex_of(be_bytes((seed as u64) as nat, 8))).take(8)) as u64) as i64
}

/// Computes the hashed seed.
pub fn hashed_seed(seed: i64) -> (r: i64)
    ensures
        r == spec_hashed_seed(seed),
{
    let mut bytes: Vec<u8> = Vec::new();
    write_be(&mut bytes, (seed as u64) as u128, 8);
    let hex = sha256_hex(&bytes);
    let hb = hex.as_str().as_bytes();
    proof {
        vstd::utf8::is_ascii_chars_encode_utf8(hex@);
        assert(hb@.len() == 64);
    }
    let mut acc: u64 = 0;
    let mut i: usize = 0;
    let ghost target = encode_utf8(sha256_hex_of(bytes@));
    proof {
        assert(target.take(0) =~= Seq::<u8>::empty());
        lemma2_to64();
    }
    while i < 8
        invariant
            i <= 8,
            hb@ == target,
            target.len() == 64,
            acc == be_nat(target.take(i as int)),
            acc < pow2(8 * i as nat),
        decreases 8 - i,
    {
        proof {
            lemma_pow2_adds(8 * i as nat, 8);
            lemma2_to64();
            lemma2_to64_rest();
            assert(acc * 256 + hb@[i as int] < pow2(8 * i as nat) * 256) by (nonlinear_arith)
                requires
                    acc < pow2(8 * i as nat),
                    hb@[i as int] < 256,
            ;
            assert(pow2(8 * (i + 1) as nat) <= pow2(64)) by {
                if i + 1 < 8 {
                    lemma_pow2_strictly_increases(8 * (i + 1) as nat, 64);
                }
            }
            assert(target.take(i + 1).drop_last() =~= target.take(i as int));
            assert(target.take(i + 1).last() == target[i as int]);
        }
        acc = acc * 256 + (hb[i] as u64);
        i = i + 1;
    }
    acc as i64
}

} // verus!
