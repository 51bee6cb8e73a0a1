use vstd::prelude::*;
use vstd::arithmetic::power2::{pow2, lemma2_to64, lemma_pow2_unfold, lemma_pow2_strictly_increases};

verus! {

/// Byte value of the sync preamble (`#`).
pub const SYNC_BYTE: u8 = 0x23;

/// Number of sync bytes that open a frame.
pub const SYNC_LEN: usize = 11;

/// Samples packed into one payload byte.
pub const BITS_PER_BYTE: usize = 8;

/// Payload bytes per block.
pub const BLOCK_BYTES: usize = 8;

/// Byte written after each full block.
pub const PAD_BYTE: u8 = 0;

/// Pause after each full block, in milliseconds.
pub const PAUSE_MS: u64 = 10;

/// One step of a transmission over the serial channel.
#[derive(Debug, Clone, Copy, PartialEq, Eq, Structural)]
pub enum FrameAction {
    /// Write one byte.
    Write(u8),
    /// Flush the channel.
    Flush,
    /// Block for `PAUSE_MS` milliseconds.
    Pause,
}

/// Threshold bit of a sample: 1 above the midpoint 127, else 0.
pub open spec fn threshold(s: u8) -> int {
    if s > 127 { 1 } else { 0 }
}

/// Value of a group of samples packed least-significant bit first: the
/// threshold bit of `g[i]` has weight `2^i`.
pub open spec fn pack(g: Seq<u8>) -> int
    decreases g.len(),
{
    if g.len() == 0 {
        0
    } else {
        threshold(g[0]) + 2 * pack(g.drop_first())
    }
}

/// Bit `j` of `b`, counting from the least significant.
pub open spec fn bit_of(b: int, j: nat) -> int
    decreases j,
{
    if j == 0 {
        b % 2
    } else {
        bit_of(b / 2, (j - 1) as nat)
    }
}

/// Number of payload bytes for `n` samples: a partial last group still
/// gives a byte.
pub open spec fn group_count(n: int) -> int {
    (n + 7) / 8
}

/// Samples of group `k`: up to eight, starting at `8 * k`.
pub open spec fn group(s: Seq<u8>, k: int) -> Seq<u8> {
    s.subrange(8 * k, if 8 * k + 8 < s.len() { 8 * k + 8 } else { s.len() as int })
}

/// Payload bytes of a sample sequence: one packed byte per group, the last
/// group padded with zero bits.
pub open spec fn payload(s: Seq<u8>) -> Seq<u8> {
    Seq::new(group_count(s.len() as int) as nat, |k: int| pack(group(s, k)) as u8)
}

pub open spec fn writes(b: Seq<u8>) -> Seq<FrameAction> {
    b.map_values(|x: u8| FrameAction::Write(x))
}

/// The sync preamble.
pub open spec fn preamble() -> Seq<u8> {
    Seq::new(11, |i: int| 0x23u8)
}

/// Actions for the first `b` full blocks of payload `p`: each block's eight
/// bytes, one padding byte, a flush and a pause.
pub open spec fn full_blocks(p: Seq<u8>, b: nat) -> Seq<FrameAction>
    decreases b,
{
    if b == 0 {
        Seq::empty()
    } else {
        full_blocks(p, (b - 1) as nat) + writes(p.subrange(8 * (b - 1), 8 * b as int)) + seq![
            FrameAction::Write(0),
            FrameAction::Flush,
            FrameAction::Pause,
        ]
    }
}

/// Actions for payload `p`: its full blocks, then the bytes of a trailing
/// partial block, which get no padding and no pause.
pub open spec fn payload_actions(p: Seq<u8>) -> Seq<FrameAction> {
    full_blocks(p, (p.len() / 8) as nat) + writes(p.subrange(8 * (p.len() / 8) as int, p.len() as int))
}

/// The whole transmission for samples `s`: preamble and flush, the payload's
/// blocks, and a closing flush.
pub open spec fn frame(s: Seq<u8>) -> Seq<FrameAction> {
    writes(preamble()) + seq![FrameAction::Flush] + payload_actions(payload(s)) + seq![
        FrameAction::Flush,
    ]
}

proof fn lemma_pack_bound(g: Seq<u8>)
    ensures
        0 <= pack(g) < pow2(g.len()),
    decreases g.len(),
{
    if g.len() > 0 {
        lemma_pack_bound(g.drop_first());
        lemma_pow2_unfold(g.len());
    } else {
        lemma2_to64();
    }
}

proof fn lemma_pack_bit(g: Seq<u8>, j: nat)
    requires
        j < g.len(),
    ensures
        bit_of(pack(g), j) == threshold(g[j as int]),
    decreases j,
{
    let t = threshold(g[0]);
    let rest = pack(g.drop_first());
    assert((t + 2 * rest) % 2 == t && (t + 2 * rest) / 2 == rest) by (nonlinear_arith)
        requires
            t == 0 || t == 1,
    ;
    if j > 0 {
        lemma_pack_bit(g.drop_first(), (j - 1) as nat);
    }
}

/// Each sample becomes, at its own position, one bit of the payload: bit
/// `k % 8` of payload byte `k / 8` is 1 exactly when sample `k` is above 127
/// (127 gives 0, 128 gives 1).
pub proof fn threshold_bit_at(s: Seq<u8>, k: int)
    requires
        0 <= k < s.len(),
    ensures
        bit_of(payload(s)[k / 8] as int, (k % 8) as nat) == threshold(s[k]),
        s[k] <= 127 ==> bit_of(payload(s)[k / 8] as int, (k % 8) as nat) == 0,
        s[k] >= 128 ==> bit_of(payload(s)[k / 8] as int, (k % 8) as nat) == 1,
{
    let g = group(s, k / 8);
    assert(g[k % 8] == s[k]);
    lemma_pack_bound(g);
    lemma2_to64();
    if g.len() < 8 {
        lemma_pow2_strictly_increases(g.len(), 8);
    }
    lemma_pack_bit(g, (k % 8) as nat);
}

/// Exactly one block: 64 samples give the preamble and a flush, the eight
/// payload bytes, one padding byte, one flush-then-pause, and the closing
/// flush (twenty bytes written in all).
pub proof fn one_block_frame(s: Seq<u8>)
    requires
        s.len() == 64,
    ensures
        payload(s).len() == 8,
        frame(s) == writes(preamble()) + seq![FrameAction::Flush] + writes(payload(s)) + seq![
            FrameAction::Write(0),
            FrameAction::Flush,
            FrameAction::Pause,
            FrameAction::Flush,
        ],
        writes(preamble()).len() + payload(s).len() + 1 == 20,
{
    let p = payload(s);
    assert(full_blocks(p, 0) == Seq::<FrameAction>::empty());
    assert(p.subrange(0, 8) =~= p);
    assert(writes(p.subrange(8, 8)) =~= Seq::<FrameAction>::empty());
    assert(frame(s) =~= writes(preamble()) + seq![FrameAction::Flush] + writes(p) + seq![
        FrameAction::Write(0),
        FrameAction::Flush,
        FrameAction::Pause,
        FrameAction::Flush,
    ]);
}

/// Threshold bit of one sample.
pub fn sample_bit(s: u8) -> (r: u8)
    ensures
        r == threshold(s),
{
    if s > u8::MAX / 2 {
        1
    } else {
        0
    }
}

/// Packs `samples[start..end]` (at most eight samples) into one byte, the
/// first sample in the least significant bit and missing bits zero.
pub fn pack_group(samples: &Vec<u8>, start: usize, end: usize) -> (r: u8)
    requires
        start <= end <= samples@.len(),
        end - start <= 8,
    ensures
        r == pack(samples@.subrange(start as int, end as int)),
{
    let mut byte: u8 = 0;
    let mut j: usize = end;
    proof {
        assert(samples@.subrange(end as int, end as int).len() == 0);
        lemma2_to64();
    }
    while j > start
        invariant
            start <= j <= end <= samples@.len(),
            end - start <= 8,
            byte == pack(samples@.subrange(j as int, end as int)),
            byte < pow2((end - j) as nat),
        decreases j,
    {
        j = j - 1;
        proof {
            let g = samples@.subrange(j as int, end as int);
            assert(g.drop_first() =~= samples@.subrange(j + 1, end as int));
            lemma_pow2_unfold((end - j) as nat);
            if end - j < 8 {
                lemma_pow2_strictly_increases((end - j) as nat, 8);
            }
            lemma2_to64();
        }
        byte = byte * 2 + sample_bit(samples[j]);
    }
    byte
}

/// Payload bytes of `samples`: every group of eight samples packed into one
/// byte, and a trailing partial group padded with zero bits and sent too.
pub fn pack_samples(samples: &Vec<u8>) -> (r: Vec<u8>)
    ensures
        r@ == payload(samples@),
{
    let len = samples.len();
    let mut out: Vec<u8> = Vec::new();
    let mut start: usize = 0;
    while start < len
        invariant
            len == samples@.len(),
            start <= len,
            out@.len() == (start + 7) / 8,
            start == len || start % 8 == 0,
            forall|k: int| 0 <= k < out@.len() ==> out@[k] == pack(group(samples@, k)) as u8,
        decreases len - start,
    {
        let end = if len - start > BITS_PER_BYTE { start + BITS_PER_BYTE } else { len };
        let byte = pack_group(samples, start, end);
        proof {
            let k = out@.len() as int;
            assert(8 * k == start);
            assert(group(samples@, k) == samples@.subrange(start as int, end as int));
        }
        out.push(byte);
        start = end;
    }
    assert(out@ =~= payload(samples@));
    out
}

/// Every action of a transmission of `samples`, in order: write the
/// preamble and flush; write the payload bytes, and after each block of
/// eight write a padding byte, flush and pause; flush at the end.
pub fn encode_frame(samples: &Vec<u8>) -> (r: Vec<FrameAction>)
    ensures
        r@ == frame(samples@),
{
    let mut out: Vec<FrameAction> = Vec::new();
    let mut i: usize = 0;
    while i < SYNC_LEN
        invariant
            i <= SYNC_LEN,
            out@ == writes(preamble().subrange(0, i as int)),
        decreases SYNC_LEN - i,
    {
        out.push(FrameAction::Write(SYNC_BYTE));
        i = i + 1;
        proof {
            assert(out@ =~= writes(preamble().subrange(0, i as int)));
        }
    }
    out.push(FrameAction::Flush);
    let ghost head = writes(preamble()) + seq![FrameAction::Flush];
    assert(preamble().subrange(0, 11) =~= preamble());
    assert(out@ == head);

    let payload_bytes = pack_samples(samples);
    let ghost p = payload_bytes@;
    let n = payload_bytes.len();
    let mut j: usize = 0;
    while j < n
        invariant
            n == p.len(),
            payload_bytes@ == p,
            j <= n,
            out@ == head + full_blocks(p, (j / 8) as nat) + writes(
                p.subrange(8 * (j / 8), j as int),
            ),
        decreases n - j,
    {
        let ghost b: int = (j / 8) as int;
        let ghost before = out@;
        out.push(FrameAction::Write(payload_bytes[j]));
        proof {
            assert(writes(p.subrange(8 * b, j as int)).push(FrameAction::Write(p[j as int]))
                =~= writes(p.subrange(8 * b, j + 1)));
            assert(out@ =~= head + full_blocks(p, b as nat) + writes(p.subrange(8 * b, j + 1)));
        }
        if (j + 1) % BLOCK_BYTES == 0 {
            out.push(FrameAction::Write(PAD_BYTE));
            out.push(FrameAction::Flush);
            out.push(FrameAction::Pause);
            proof {
                assert((j + 1) / 8 == b + 1);
                assert(8 * (b + 1) == j + 1);
                assert(writes(p.subrange(j + 1, j + 1)) =~= Seq::<FrameAction>::empty());
                assert(full_blocks(p, (b + 1) as nat) == full_blocks(p, b as nat) + writes(
                    p.subrange(8 * b, 8 * (b + 1)),
                ) + seq![FrameAction::Write(0), FrameAction::Flush, FrameAction::Pause]);
                assert(out@ =~= head + full_blocks(p, (b + 1) as nat) + writes(
                    p.subrange(j + 1, j + 1),
                ));
            }
        } else {
            proof {
                assert((j + 1) / 8 == b);
            }
        }
        j = j + 1;
    }
    out.push(FrameAction::Flush);
    proof {
        assert(out@ =~= frame(samples@));
    }
    out
}

} // verus!
