//! Output frames: two signed 16-bit samples packed in one 32-bit word,
//! the left channel in the low half and the right channel in the high
//! half, and the saturating sum that mixes amplitudes into a frame.

use vstd::prelude::*;

verus! {

/// The value of a 16-bit half read as two's complement.
pub open spec fn signed16(half: int) -> int {
    if half >= 32768 {
        half - 65536
    } else {
        half
    }
}

/// The 16-bit half that holds `sample` in two's complement.
pub open spec fn unsigned16(sample: int) -> int {
    if sample < 0 {
        sample + 65536
    } else {
        sample
    }
}

/// Left sample of a frame.
pub open spec fn left_of(frame: u32) -> int {
    signed16(frame as int % 65536)
}

/// Right sample of a frame.
pub open spec fn right_of(frame: u32) -> int {
    signed16(frame as int / 65536)
}

/// The frame that holds the two samples.
pub open spec fn pack(left: int, right: int) -> u32 {
    (unsigned16(left) + 65536 * unsigned16(right)) as u32
}

/// `x` held inside the range of a signed 16-bit sample.
pub open spec fn clip(x: int) -> int {
    if x > i16::MAX {
        i16::MAX as int
    } else if x < i16::MIN {
        i16::MIN as int
    } else {
        x
    }
}

/// The frame after one voice's amplitudes were added, each channel
/// saturating on its own.
pub open spec fn accumulated(frame: u32, left: int, right: int) -> u32 {
    pack(clip(left_of(frame) + left), clip(right_of(frame) + right))
}

/// The frame after the amplitudes of several voices were added in order.
pub open spec fn mixed(frame: u32, amps: Seq<(i16, i16)>) -> u32
    decreases amps.len(),
{
    if amps.len() == 0 {
        frame
    } else {
        accumulated(mixed(frame, amps.drop_last()), amps.last().0 as int, amps.last().1 as int)
    }
}

/// Sum of the left amplitudes.
pub open spec fn left_sum(amps: Seq<(i16, i16)>) -> int
    decreases amps.len(),
{
    if amps.len() == 0 {
        0
    } else {
        left_sum(amps.drop_last()) + amps.last().0
    }
}

/// Sum of the right amplitudes.
pub open spec fn right_sum(amps: Seq<(i16, i16)>) -> int
    decreases amps.len(),
{
    if amps.len() == 0 {
        0
    } else {
        right_sum(amps.drop_last()) + amps.last().1
    }
}

/// Packing two samples and reading them back gives the samples.
pub proof fn lemma_pack_unpack(left: int, right: int)
    requires
        i16::MIN <= left <= i16::MAX,
        i16::MIN <= right <= i16::MAX,
    ensures
        left_of(pack(left, right)) == left,
        right_of(pack(left, right)) == right,
{
    let low = unsigned16(left);
    let high = unsigned16(right);
    let word = low + 65536 * high;
    assert(0 <= low < 65536 && 0 <= high < 65536);
    assert(word % 65536 == low && word / 65536 == high) by (nonlinear_arith)
        requires
            0 <= low < 65536,
            0 <= high,
            word == low + 65536 * high,
    ;
}

/// Reading the two samples of a frame and packing them gives the frame.
pub proof fn lemma_unpack_pack(frame: u32)
    ensures
        pack(left_of(frame), right_of(frame)) == frame,
        i16::MIN <= left_of(frame) <= i16::MAX,
        i16::MIN <= right_of(frame) <= i16::MAX,
{
}

pub fn left_sample(frame: u32) -> (r: i16)
    ensures
        r == left_of(frame),
{
    let half: u32 = frame % 65536;
    if half >= 32768 {
        (half as i32 - 65536) as i16
    } else {
        half as i16
    }
}

pub fn right_sample(frame: u32) -> (r: i16)
    ensures
        r == right_of(frame),
{
    let half: u32 = frame / 65536;
    if half >= 32768 {
        (half as i32 - 65536) as i16
    } else {
        half as i16
    }
}

pub fn pack_frame(left: i16, right: i16) -> (r: u32)
    ensures
        r == pack(left as int, right as int),
        left_of(r) == left,
        right_of(r) == right,
{
    proof {
        lemma_pack_unpack(left as int, right as int);
    }
    let low: u32 = if left < 0 {
        (left as i32 + 65536) as u32
    } else {
        left as u32
    };
    let high: u32 = if right < 0 {
        (right as i32 + 65536) as u32
    } else {
        right as u32
    };
    low + 65536 * high
}

/// Sum of two samples, held inside the range of a sample.
pub fn saturating_sum(a: i16, b: i16) -> (r: i16)
    ensures
        r == clip(a + b),
{
    let sum: i32 = a as i32 + b as i32;
    if sum > 32767 {
        32767
    } else if sum < -32768 {
        -32768
    } else {
        sum as i16
    }
}

/// Adds one voice's amplitudes to a frame. A channel whose sum leaves
/// the range of a sample stays at the end of the range it left by.
pub fn accumulate(frame: u32, left: i16, right: i16) -> (r: u32)
    ensures
        r == accumulated(frame, left as int, right as int),
        left_of(r) == clip(left_of(frame) + left),
        right_of(r) == clip(right_of(frame) + right),
{
    let l = saturating_sum(left_sample(frame), left);
    let r = saturating_sum(right_sample(frame), right);
    pack_frame(l, r)
}

/// Adds the amplitudes of several voices to a frame, in order.
pub fn accumulate_all(frame: u32, amps: &Vec<(i16, i16)>) -> (r: u32)
    ensures
        r == mixed(frame, amps@),
{
    let mut acc = frame;
    let mut i: usize = 0;
    while i < amps.len()
        invariant
            i <= amps.len(),
            acc == mixed(frame, amps@.take(i as int)),
        decreases amps.len() - i,
    {
        proof {
            assert(amps@.take(i + 1).drop_last() =~= amps@.take(i as int));
        }
        acc = accumulate(acc, amps[i].0, amps[i].1);
        i += 1;
    }
    proof {
        assert(amps@.take(i as int) =~= amps@);
    }
    acc
}

/// Voices that all push a channel upward never make it wrap: the channel
/// holds the true sum while that fits, and the highest sample once it
/// does not.
pub proof fn lemma_mixed_clips_high(frame: u32, amps: Seq<(i16, i16)>)
    ensures
        (forall|i: int| 0 <= i < amps.len() ==> (#[trigger] amps[i]).0 >= 0) ==> left_of(
            mixed(frame, amps),
        ) == clip(left_of(frame) + left_sum(amps)),
        (forall|i: int| 0 <= i < amps.len() ==> (#[trigger] amps[i]).1 >= 0) ==> right_of(
            mixed(frame, amps),
        ) == clip(right_of(frame) + right_sum(amps)),
        (forall|i: int| 0 <= i < amps.len() ==> (#[trigger] amps[i]).0 >= 0) ==> left_sum(amps)
            >= 0,
        (forall|i: int| 0 <= i < amps.len() ==> (#[trigger] amps[i]).1 >= 0) ==> right_sum(amps)
            >= 0,
    decreases amps.len(),
{
    lemma_unpack_pack(frame);
    if amps.len() > 0 {
        let rest = amps.drop_last();
        lemma_mixed_clips_high(frame, rest);
        let before = mixed(frame, rest);
        lemma_unpack_pack(before);
        lemma_pack_unpack(
            clip(left_of(before) + amps.last().0),
            clip(right_of(before) + amps.last().1),
        );
        assert(forall|i: int| 0 <= i < rest.len() ==> rest[i] == amps[i]);
    }
}

/// Voices that all push a channel downward never make it wrap: the
/// channel holds the true sum while that fits, and the lowest sample
/// once it does not.
pub proof fn lemma_mixed_clips_low(frame: u32, amps: Seq<(i16, i16)>)
    ensures
        (forall|i: int| 0 <= i < amps.len() ==> (#[trigger] amps[i]).0 <= 0) ==> left_of(
            mixed(frame, amps),
        ) == clip(left_of(frame) + left_sum(amps)),
        (forall|i: int| 0 <= i < amps.len() ==> (#[trigger] amps[i]).1 <= 0) ==> right_of(
            mixed(frame, amps),
        ) == clip(right_of(frame) + right_sum(amps)),
        (forall|i: int| 0 <= i < amps.len() ==> (#[trigger] amps[i]).0 <= 0) ==> left_sum(amps)
            <= 0,
        (forall|i: int| 0 <= i < amps.len() ==> (#[trigger] amps[i]).1 <= 0) ==> right_sum(amps)
            <= 0,
    decreases amps.len(),
{
    lemma_unpack_pack(frame);
    if amps.len() > 0 {
        let rest = amps.drop_last();
        lemma_mixed_clips_low(frame, rest);
        let before = mixed(frame, rest);
        lemma_unpack_pack(before);
        lemma_pack_unpack(
            clip(left_of(before) + amps.last().0),
            clip(right_of(before) + amps.last().1),
        );
        assert(forall|i: int| 0 <= i < rest.len() ==> rest[i] == amps[i]);
    }
}

} // verus!
