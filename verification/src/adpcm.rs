//! Yamaha ADPCM-B: four bits a sample, decoded to signed 16-bit PCM.

use vstd::prelude::*;

verus! {

/// What the decoder carries from one sample to the next.
pub struct DecodeContext {
    /// The sample decoded last.
    pub history: i16,
    /// The current quantizer step size.
    pub step_size: u16,
}

/// Smallest step size.
pub const STEP_MIN: u16 = 127;

/// Largest step size.
pub const STEP_MAX: u16 = 24576;

/// `x`, held to the range from `lo` to `hi`.
pub open spec fn clamp(x: int, lo: int, hi: int) -> int {
    if x < lo {
        lo
    } else if x > hi {
        hi
    } else {
        x
    }
}

/// The factor, in 64ths, by which a code with magnitude `delta` scales the
/// step size.
pub open spec fn step_factor(delta: int) -> int {
    if delta < 4 {
        57
    } else if delta == 4 {
        77
    } else if delta == 5 {
        102
    } else if delta == 6 {
        128
    } else {
        153
    }
}

/// The sample after the code `step`: the last sample moved by
/// `(1 + 2 * delta) * step_size / 8`, down if bit 3 of the code is set and up
/// if not, held to the 16-bit range. `delta` is the code's low three bits.
pub open spec fn next_history(history: int, step_size: int, step: int) -> int {
    let delta = step % 8;
    let diff = ((1 + 2 * delta) * step_size) / 8;
    if (step / 8) % 2 == 1 {
        clamp(history - diff, -32768, 32767)
    } else {
        clamp(history + diff, -32768, 32767)
    }
}

/// The step size after the code `step`.
pub open spec fn next_step_size(step_size: int, step: int) -> int {
    clamp((step_factor(step % 8) * step_size) / 64, STEP_MIN as int, STEP_MAX as int)
}

impl DecodeContext {
    /// The step size stays inside its range.
    pub open spec fn wf(self) -> bool {
        STEP_MIN <= self.step_size <= STEP_MAX
    }

    /// The state before the first sample.
    pub fn new() -> (r: DecodeContext)
        ensures
            r.wf(),
            r.history == 0,
            r.step_size == 127,
    {
        DecodeContext { history: 0, step_size: 127 }
    }
}

/// The fields of a code byte as arithmetic.
proof fn lemma_code_bits(step: u8)
    by (bit_vector)
    ensures
        step & 7 == step % 8,
        (step & 8 != 0) == ((step / 8) % 2 == 1),
        step >> 4 == step / 16,
        step & 0x0f == step % 16,
{
}

/// The shifts of the decoder as arithmetic.
proof fn lemma_shifts(x: u32)
    by (bit_vector)
    ensures
        x >> 3 == x / 8,
        x >> 6 == x / 64,
        x <= 7 ==> x << 1 == 2 * x,
{
}

/// Looks up the step size factor of a magnitude.
fn factor(delta: u8) -> (r: u32)
    requires
        delta < 8,
    ensures
        r == step_factor(delta as int),
{
    if delta < 4 {
        57
    } else if delta == 4 {
        77
    } else if delta == 5 {
        102
    } else if delta == 6 {
        128
    } else {
        153
    }
}

/// Decodes one four-bit code: updates the state and returns the new sample.
pub fn ymb_step(step: u8, context: &mut DecodeContext) -> (sample: i16)
    requires
        old(context).wf(),
    ensures
        final(context).wf(),
        final(context).history == next_history(
            old(context).history as int,
            old(context).step_size as int,
            step as int,
        ),
        final(context).step_size == next_step_size(old(context).step_size as int, step as int),
        sample == final(context).history,
{
    let sign: u8 = step & 8;
    let delta: u8 = step & 7;
    let size: u32 = context.step_size as u32;
    proof {
        lemma_code_bits(step);
        lemma_shifts(delta as u32);
    }
    let scale: u32 = 1 + ((delta as u32) << 1);
    let growth: u32 = factor(delta);
    assert(scale * size <= 15 * 24576 && growth * size <= 153 * 24576) by (nonlinear_arith)
        requires
            scale <= 15,
            growth <= 153,
            size <= 24576,
    ;
    let product: u32 = scale * size;
    let diff: u32 = product >> 3;
    let grown: u32 = growth * size;
    let nstep: u32 = grown >> 6;
    proof {
        lemma_shifts(product);
        lemma_shifts(grown);
    }
    let mut newval: i32 = context.history as i32;
    if sign > 0 {
        newval = newval - diff as i32;
    } else {
        newval = newval + diff as i32;
    }
    let clamped_step: u16 = if nstep < 127 {
        127
    } else if nstep > 24576 {
        24576
    } else {
        nstep as u16
    };
    let clamped: i16 = if newval < -32768 {
        -32768
    } else if newval > 32767 {
        32767
    } else {
        newval as i16
    };
    context.step_size = clamped_step;
    context.history = clamped;
    clamped
}

/// The code at place `k` of a stream: each byte holds two, the high four bits
/// first.
pub open spec fn code_at(data: Seq<u8>, k: int) -> int {
    if k % 2 == 0 {
        data[k / 2] as int / 16
    } else {
        data[k / 2] as int % 16
    }
}

/// The decoder's state, sample and step size, after the first `k` codes of a
/// stream. It starts from sample 0 and step size 127.
pub open spec fn state_after(data: Seq<u8>, k: int) -> (int, int)
    decreases k,
{
    if k <= 0 {
        (0, 127)
    } else {
        let before = state_after(data, k - 1);
        (
            next_history(before.0, before.1, code_at(data, k - 1)),
            next_step_size(before.1, code_at(data, k - 1)),
        )
    }
}

/// The samples that a stream decodes to: two for each byte, each the state's
/// sample after one more code.
pub open spec fn adpcm_samples(data: Seq<u8>) -> Seq<i16> {
    Seq::new(2 * data.len(), |k: int| state_after(data, k + 1).0 as i16)
}

/// Decodes a stream of ADPCM codes to PCM samples.
pub fn decode_adpcm(data: &[u8]) -> (result: Vec<i16>)
    ensures
        result@ == adpcm_samples(data@),
{
    let mut result: Vec<i16> = Vec::new();
    let mut context = DecodeContext::new();
    let mut i: usize = 0;
    while i < data.len()
        invariant
            i <= data@.len(),
            context.wf(),
            result@.len() == 2 * i,
            (context.history as int, context.step_size as int) == state_after(data@, 2 * i),
            forall|k: int| 0 <= k < 2 * i ==> result@[k] == state_after(data@, k + 1).0 as i16,
        decreases data@.len() - i,
    {
        let byte: u8 = data[i];
        proof {
            lemma_code_bits(byte);
            assert(code_at(data@, 2 * i) == (byte >> 4) as int);
            assert(code_at(data@, 2 * i + 1) == (byte & 0x0f) as int);
        }
        let high = ymb_step(byte >> 4, &mut context);
        result.push(high);
        assert(state_after(data@, 2 * i + 1) == (
            next_history(
                state_after(data@, 2 * i).0,
                state_after(data@, 2 * i).1,
                code_at(data@, 2 * i),
            ),
            next_step_size(state_after(data@, 2 * i).1, code_at(data@, 2 * i)),
        ));
        let low = ymb_step(byte & 0x0f, &mut context);
        result.push(low);
        assert(state_after(data@, 2 * i + 2) == (
            next_history(
                state_after(data@, 2 * i + 1).0,
                state_after(data@, 2 * i + 1).1,
                code_at(data@, 2 * i + 1),
            ),
            next_step_size(state_after(data@, 2 * i + 1).1, code_at(data@, 2 * i + 1)),
        ));
        i = i + 1;
    }
    assert(result@ =~= adpcm_samples(data@));
    result
}

} // verus!
