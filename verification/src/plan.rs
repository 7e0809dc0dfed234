//! Generation policy: how many frames to run, how much KV budget to reserve, and when to stop.
use vstd::prelude::*;

verus! {

/// Extra KV-cache entries reserved on top of the text tokens and the generated frames, covering
/// the voice-prompt frames (~125 at 12.5Hz for a 10s prompt) plus slack.
pub const PROMPT_SEQ_HEADROOM: usize = 512;

/// Codec frames per second, as a ratio: 12.5Hz is 25 over 2.
#[derive(Clone, Copy, Debug, PartialEq, Eq, Structural)]
pub struct FrameRate {
    pub num: u32,
    pub den: u32,
}

impl FrameRate {
    /// A rate has a denominator.
    pub open spec fn wf(self) -> bool {
        self.den > 0
    }
}

/// The least whole number that is not below `a / b`.
pub open spec fn ceil_div(a: nat, b: nat) -> nat {
    ((a + b - 1) / b as int) as nat
}

/// The frames that `num_tokens` tokens are worth at `rate`: three tokens a second and two seconds
/// of slack, rounded up.
pub open spec fn frames_for(num_tokens: nat, rate: FrameRate) -> nat {
    ceil_div((num_tokens + 6) * rate.num as nat, 3 * rate.den as nat)
}

/// `n`, or the largest machine size where that is smaller.
pub open spec fn capped(n: nat) -> nat {
    if n <= usize::MAX {
        n
    } else {
        usize::MAX as nat
    }
}

/// Frames of audio to generate for a text prompt of `num_tokens` tokens.
///
/// Roughly three tokens per second of speech, plus two seconds of slack, converted to frames at
/// the codec frame rate. This is an upper bound: normal generation stops earlier, when the model
/// signals EOS (see [`EosPolicy`]).
pub fn frame_budget(num_tokens: usize, frame_rate: FrameRate) -> (r: usize)
    requires
        frame_rate.wf(),
    ensures
        r == capped(frames_for(num_tokens as nat, frame_rate)),
{
    let n: u128 = num_tokens as u128 + 6;
    let num: u128 = frame_rate.num as u128;
    let den: u128 = 3 * frame_rate.den as u128;
    assert(n * num <= 0x1_0000_0000_0000_0006 * 0x1_0000_0000) by (nonlinear_arith)
        requires
            n <= 0x1_0000_0000_0000_0006,
            num <= 0x1_0000_0000,
    ;
    let frames: u128 = (n * num + den - 1) / den;
    assert(frames == frames_for(num_tokens as nat, frame_rate));
    if frames <= usize::MAX as u128 {
        frames as usize
    } else {
        usize::MAX
    }
}

/// KV-cache length to allocate for a single text chunk: its text tokens, the frames it may
/// generate, and [`PROMPT_SEQ_HEADROOM`] for the voice prompt.
///
/// A state is allocated once and reused across chunks, so callers with several chunks should
/// allocate the max over all of them.
pub fn seq_budget(num_tokens: usize, frame_budget: usize) -> (r: usize)
    requires
        num_tokens + PROMPT_SEQ_HEADROOM + frame_budget <= usize::MAX,
    ensures
        r == num_tokens + PROMPT_SEQ_HEADROOM + frame_budget,
{
    num_tokens + PROMPT_SEQ_HEADROOM + frame_budget
}

/// More tokens never get fewer frames.
pub proof fn frames_grow_with_the_text(fewer: nat, more: nat, rate: FrameRate)
    requires
        rate.wf(),
        fewer <= more,
    ensures
        frames_for(fewer, rate) <= frames_for(more, rate),
{
    let num = rate.num as nat;
    let den = 3 * rate.den as nat;
    assert((fewer + 6) * num <= (more + 6) * num) by (nonlinear_arith)
        requires
            fewer <= more,
    ;
    let a = (fewer + 6) * num + den - 1;
    let b = (more + 6) * num + den - 1;
    vstd::arithmetic::div_mod::lemma_div_is_ordered(a as int, b as int, den as int);
}

/// The frames cover the promised time: as many seconds as there are thirds of tokens, and two
/// more, and less than one frame beyond that.
pub proof fn frames_cover_the_text(num_tokens: nat, rate: FrameRate)
    requires
        rate.wf(),
    ensures
        frames_for(num_tokens, rate) * (3 * rate.den) >= (num_tokens + 6) * rate.num,
        frames_for(num_tokens, rate) * (3 * rate.den) < (num_tokens + 6) * rate.num + 3 * rate.den,
{
    let a = (num_tokens + 6) * rate.num as nat;
    let den = 3 * rate.den as nat;
    let q = (a + den - 1) / den as int;
    vstd::arithmetic::div_mod::lemma_fundamental_div_mod(a + den - 1, den as int);
    vstd::arithmetic::mul::lemma_mul_is_commutative(q, den as int);
    assert(0 <= (a + den - 1) % (den as int) < den);
    assert(q >= 0) by (nonlinear_arith)
        requires
            q * den > -1 * den,
            den > 0,
    ;
}

/// The larger of two.
pub open spec fn larger(a: nat, b: nat) -> nat {
    if a >= b {
        a
    } else {
        b
    }
}

/// What an [`EosPolicy`] knows: how many frames follow EOS, and, once EOS was seen, how many of
/// them are left.
pub struct Tail {
    pub after_eos: nat,
    pub left: Option<nat>,
}

impl Tail {
    /// A generation that has not seen EOS.
    pub open spec fn fresh(after_eos: nat) -> Tail {
        Tail { after_eos, left: None }
    }

    /// What is left once this frame's EOS flag is known, before the frame itself is counted.
    pub open spec fn noticed(self, is_eos: bool) -> Option<nat> {
        match self.left {
            Some(n) => Some(n),
            None => if is_eos {
                Some(self.after_eos)
            } else {
                None
            },
        }
    }

    /// Generation stops with this frame: the tail has run out.
    pub open spec fn stops(self, is_eos: bool) -> bool {
        self.noticed(is_eos) == Some(0nat)
    }

    /// What is known after this frame.
    pub open spec fn after(self, is_eos: bool) -> Tail {
        Tail {
            after_eos: self.after_eos,
            left: match self.noticed(is_eos) {
                None => None,
                Some(n) => if n == 0 {
                    Some(0)
                } else {
                    Some((n - 1) as nat)
                },
            },
        }
    }
}

/// Tracks the tail of a generation: once the model reports EOS, a few more frames are still
/// emitted so the codec can close out the utterance cleanly.
///
/// `frames_after_eos` is 3 for very short prompts, 1 otherwise.
#[derive(Clone, Copy, Debug)]
pub struct EosPolicy {
    frames_after_eos: usize,
    countdown: Option<usize>,
}

impl View for EosPolicy {
    type V = Tail;

    closed spec fn view(&self) -> Tail {
        Tail {
            after_eos: self.frames_after_eos as nat,
            left: match self.countdown {
                None => None,
                Some(n) => Some(n as nat),
            },
        }
    }
}

impl EosPolicy {
    pub fn new(frames_after_eos: usize) -> (r: Self)
        ensures
            r@ == Tail::fresh(frames_after_eos as nat),
    {
        EosPolicy { frames_after_eos, countdown: None }
    }

    /// Records the EOS flag of the frame that was just generated and returns whether generation
    /// should stop now.
    ///
    /// Call this once per frame, *after* the frame has been handed to the decoder -- the EOS
    /// frame itself is part of the output.
    pub fn should_stop(&mut self, is_eos: bool) -> (r: bool)
        ensures
            r == old(self)@.stops(is_eos),
            final(self)@ == old(self)@.after(is_eos),
    {
        if is_eos && self.countdown.is_none() {
            self.countdown = Some(self.frames_after_eos);
        }
        match self.countdown {
            None => false,
            Some(left) => {
                if left == 0 {
                    true
                } else {
                    self.countdown = Some(left - 1);
                    false
                }
            },
        }
    }

    /// True once the model has signalled EOS, whether or not the tail has run out.
    pub fn saw_eos(&self) -> (r: bool)
        ensures
            r == (self@.left is Some),
    {
        self.countdown.is_some()
    }
}

/// The frames emitted by a generation whose frames would carry these EOS flags, one per frame
/// that the budget allows.
pub open spec fn emitted(tail: Tail, flags: Seq<bool>) -> nat
    decreases flags.len(),
{
    if flags.len() == 0 {
        0
    } else if tail.stops(flags[0]) {
        1
    } else {
        1 + emitted(tail.after(flags[0]), flags.skip(1))
    }
}

/// Once EOS was seen, the tail runs out or the budget does.
proof fn the_tail_runs_out(tail: Tail, flags: Seq<bool>)
    requires
        tail.left is Some,
    ensures
        emitted(tail, flags) == if tail.left->0 + 1 <= flags.len() {
            tail.left->0 + 1
        } else {
            flags.len()
        },
    decreases flags.len(),
{
    if flags.len() > 0 && !tail.stops(flags[0]) {
        the_tail_runs_out(tail.after(flags[0]), flags.skip(1));
    }
}

/// A generation emits the EOS frame and the tail behind it, as far as the budget goes.
pub proof fn the_eos_frame_and_its_tail_are_emitted(after_eos: nat, flags: Seq<bool>, eos_at: int)
    requires
        0 <= eos_at < flags.len(),
        flags[eos_at],
        forall|i: int| 0 <= i < eos_at ==> !flags[i],
    ensures
        emitted(Tail::fresh(after_eos), flags) == if eos_at + 1 + after_eos <= flags.len() {
            (eos_at + 1 + after_eos) as nat
        } else {
            flags.len()
        },
    decreases flags.len(),
{
    let tail = Tail::fresh(after_eos);
    if eos_at == 0 {
        if after_eos > 0 {
            the_tail_runs_out(tail.after(true), flags.skip(1));
        }
    } else {
        assert(!flags[0]);
        assert(tail.after(false) == tail);
        the_eos_frame_and_its_tail_are_emitted(after_eos, flags.skip(1), eos_at - 1);
    }
}

/// A generation that never signals EOS is capped by its budget.
pub proof fn without_eos_the_budget_is_used_up(after_eos: nat, flags: Seq<bool>)
    requires
        forall|i: int| 0 <= i < flags.len() ==> !flags[i],
    ensures
        emitted(Tail::fresh(after_eos), flags) == flags.len(),
    decreases flags.len(),
{
    if flags.len() > 0 {
        assert(!flags[0]);
        assert(Tail::fresh(after_eos).after(false) == Tail::fresh(after_eos));
        without_eos_the_budget_is_used_up(after_eos, flags.skip(1));
    }
}

/// The frame budget of a text lasts for a third of a second per token and two seconds more, and
/// for less than a frame beyond that, unless no machine size is that large.
pub proof fn a_budget_lasts_for_its_text(num_tokens: usize, rate: FrameRate, budget: usize)
    requires
        rate.wf(),
        call_ensures(frame_budget, (num_tokens, rate), budget),
    ensures
        budget * (3 * rate.den) < (num_tokens + 6) * rate.num + 3 * rate.den,
        budget < usize::MAX ==> budget * (3 * rate.den) >= (num_tokens + 6) * rate.num,
{
    frames_cover_the_text(num_tokens as nat, rate);
    let frames = frames_for(num_tokens as nat, rate);
    let den = 3 * rate.den;
    if frames > usize::MAX {
        assert(budget * den <= frames * den) by (nonlinear_arith)
            requires
                budget <= frames,
                den >= 0,
        ;
    }
}

/// A longer text never gets a smaller budget.
pub proof fn longer_texts_get_no_less(
    fewer: usize,
    more: usize,
    rate: FrameRate,
    less: usize,
    larger: usize,
)
    requires
        rate.wf(),
        fewer <= more,
        call_ensures(frame_budget, (fewer, rate), less),
        call_ensures(frame_budget, (more, rate), larger),
    ensures
        less <= larger,
{
    frames_grow_with_the_text(fewer as nat, more as nat, rate);
}

/// A KV budget has room for the text, for the frames and for a voice prompt of 512 slots, and for
/// nothing else.
pub proof fn a_kv_budget_has_room_for_all(num_tokens: usize, frames: usize, budget: usize)
    requires
        call_ensures(seq_budget, (num_tokens, frames), budget),
    ensures
        budget - num_tokens - frames == 512,
{
}

} // verus!
