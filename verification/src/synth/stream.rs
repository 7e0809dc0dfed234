//! A running generation: the loop that turns chunks into latents, the batching that feeds the
//! codec, and what the consumer sees.
use super::session::ChunkPlan;
use crate::error::{Cause, Error, Failure, Result, TensorError};
use crate::plan::{self, EosPolicy, Tail};
use vstd::prelude::*;
use vstd::string::*;

verus! {

/// What the generation loop asks for next.
#[derive(Clone, Copy, Debug, PartialEq, Eq, Structural)]
pub enum Todo {
    /// Start chunk `chunk` from the primed state: run its text, and with guidance on the null
    /// branch.
    Prompt { chunk: usize },
    /// Generate the next frame of the chunk and hand it to the decoder. The first one of a chunk
    /// starts from the beginning-of-speech input, any other from the frame before it.
    Step { chunk: usize, first: bool },
    /// Tell the decoder that the chunk is over.
    EndChunk,
    /// Nothing: the generation is over.
    Done,
}

/// What came of it.
#[derive(Clone, Copy, Debug, PartialEq, Eq, Structural)]
pub enum Outcome {
    /// The prompt ran, or the end of the chunk was sent.
    Finished,
    /// The frame was generated, with this EOS flag, and sent.
    Frame { is_eos: bool },
    /// The consumer went away. Stop quietly.
    Closed,
    /// The work failed.
    Failed,
}

/// Where the loop stands within a chunk.
#[derive(Clone, Copy, Debug, PartialEq, Eq, Structural)]
enum Phase {
    Prompt,
    Step,
    EndChunk,
    Done,
}

/// The autoregressive loop over the chunks of a text.
pub struct Backbone {
    chunks: Vec<ChunkPlan>,
    chunk: usize,
    /// Frames generated of the chunk.
    frames: usize,
    eos: EosPolicy,
    phase: Phase,
}

/// The budget and the tail of a chunk.
pub struct ChunkShape {
    pub frame_budget: nat,
    pub after_eos: nat,
}

/// Where a generation stands.
pub enum Stage {
    Prompt,
    Step,
    EndChunk,
    Done,
}

/// The state of a generation.
pub struct Progress {
    pub chunks: Seq<ChunkShape>,
    pub chunk: nat,
    pub frames: nat,
    pub tail: Tail,
    pub stage: Stage,
}

/// The budget and the tail of each chunk.
pub open spec fn shapes(chunks: Seq<ChunkPlan>) -> Seq<ChunkShape> {
    Seq::new(
        chunks.len(),
        |i: int|
            ChunkShape {
                frame_budget: chunks[i].frame_budget as nat,
                after_eos: chunks[i].frames_after_eos as nat,
            },
    )
}

impl Progress {
    /// At the start of chunk `chunk`, or at the end when there is none.
    pub open spec fn at_chunk(chunks: Seq<ChunkShape>, chunk: nat) -> Progress {
        Progress {
            chunks,
            chunk,
            frames: 0,
            tail: Tail::fresh(
                if chunk < chunks.len() {
                    chunks[chunk as int].after_eos
                } else {
                    0
                },
            ),
            stage: if chunk < chunks.len() {
                Stage::Prompt
            } else {
                Stage::Done
            },
        }
    }

    /// The loop is within its chunks and budgets.
    pub open spec fn wf(self) -> bool {
        match self.stage {
            Stage::Done => true,
            Stage::Step => self.chunk < self.chunks.len() && self.frames
                < self.chunks[self.chunk as int].frame_budget,
            Stage::Prompt => self.chunk < self.chunks.len() && self.frames == 0,
            Stage::EndChunk => self.chunk < self.chunks.len(),
        }
    }

    /// What is to be done.
    pub open spec fn todo(self) -> Todo {
        match self.stage {
            Stage::Prompt => Todo::Prompt { chunk: self.chunk as usize },
            Stage::Step => Todo::Step { chunk: self.chunk as usize, first: self.frames == 0 },
            Stage::EndChunk => Todo::EndChunk,
            Stage::Done => Todo::Done,
        }
    }

    /// The outcome is one that what was to be done can have.
    pub open spec fn expects(self, outcome: Outcome) -> bool {
        match outcome {
            Outcome::Finished => self.stage is Prompt || self.stage is EndChunk,
            Outcome::Frame { is_eos } => self.stage is Step,
            Outcome::Closed | Outcome::Failed => true,
        }
    }

    /// The state behind an outcome.
    pub open spec fn after(self, outcome: Outcome) -> Progress {
        match outcome {
            Outcome::Closed | Outcome::Failed => Progress { stage: Stage::Done, ..self },
            Outcome::Finished => if self.stage is Prompt {
                Progress {
                    stage: if self.chunks[self.chunk as int].frame_budget > 0 {
                        Stage::Step
                    } else {
                        Stage::EndChunk
                    },
                    ..self
                }
            } else {
                Progress::at_chunk(self.chunks, self.chunk + 1)
            },
            Outcome::Frame { is_eos } => Progress {
                frames: self.frames + 1,
                tail: self.tail.after(is_eos),
                stage: if self.tail.stops(is_eos) || self.frames + 1
                    >= self.chunks[self.chunk as int].frame_budget {
                    Stage::EndChunk
                } else {
                    Stage::Step
                },
                ..self
            },
        }
    }
}

impl View for Backbone {
    type V = Progress;

    closed spec fn view(&self) -> Progress {
        Progress {
            chunks: shapes(self.chunks@),
            chunk: self.chunk as nat,
            frames: self.frames as nat,
            tail: self.eos@,
            stage: match self.phase {
                Phase::Prompt => Stage::Prompt,
                Phase::Step => Stage::Step,
                Phase::EndChunk => Stage::EndChunk,
                Phase::Done => Stage::Done,
            },
        }
    }
}

impl Backbone {
    /// The chunks as they were planned.
    pub closed spec fn plans(self) -> Seq<ChunkPlan> {
        self.chunks@
    }

    /// Generate `chunks`, one after the other.
    pub fn new(chunks: Vec<ChunkPlan>) -> (r: Self)
        ensures
            r.plans() == chunks@,
            r@ == Progress::at_chunk(shapes(chunks@), 0),
            r@.wf(),
    {
        let after: usize = if chunks.len() > 0 {
            chunks[0].frames_after_eos
        } else {
            0
        };
        let phase = if chunks.len() > 0 {
            Phase::Prompt
        } else {
            Phase::Done
        };
        Backbone { chunks, chunk: 0, frames: 0, eos: EosPolicy::new(after), phase }
    }

    /// What is to be done next.
    pub fn todo(&self) -> (r: Todo)
        ensures
            r == self@.todo(),
    {
        match self.phase {
            Phase::Prompt => Todo::Prompt { chunk: self.chunk },
            Phase::Step => Todo::Step { chunk: self.chunk, first: self.frames == 0 },
            Phase::EndChunk => Todo::EndChunk,
            Phase::Done => Todo::Done,
        }
    }

    /// The tokens of a chunk.
    pub fn tokens(&self, chunk: usize) -> (r: &Vec<u32>)
        requires
            chunk < self.plans().len(),
        ensures
            r@ == self.plans()[chunk as int].tokens@,
    {
        &self.chunks[chunk].tokens
    }

    /// Record what came of it.
    pub fn record(&mut self, outcome: Outcome)
        requires
            old(self)@.wf(),
            old(self)@.expects(outcome),
        ensures
            final(self).plans() == old(self).plans(),
            final(self)@ == old(self)@.after(outcome),
            final(self)@.wf(),
    {
        let count: usize = self.chunks.len();
        match outcome {
            Outcome::Closed | Outcome::Failed => {
                self.phase = Phase::Done;
            },
            Outcome::Finished => {
                if self.phase == Phase::Prompt {
                    if self.chunks[self.chunk].frame_budget > 0 {
                        self.phase = Phase::Step;
                    } else {
                        self.phase = Phase::EndChunk;
                    }
                } else {
                    self.chunk = self.chunk + 1;
                    self.frames = 0;
                    if self.chunk < count {
                        self.eos = EosPolicy::new(self.chunks[self.chunk].frames_after_eos);
                        self.phase = Phase::Prompt;
                    } else {
                        self.eos = EosPolicy::new(0);
                        self.phase = Phase::Done;
                    }
                }
            },
            Outcome::Frame { is_eos } => {
                let stop = self.eos.should_stop(is_eos);
                self.frames = self.frames + 1;
                if stop || self.frames >= self.chunks[self.chunk].frame_budget {
                    self.phase = Phase::EndChunk;
                }
            },
        }
    }
}

/// What the decoder is sent: a latent, by its chunk and its place in it, or the end of a chunk.
pub enum Sent {
    Latent { chunk: nat, frame: nat },
    ChunkEnd,
}

/// What a generation sends from here on when nothing fails and the model gives these EOS flags.
pub open spec fn sends(p: Progress, eos: spec_fn(nat, nat) -> bool) -> Seq<Sent>
    decreases
            p.chunks.len() - p.chunk,
            match p.stage {
                Stage::Prompt => 2int,
                Stage::Step => 1int,
                _ => 0int,
            },
            if p.stage is Step {
                p.chunks[p.chunk as int].frame_budget - p.frames
            } else {
                0
            },
    when p.wf()
{
    match p.stage {
        Stage::Done => Seq::empty(),
        Stage::Prompt => sends(p.after(Outcome::Finished), eos),
        Stage::Step => seq![Sent::Latent { chunk: p.chunk, frame: p.frames }] + sends(
            p.after(Outcome::Frame { is_eos: eos(p.chunk, p.frames) }),
            eos,
        ),
        Stage::EndChunk => seq![Sent::ChunkEnd] + sends(p.after(Outcome::Finished), eos),
    }
}

/// The EOS flags that the frames of a chunk would carry, from a frame on.
pub open spec fn flags(
    shape: ChunkShape,
    chunk: nat,
    from: nat,
    eos: spec_fn(nat, nat) -> bool,
) -> Seq<bool> {
    Seq::new((shape.frame_budget - from) as nat, |i: int| eos(chunk, (from + i) as nat))
}

/// The latents of a chunk, from a frame on, and its end.
pub open spec fn chunk_sends(chunk: nat, from: nat, count: nat) -> Seq<Sent> {
    Seq::new(count, |i: int| Sent::Latent { chunk, frame: (from + i) as nat }).push(Sent::ChunkEnd)
}

/// From within a chunk, its frames are sent as the tail policy counts them.
proof fn a_chunk_sends_its_frames(p: Progress, eos: spec_fn(nat, nat) -> bool)
    requires
        p.wf(),
        p.stage is Step,
    ensures
        ({
            let shape = p.chunks[p.chunk as int];
            let n = plan::emitted(p.tail, flags(shape, p.chunk, p.frames, eos));
            sends(p, eos) == chunk_sends(p.chunk, p.frames, n) + sends(
                Progress::at_chunk(p.chunks, p.chunk + 1),
                eos,
            )
        }),
    decreases p.chunks[p.chunk as int].frame_budget - p.frames,
{
    let shape = p.chunks[p.chunk as int];
    let all = flags(shape, p.chunk, p.frames, eos);
    let is_eos = eos(p.chunk, p.frames);
    let q = p.after(Outcome::Frame { is_eos });
    let rest = sends(Progress::at_chunk(p.chunks, p.chunk + 1), eos);
    assert(all[0] == is_eos);
    assert(all.skip(1) =~= flags(shape, p.chunk, p.frames + 1, eos));
    let n = plan::emitted(p.tail, all);
    if q.stage is Step {
        a_chunk_sends_its_frames(q, eos);
        let m = plan::emitted(q.tail, flags(shape, p.chunk, p.frames + 1, eos));
        assert(n == 1 + m);
        assert(seq![Sent::Latent { chunk: p.chunk, frame: p.frames }] + (chunk_sends(
            p.chunk,
            p.frames + 1,
            m,
        ) + rest) =~= chunk_sends(p.chunk, p.frames, n) + rest);
    } else {
        assert(n == 1) by {
            if !p.tail.stops(is_eos) {
                assert(plan::emitted(p.tail.after(is_eos), all.skip(1)) == 0);
            }
        }
        assert(sends(q, eos) == seq![Sent::ChunkEnd] + rest);
        assert(seq![Sent::Latent { chunk: p.chunk, frame: p.frames }] + (seq![Sent::ChunkEnd]
            + rest) =~= chunk_sends(p.chunk, p.frames, 1) + rest);
    }
}

/// What a whole generation sends: of each chunk in turn, the frames that its budget and its tail
/// allow, in order, and then its end.
pub open spec fn all_sends(
    chunks: Seq<ChunkShape>,
    from: nat,
    eos: spec_fn(nat, nat) -> bool,
) -> Seq<Sent>
    decreases chunks.len() - from,
{
    if from >= chunks.len() {
        Seq::empty()
    } else {
        let shape = chunks[from as int];
        chunk_sends(
            from,
            0,
            plan::emitted(Tail::fresh(shape.after_eos), flags(shape, from, 0, eos)),
        ) + all_sends(chunks, from + 1, eos)
    }
}

/// A generation sends every chunk completely and in order: the frames that the tail policy
/// counts, and the end of the chunk.
pub proof fn chunks_are_sent_in_order(
    chunks: Seq<ChunkShape>,
    from: nat,
    eos: spec_fn(nat, nat) -> bool,
)
    ensures
        sends(Progress::at_chunk(chunks, from), eos) == all_sends(chunks, from, eos),
    decreases chunks.len() - from,
{
    let p = Progress::at_chunk(chunks, from);
    if from < chunks.len() {
        chunks_are_sent_in_order(chunks, from + 1, eos);
        let q = p.after(Outcome::Finished);
        let rest = all_sends(chunks, from + 1, eos);
        if q.stage is Step {
            a_chunk_sends_its_frames(q, eos);
        } else {
            assert(sends(q, eos) == seq![Sent::ChunkEnd] + sends(q.after(Outcome::Finished), eos));
            assert(flags(chunks[from as int], from, 0, eos).len() == 0);
            assert(seq![Sent::ChunkEnd] + rest =~= chunk_sends(from, 0, 0) + rest);
        }
    }
}

/// What a generation asks for from here on, request by request up to the last, when nothing fails
/// and the model gives these EOS flags.
pub open spec fn asks(p: Progress, eos: spec_fn(nat, nat) -> bool) -> Seq<Todo>
    decreases
            p.chunks.len() - p.chunk,
            match p.stage {
                Stage::Prompt => 2int,
                Stage::Step => 1int,
                _ => 0int,
            },
            if p.stage is Step {
                p.chunks[p.chunk as int].frame_budget - p.frames
            } else {
                0
            },
    when p.wf()
{
    match p.stage {
        Stage::Done => seq![p.todo()],
        Stage::Prompt | Stage::EndChunk => seq![p.todo()] + asks(p.after(Outcome::Finished), eos),
        Stage::Step => seq![p.todo()] + asks(
            p.after(Outcome::Frame { is_eos: eos(p.chunk, p.frames) }),
            eos,
        ),
    }
}

/// The frames of chunk `chunk` from frame `from` on, `count` of them, and then its end.
pub open spec fn frames_asked(chunk: nat, from: nat, count: nat) -> Seq<Todo> {
    Seq::new(
        count,
        |i: int| Todo::Step { chunk: chunk as usize, first: from + i == 0 },
    ).push(Todo::EndChunk)
}

/// From chunk `from` on: each chunk in turn is prompted, `counts` says how many frames it gets,
/// and it is ended. Behind the last one there is nothing to do.
pub open spec fn in_turn(counts: Seq<nat>, from: nat) -> Seq<Todo>
    decreases counts.len() - from,
{
    if from >= counts.len() {
        seq![Todo::Done]
    } else {
        seq![Todo::Prompt { chunk: from as usize }] + frames_asked(from, 0, counts[from as int])
            + in_turn(counts, from + 1)
    }
}

/// A chunk of this budget and this tail gets `count` frames when its frames carry these EOS
/// flags: up to the first EOS frame and the tail behind it, or to the end of its budget.
pub open spec fn runs_for(
    count: nat,
    frame_budget: nat,
    after_eos: nat,
    flag: spec_fn(nat) -> bool,
) -> bool {
    &&& forall|first: nat|
        #![trigger flag(first)]
        first < frame_budget && flag(first) && (forall|i: nat| i < first ==> !#[trigger] flag(i))
            ==> count == if first + 1 + after_eos <= frame_budget {
            first + 1 + after_eos
        } else {
            frame_budget
        }
    &&& (forall|i: nat| i < frame_budget ==> !#[trigger] flag(i)) ==> count == frame_budget
}

/// The frames that each chunk gets.
spec fn counts_of(chunks: Seq<ChunkShape>, eos: spec_fn(nat, nat) -> bool) -> Seq<nat> {
    Seq::new(
        chunks.len(),
        |k: int|
            plan::emitted(
                Tail::fresh(chunks[k].after_eos),
                flags(chunks[k], k as nat, 0, eos),
            ),
    )
}

/// From within a chunk, its frames are asked for, and its end.
proof fn a_chunk_asks_for_its_frames(p: Progress, eos: spec_fn(nat, nat) -> bool)
    requires
        p.wf(),
        p.stage is Step,
        p.chunks.len() <= usize::MAX,
    ensures
        ({
            let shape = p.chunks[p.chunk as int];
            let n = plan::emitted(p.tail, flags(shape, p.chunk, p.frames, eos));
            asks(p, eos) == frames_asked(p.chunk, p.frames, n) + asks(
                Progress::at_chunk(p.chunks, p.chunk + 1),
                eos,
            )
        }),
    decreases p.chunks[p.chunk as int].frame_budget - p.frames,
{
    let shape = p.chunks[p.chunk as int];
    let all = flags(shape, p.chunk, p.frames, eos);
    let is_eos = eos(p.chunk, p.frames);
    let q = p.after(Outcome::Frame { is_eos });
    let rest = asks(Progress::at_chunk(p.chunks, p.chunk + 1), eos);
    let step = Todo::Step { chunk: p.chunk as usize, first: p.frames == 0 };
    assert(all[0] == is_eos);
    assert(all.skip(1) =~= flags(shape, p.chunk, p.frames + 1, eos));
    let n = plan::emitted(p.tail, all);
    if q.stage is Step {
        a_chunk_asks_for_its_frames(q, eos);
        let m = plan::emitted(q.tail, flags(shape, p.chunk, p.frames + 1, eos));
        assert(n == 1 + m);
        assert(seq![step] + (frames_asked(p.chunk, p.frames + 1, m) + rest) =~= frames_asked(
            p.chunk,
            p.frames,
            n,
        ) + rest);
    } else {
        assert(n == 1) by {
            if !p.tail.stops(is_eos) {
                assert(plan::emitted(p.tail.after(is_eos), all.skip(1)) == 0);
            }
        }
        assert(asks(q, eos) == seq![Todo::EndChunk] + rest);
        assert(seq![step] + (seq![Todo::EndChunk] + rest) =~= frames_asked(p.chunk, p.frames, 1)
            + rest);
    }
}

/// From the start of a chunk, the chunks that are left are asked for in turn.
proof fn the_rest_is_asked_for(
    chunks: Seq<ChunkShape>,
    from: nat,
    eos: spec_fn(nat, nat) -> bool,
)
    requires
        chunks.len() <= usize::MAX,
    ensures
        asks(Progress::at_chunk(chunks, from), eos) == in_turn(counts_of(chunks, eos), from),
    decreases chunks.len() - from,
{
    let p = Progress::at_chunk(chunks, from);
    let counts = counts_of(chunks, eos);
    if from < chunks.len() {
        the_rest_is_asked_for(chunks, from + 1, eos);
        let q = p.after(Outcome::Finished);
        let rest = in_turn(counts, from + 1);
        let prompt = Todo::Prompt { chunk: from as usize };
        if q.stage is Step {
            a_chunk_asks_for_its_frames(q, eos);
        } else {
            assert(asks(q, eos) == seq![Todo::EndChunk] + asks(q.after(Outcome::Finished), eos));
            assert(flags(chunks[from as int], from, 0, eos).len() == 0);
            assert(seq![Todo::EndChunk] + rest =~= frames_asked(from, 0, 0) + rest);
        }
        assert(seq![prompt] + (frames_asked(from, 0, counts[from as int]) + rest) =~= seq![prompt]
            + frames_asked(from, 0, counts[from as int]) + rest);
    }
}

/// What the tail policy counts is what a chunk runs for.
proof fn a_chunk_runs_for_its_frames(shape: ChunkShape, chunk: nat, eos: spec_fn(nat, nat) -> bool)
    ensures
        runs_for(
            plan::emitted(Tail::fresh(shape.after_eos), flags(shape, chunk, 0, eos)),
            shape.frame_budget,
            shape.after_eos,
            |i: nat| eos(chunk, i),
        ),
{
    let flag = |i: nat| eos(chunk, i);
    let all = flags(shape, chunk, 0, eos);
    assert forall|first: nat|
        #![trigger flag(first)]
        first < shape.frame_budget && flag(first) && (forall|i: nat|
            i < first ==> !#[trigger] flag(i)) implies plan::emitted(
        Tail::fresh(shape.after_eos),
        all,
    ) == if first + 1 + shape.after_eos <= shape.frame_budget {
        first + 1 + shape.after_eos
    } else {
        shape.frame_budget
    } by {
        assert forall|i: int| 0 <= i < first implies !all[i] by {
            assert(!flag(i as nat));
        }
        plan::the_eos_frame_and_its_tail_are_emitted(shape.after_eos, all, first as int);
    }
    if forall|i: nat| i < shape.frame_budget ==> !#[trigger] flag(i) {
        assert forall|i: int| 0 <= i < all.len() implies !all[i] by {
            assert(!flag(i as nat));
        }
        plan::without_eos_the_budget_is_used_up(shape.after_eos, all);
    }
}

/// A text of several chunks is spoken whole and in order: over a whole generation the chunks are
/// prompted one after the other, each of them once; between one prompt and the next, every frame
/// that is asked for is one of the chunk that was prompted last, and only the first of them
/// starts from the beginning of speech; and each chunk runs up to its own EOS frame and tail, or
/// to the end of its own budget.
pub proof fn chunks_are_prompted_in_turn(
    plans: Seq<ChunkPlan>,
    eos: spec_fn(nat, nat) -> bool,
) -> (counts: Seq<nat>)
    requires
        plans.len() <= usize::MAX,
    ensures
        counts.len() == plans.len(),
        asks(Progress::at_chunk(shapes(plans), 0), eos) == in_turn(counts, 0),
        forall|k: int|
            0 <= k < plans.len() ==> runs_for(
                #[trigger] counts[k],
                plans[k].frame_budget as nat,
                plans[k].frames_after_eos as nat,
                |i: nat| eos(k as nat, i),
            ),
{
    let chunks = shapes(plans);
    let counts = counts_of(chunks, eos);
    the_rest_is_asked_for(chunks, 0, eos);
    assert forall|k: int| 0 <= k < plans.len() implies runs_for(
        #[trigger] counts[k],
        plans[k].frame_budget as nat,
        plans[k].frames_after_eos as nat,
        |i: nat| eos(k as nat, i),
    ) by {
        a_chunk_runs_for_its_frames(chunks[k], k as nat, eos);
    }
    counts
}

/// The chunks that some requests prompt, in order.
pub open spec fn prompted(requests: Seq<Todo>) -> Seq<usize>
    decreases requests.len(),
{
    if requests.len() == 0 {
        Seq::empty()
    } else {
        let before = prompted(requests.drop_last());
        match requests.last() {
            Todo::Prompt { chunk } => before.push(chunk),
            _ => before,
        }
    }
}

proof fn prompted_adds(a: Seq<Todo>, b: Seq<Todo>)
    ensures
        prompted(a + b) == prompted(a) + prompted(b),
    decreases b.len(),
{
    if b.len() == 0 {
        assert(a + b =~= a);
        assert(prompted(a) + prompted(b) =~= prompted(a));
    } else {
        prompted_adds(a, b.drop_last());
        assert((a + b).drop_last() =~= a + b.drop_last());
        if let Todo::Prompt { chunk } = b.last() {
            assert((prompted(a) + prompted(b.drop_last())).push(chunk) =~= prompted(a) + prompted(
                b.drop_last(),
            ).push(chunk));
        }
    }
}

proof fn frames_prompt_nothing(chunk: nat, from: nat, count: nat)
    ensures
        prompted(frames_asked(chunk, from, count)) == Seq::<usize>::empty(),
{
    let all = frames_asked(chunk, from, count);
    let steps = all.drop_last();
    assert forall|n: int| 0 <= n <= steps.len() implies prompted(#[trigger] steps.take(n))
        == Seq::<usize>::empty() by {
        steps_prompt_nothing(steps, n);
    }
    assert(steps.take(steps.len() as int) =~= steps);
}

proof fn steps_prompt_nothing(steps: Seq<Todo>, n: int)
    requires
        0 <= n <= steps.len(),
        forall|i: int| 0 <= i < steps.len() ==> #[trigger] steps[i] is Step,
    ensures
        prompted(steps.take(n)) == Seq::<usize>::empty(),
    decreases n,
{
    if n > 0 {
        steps_prompt_nothing(steps, n - 1);
        assert(steps.take(n).drop_last() =~= steps.take(n - 1));
        assert(steps.take(n).last() == steps[n - 1]);
    }
}

proof fn in_turn_prompts_the_rest(counts: Seq<nat>, from: nat)
    requires
        from <= counts.len() <= usize::MAX,
    ensures
        prompted(in_turn(counts, from)) == Seq::new(
            (counts.len() - from) as nat,
            |i: int| (from + i) as usize,
        ),
    decreases counts.len() - from,
{
    let rest = Seq::new((counts.len() - from) as nat, |i: int| (from + i) as usize);
    if from < counts.len() {
        in_turn_prompts_the_rest(counts, from + 1);
        frames_prompt_nothing(from, 0, counts[from as int]);
        let head = seq![Todo::Prompt { chunk: from as usize }];
        prompted_adds(head, frames_asked(from, 0, counts[from as int]));
        prompted_adds(
            head + frames_asked(from, 0, counts[from as int]),
            in_turn(counts, from + 1),
        );
        assert(head.drop_last() =~= Seq::<Todo>::empty());
        assert(prompted(Seq::<Todo>::empty()) =~= Seq::<usize>::empty());
        assert(prompted(head) =~= seq![from as usize]);
        assert(prompted(in_turn(counts, from)) =~= rest);
    } else {
        assert(seq![Todo::Done].drop_last() =~= Seq::<Todo>::empty());
        assert(prompted(Seq::<Todo>::empty()) =~= Seq::<usize>::empty());
        assert(prompted(in_turn(counts, from)) =~= rest);
    }
}

/// What is read to the model over a whole generation is the text: the tokens of the chunks that
/// are prompted are those of the plans, in order, each once.
pub proof fn every_chunk_is_read_once(plans: Seq<ChunkPlan>, eos: spec_fn(nat, nat) -> bool)
    requires
        plans.len() <= usize::MAX,
    ensures
        ({
            let read = prompted(asks(Progress::at_chunk(shapes(plans), 0), eos));
            &&& read.len() == plans.len()
            &&& forall|k: int|
                0 <= k < plans.len() ==> #[trigger] read[k] == k && plans[read[k] as int].tokens@
                    == plans[k].tokens@
        }),
{
    let counts = chunks_are_prompted_in_turn(plans, eos);
    in_turn_prompts_the_rest(counts, 0);
}

/// Behind a failure, or once the consumer is gone, nothing more is asked for.
pub proof fn nothing_is_asked_for_behind_a_failure(p: Progress, outcome: Outcome)
    requires
        outcome is Closed || outcome is Failed,
    ensures
        p.after(outcome).todo() == Todo::Done,
        p.after(outcome).after(outcome).todo() == Todo::Done,
{
}

/// Messages from the flow-LM thread to the decoder thread.
pub enum Frame<T> {
    Latent(T),
    ChunkEnd,
}

/// Latents that are decoded in one call.
///
/// The decoder is exact for any number of frames, and one call over several is much cheaper than
/// one call per frame. Only what is already waiting is taken, so no frame is ever held back for
/// a batch to fill.
pub struct Batch<T> {
    pub latents: Vec<T>,
    /// The codec starts afresh behind this batch.
    pub reset_after: bool,
}

impl<T> Batch<T> {
    /// Start from the first message that comes in. The end of a chunk starts no batch: it resets
    /// the codec.
    pub fn start(frame: Frame<T>) -> (r: Option<Self>)
        ensures
            match frame {
                Frame::Latent(t) => r matches Some(b) && b.latents@ == seq![t] && !b.reset_after,
                Frame::ChunkEnd => r is None,
            },
    {
        match frame {
            Frame::ChunkEnd => None,
            Frame::Latent(t) => {
                let mut latents: Vec<T> = Vec::new();
                latents.push(t);
                assert(latents@ =~= seq![t]);
                Some(Batch { latents, reset_after: false })
            },
        }
    }

    /// Take one more message that is already waiting, and say whether to look for another. Past
    /// a chunk boundary the codec resets, so the batch stops there.
    pub fn offer(&mut self, frame: Frame<T>) -> (r: bool)
        requires
            !old(self).reset_after,
        ensures
            match frame {
                Frame::Latent(t) => r && final(self).latents@ == old(self).latents@.push(t)
                    && !final(self).reset_after,
                Frame::ChunkEnd => !r && final(self).latents@ == old(self).latents@ && final(self).reset_after,
            },
    {
        match frame {
            Frame::ChunkEnd => {
                self.reset_after = true;
                false
            },
            Frame::Latent(t) => {
                self.latents.push(t);
                true
            },
        }
    }
}

/// What a batch becomes when these messages are waiting, and how many of them it takes.
pub open spec fn gathered<T>(latents: Seq<T>, waiting: Seq<Frame<T>>) -> (Seq<T>, bool, nat)
    decreases waiting.len(),
{
    if waiting.len() == 0 {
        (latents, false, 0)
    } else {
        match waiting[0] {
            Frame::ChunkEnd => (latents, true, 1),
            Frame::Latent(t) => {
                let (all, reset, used) = gathered(latents.push(t), waiting.skip(1));
                (all, reset, used + 1)
            },
        }
    }
}

/// The latents as the codec takes them in, one message at a time: each with whether the codec
/// starts afresh on it.
pub open spec fn heard<T>(messages: Seq<Frame<T>>, afresh: bool) -> Seq<(T, bool)>
    decreases messages.len(),
{
    if messages.len() == 0 {
        Seq::empty()
    } else {
        match messages[0] {
            Frame::ChunkEnd => heard(messages.skip(1), true),
            Frame::Latent(t) => seq![(t, afresh)] + heard(messages.skip(1), false),
        }
    }
}

/// The latents of one call: the codec starts afresh on the first at most.
pub open spec fn one_call<T>(latents: Seq<T>, afresh: bool) -> Seq<(T, bool)> {
    Seq::new(latents.len(), |i: int| (latents[i], afresh && i == 0))
}

/// However many messages are waiting, a batch decodes what one message at a time would, and
/// leaves the codec where that would leave it.
pub proof fn batching_changes_nothing<T>(
    first: T,
    waiting: Seq<Frame<T>>,
    later: Seq<Frame<T>>,
    afresh: bool,
)
    ensures
        ({
            let (latents, reset, used) = gathered(seq![first], waiting);
            &&& used <= waiting.len()
            &&& heard(seq![Frame::Latent(first)] + waiting + later, afresh) == one_call(
                latents,
                afresh,
            ) + heard(waiting.skip(used as int) + later, reset)
        }),
{
    let (latents, reset, used) = gathered(seq![first], waiting);
    let all = seq![Frame::Latent(first)] + waiting + later;
    gathering_is_hearing(seq![first], waiting, later, afresh);
    assert(all.skip(1) =~= waiting + later);
    assert(one_call(seq![first], afresh) =~= seq![(first, afresh)]);
}

/// Extending a batch is hearing more.
proof fn gathering_is_hearing<T>(
    latents: Seq<T>,
    waiting: Seq<Frame<T>>,
    later: Seq<Frame<T>>,
    afresh: bool,
)
    requires
        latents.len() > 0,
    ensures
        ({
            let (all, reset, used) = gathered(latents, waiting);
            &&& used <= waiting.len()
            &&& one_call(latents, afresh) + heard(waiting + later, false) == one_call(all, afresh)
                + heard(waiting.skip(used as int) + later, reset)
        }),
    decreases waiting.len(),
{
    let whole = waiting + later;
    if waiting.len() == 0 {
        assert(waiting.skip(0) =~= waiting);
    } else {
        assert(whole.skip(1) =~= waiting.skip(1) + later);
        match waiting[0] {
            Frame::ChunkEnd => {},
            Frame::Latent(t) => {
                gathering_is_hearing(latents.push(t), waiting.skip(1), later, afresh);
                let (all, reset, used) = gathered(latents.push(t), waiting.skip(1));
                assert(waiting.skip(1).skip(used as int) =~= waiting.skip(used as int + 1));
                assert(one_call(latents, afresh) + (seq![(t, false)] + heard(
                    whole.skip(1),
                    false,
                )) =~= one_call(latents.push(t), afresh) + heard(whole.skip(1), false));
            },
        }
    }
}

/// A batch takes no more messages than are waiting.
pub proof fn gathered_is_within<T>(latents: Seq<T>, waiting: Seq<Frame<T>>)
    ensures
        gathered(latents, waiting).2 <= waiting.len(),
    decreases waiting.len(),
{
    if waiting.len() > 0 {
        if let Frame::Latent(t) = waiting[0] {
            gathered_is_within(latents.push(t), waiting.skip(1));
        }
    }
}

/// What the codec takes in when messages are decoded in batches: behind each latent that starts
/// a batch, `waiting` says how many more messages are there by then.
pub open spec fn heard_in_batches<T>(
    messages: Seq<Frame<T>>,
    afresh: bool,
    waiting: spec_fn(nat) -> nat,
) -> Seq<(T, bool)>
    decreases messages.len(),
{
    if messages.len() == 0 {
        Seq::empty()
    } else {
        match messages[0] {
            Frame::ChunkEnd => heard_in_batches(messages.skip(1), true, waiting),
            Frame::Latent(t) => {
                let rest = messages.skip(1);
                let k = if waiting(messages.len()) <= rest.len() {
                    waiting(messages.len())
                } else {
                    rest.len()
                };
                let (latents, reset, used) = gathered(seq![t], rest.take(k as int));
                proof {
                    gathered_is_within(seq![t], rest.take(k as int));
                }
                one_call(latents, afresh) + heard_in_batches(
                    messages.skip(1 + used as int),
                    reset,
                    waiting,
                )
            },
        }
    }
}

/// However the messages of a generation happen to arrive, the codec takes in what one message at
/// a time would give it: the same latents, in the same order, starting afresh on the same ones.
pub proof fn arrival_changes_nothing<T>(
    messages: Seq<Frame<T>>,
    afresh: bool,
    waiting: spec_fn(nat) -> nat,
)
    ensures
        heard_in_batches(messages, afresh, waiting) == heard(messages, afresh),
    decreases messages.len(),
{
    if messages.len() > 0 {
        let rest = messages.skip(1);
        match messages[0] {
            Frame::ChunkEnd => {
                arrival_changes_nothing(rest, true, waiting);
            },
            Frame::Latent(t) => {
                let k = if waiting(messages.len()) <= rest.len() {
                    waiting(messages.len())
                } else {
                    rest.len()
                };
                let near = rest.take(k as int);
                let later = rest.skip(k as int);
                batching_changes_nothing(t, near, later, afresh);
                let (latents, reset, used) = gathered(seq![t], near);
                assert(seq![Frame::Latent(t)] + near + later =~= messages);
                assert(near.skip(used as int) + later =~= messages.skip(1 + used as int));
                arrival_changes_nothing(messages.skip(1 + used as int), reset, waiting);
            },
        }
    }
}

/// What a generation sends, as messages that carry the place of each latent.
pub open spec fn as_messages(sent: Seq<Sent>) -> Seq<Frame<(nat, nat)>> {
    Seq::new(
        sent.len(),
        |i: int|
            match sent[i] {
                Sent::Latent { chunk, frame } => Frame::Latent((chunk, frame)),
                Sent::ChunkEnd => Frame::ChunkEnd,
            },
    )
}

/// The frames of a chunk as the codec takes them in, from a frame on.
pub open spec fn chunk_heard(chunk: nat, from: nat, count: nat, afresh: bool) -> Seq<
    ((nat, nat), bool),
> {
    Seq::new(count, |i: int| ((chunk, (from + i) as nat), afresh && i == 0))
}

/// A chunk is heard frame by frame, and leaves the codec afresh.
proof fn a_chunk_is_heard(
    chunk: nat,
    from: nat,
    count: nat,
    rest: Seq<Frame<(nat, nat)>>,
    afresh: bool,
)
    ensures
        heard(as_messages(chunk_sends(chunk, from, count)) + rest, afresh) == chunk_heard(
            chunk,
            from,
            count,
            afresh,
        ) + heard(rest, true),
    decreases count,
{
    let all = as_messages(chunk_sends(chunk, from, count)) + rest;
    if count == 0 {
        assert(all.skip(1) =~= rest);
        assert(chunk_heard(chunk, from, count, afresh) + heard(rest, true) =~= heard(rest, true));
    } else {
        let less = (count - 1) as nat;
        assert(all[0] == Frame::Latent((chunk, from)));
        assert(all.skip(1) =~= as_messages(chunk_sends(chunk, from + 1, less)) + rest);
        a_chunk_is_heard(chunk, from + 1, less, rest, false);
        assert(seq![((chunk, from), afresh)] + (chunk_heard(chunk, from + 1, less, false) + heard(
            rest,
            true,
        )) =~= chunk_heard(chunk, from, count, afresh) + heard(rest, true));
    }
}

/// The frames of every chunk as the codec takes them in: each chunk starts from a clean codec,
/// and nothing else does.
pub open spec fn all_heard(
    chunks: Seq<ChunkShape>,
    from: nat,
    eos: spec_fn(nat, nat) -> bool,
) -> Seq<((nat, nat), bool)>
    decreases chunks.len() - from,
{
    if from >= chunks.len() {
        Seq::empty()
    } else {
        let shape = chunks[from as int];
        chunk_heard(
            from,
            0,
            plan::emitted(Tail::fresh(shape.after_eos), flags(shape, from, 0, eos)),
            true,
        ) + all_heard(chunks, from + 1, eos)
    }
}

/// From the chunks of a text to the codec: every frame that the tail policy counts is decoded
/// once and in order, and every chunk starts from a clean codec state.
pub proof fn every_chunk_starts_from_a_clean_codec(
    chunks: Seq<ChunkShape>,
    from: nat,
    eos: spec_fn(nat, nat) -> bool,
)
    ensures
        heard(as_messages(sends(Progress::at_chunk(chunks, from), eos)), true) == all_heard(
            chunks,
            from,
            eos,
        ),
    decreases chunks.len() - from,
{
    chunks_are_sent_in_order(chunks, from, eos);
    if from < chunks.len() {
        let shape = chunks[from as int];
        let n = plan::emitted(Tail::fresh(shape.after_eos), flags(shape, from, 0, eos));
        let rest = all_sends(chunks, from + 1, eos);
        every_chunk_starts_from_a_clean_codec(chunks, from + 1, eos);
        chunks_are_sent_in_order(chunks, from + 1, eos);
        a_chunk_is_heard(from, 0, n, as_messages(rest), true);
        assert(as_messages(all_sends(chunks, from, eos)) =~= as_messages(chunk_sends(from, 0, n))
            + as_messages(rest));
    } else {
        assert(as_messages(all_sends(chunks, from, eos)) =~= Seq::<Frame<(nat, nat)>>::empty());
    }
}

/// What came in from the workers.
pub enum Received<P> {
    /// A piece of audio.
    Pcm(P),
    /// A worker failed.
    Failed(Error),
    /// Every worker is gone: generation finished, or one of them died.
    Closed { died: bool },
}

/// PCM from a running generation. It ends when generation finishes; an error is terminal.
#[derive(Debug)]
pub struct SpeechStream {
    sample_rate: usize,
    failed: bool,
}

impl SpeechStream {
    /// Nothing more will come.
    pub closed spec fn over(self) -> bool {
        self.failed
    }

    /// The rate of the samples.
    pub closed spec fn rate(self) -> usize {
        self.sample_rate
    }

    pub fn new(sample_rate: usize) -> (r: Self)
        ensures
            !r.over(),
            r.rate() == sample_rate,
    {
        SpeechStream { sample_rate, failed: false }
    }

    pub fn sample_rate(&self) -> (r: usize)
        ensures
            r == self.rate(),
    {
        self.sample_rate
    }

    /// Whether to wait for the workers at all.
    pub fn is_over(&self) -> (r: bool)
        ensures
            r == self.over(),
    {
        self.failed
    }

    /// The next item, once something came in. A worker that died surfaces as an error rather
    /// than as truncated audio.
    pub fn next<P>(&mut self, got: Received<P>) -> (r: Option<Result<P>>)
        ensures
            final(self).rate() == old(self).rate(),
            old(self).over() ==> r is None && final(self).over(),
            !old(self).over() ==> match got {
                Received::Pcm(p) => r == Some(Ok::<P, Error>(p)) && !final(self).over(),
                Received::Failed(e) => r == Some(Err::<P, Error>(e)) && final(self).over(),
                Received::Closed { died } => final(self).over() && match r {
                    Some(item) => died && (item matches Err(e) && e@ == (Failure::Tensor {
                        text: "a generation worker panicked; the audio is incomplete"@,
                        cause: Cause::Other,
                    })),
                    None => !died,
                },
            },
    {
        if self.failed {
            return None;
        }
        match got {
            Received::Failed(e) => {
                self.failed = true;
                Some(Err(e))
            },
            Received::Pcm(p) => Some(Ok(p)),
            Received::Closed { died } => {
                self.failed = true;
                if died {
                    Some(
                        Err(
                            Error::Tensor(
                                TensorError::msg(
                                    "a generation worker panicked; the audio is incomplete",
                                ),
                            ),
                        ),
                    )
                } else {
                    None
                }
            },
        }
    }
}

/// What comes of a request when nothing fails: a frame with the flag that the model gives it, or
/// that it is finished.
pub open spec fn outcome_of(
    requests: Seq<Todo>,
    i: int,
    eos: spec_fn(nat, nat) -> bool,
) -> Outcome {
    match requests[i] {
        Todo::Step { chunk, first } => Outcome::Frame {
            is_eos: eos(chunk as nat, frames_before(requests, i)),
        },
        _ => Outcome::Finished,
    }
}

/// How many frames were asked for right before request `i`, of the same chunk.
pub open spec fn frames_before(requests: Seq<Todo>, i: int) -> nat
    decreases i,
{
    if i > 0 && requests[i - 1] is Step {
        1 + frames_before(requests, i - 1)
    } else {
        0
    }
}

/// A whole generation of `chunks`: its states, and what each of them asks for, up to the end.
pub open spec fn generates(
    chunks: Vec<ChunkPlan>,
    states: Seq<Backbone>,
    requests: Seq<Todo>,
) -> bool {
    &&& states.len() == requests.len()
    &&& requests.len() > 0
    &&& call_ensures(Backbone::new, (chunks,), states[0])
    &&& forall|i: int|
        0 <= i < states.len() ==> #[trigger] call_ensures(
            Backbone::todo,
            (&states[i],),
            requests[i],
        )
    &&& forall|i: int|
        0 <= i < requests.len() ==> (#[trigger] requests[i] == Todo::Done <==> i == requests.len() - 1)
}

/// Along a generation, each state asks for the rest of what the first one asks for.
proof fn a_run_follows_the_requests(
    chunks: Vec<ChunkPlan>,
    states: Seq<Backbone>,
    calls: Seq<&mut Backbone>,
    requests: Seq<Todo>,
    eos: spec_fn(nat, nat) -> bool,
    i: int,
)
    requires
        generates(chunks, states, requests),
        calls.len() + 1 == states.len(),
        forall|i: int|
            #![trigger calls[i]]
            0 <= i < calls.len() ==> {
                &&& *calls[i] == states[i]
                &&& *final(calls[i]) == states[i + 1]
                &&& call_ensures(
                    Backbone::record,
                    (calls[i], outcome_of(requests, i, eos)),
                    (),
                )
            },
        0 <= i < states.len(),
    ensures
        states[i]@.wf(),
        states[i].plans() == chunks@,
        states[i]@.chunks == shapes(chunks@),
        states[i]@.stage is Step ==> states[i]@.frames == frames_before(requests, i),
        requests[i] == states[i]@.todo(),
        ({
            let all = asks(Progress::at_chunk(shapes(chunks@), 0), eos);
            &&& i < all.len()
            &&& all.skip(i) == asks(states[i]@, eos)
        }),
    decreases i,
{
    let all = asks(Progress::at_chunk(shapes(chunks@), 0), eos);
    assert(call_ensures(Backbone::todo, (&states[i],), requests[i]));
    if i == 0 {
        assert(all.skip(0) =~= all);
        asks_something(states[0]@, eos);
    } else {
        let j = i - 1;
        a_run_follows_the_requests(chunks, states, calls, requests, eos, j);
        let p = states[j]@;
        let outcome = outcome_of(requests, j, eos);
        assert(*calls[j] == states[j]);
        assert(requests[j] != Todo::Done);
        assert(p.chunk as usize == p.chunk) by {
            assert(p.chunks.len() == chunks@.len());
            assert(chunks@.len() == chunks.len());
        }
        assert(p.expects(outcome));
        assert(states[i]@ == p.after(outcome));
        let here = asks(p, eos);
        let rest = asks(p.after(outcome), eos);
        assert(here == seq![p.todo()] + rest);
        asks_something(states[i]@, eos);
        assert(all.skip(i) =~= all.skip(j).skip(1));
        assert(here.skip(1) =~= rest);
        assert(all.skip(j).len() == all.len() - j);
    }
}

proof fn asks_something(p: Progress, eos: spec_fn(nat, nat) -> bool)
    requires
        p.wf(),
    ensures
        asks(p, eos).len() > 0,
        asks(p, eos)[0] == p.todo(),
{
}

/// Run to its end, with what comes of each request recorded, a generation asks for every chunk in turn: it prompts chunk after chunk, each
/// once and with its own tokens, asks for the frames of the chunk that it prompted last, as many
/// as that chunk's EOS flags and budget allow, and then it is done.
pub proof fn a_generation_speaks_its_chunks_in_turn(
    chunks: Vec<ChunkPlan>,
    states: Seq<Backbone>,
    calls: Seq<&mut Backbone>,
    requests: Seq<Todo>,
    eos: spec_fn(nat, nat) -> bool,
) -> (counts: Seq<nat>)
    requires
        generates(chunks, states, requests),
        calls.len() + 1 == states.len(),
        forall|i: int|
            #![trigger calls[i]]
            0 <= i < calls.len() ==> {
                &&& *calls[i] == states[i]
                &&& *final(calls[i]) == states[i + 1]
                &&& call_ensures(
                    Backbone::record,
                    (calls[i], outcome_of(requests, i, eos)),
                    (),
                )
            },
    ensures
        counts.len() == chunks@.len(),
        requests == in_turn(counts, 0),
        forall|k: int|
            0 <= k < chunks@.len() ==> runs_for(
                #[trigger] counts[k],
                chunks@[k].frame_budget as nat,
                chunks@[k].frames_after_eos as nat,
                |i: nat| eos(k as nat, i),
            ),
        forall|i: int, k: usize, tokens: &Vec<u32>|
            0 <= i < states.len() && k < chunks@.len() && #[trigger] call_ensures(
                Backbone::tokens,
                (&states[i], k),
                tokens,
            ) ==> tokens@ == chunks@[k as int].tokens@,
{
    assert(chunks@.len() == chunks.len());
    let counts = chunks_are_prompted_in_turn(chunks@, eos);
    let all = asks(Progress::at_chunk(shapes(chunks@), 0), eos);
    assert forall|i: int| 0 <= i < requests.len() implies i < all.len() && #[trigger] requests[i]
        == all[i] by {
        a_run_follows_the_requests(chunks, states, calls, requests, eos, i);
        asks_something(states[i]@, eos);
        assert(all.skip(i)[0] == all[i]);
    }
    let last = requests.len() - 1;
    a_run_follows_the_requests(chunks, states, calls, requests, eos, last);
    assert(requests[last] == Todo::Done);
    assert(states[last]@.stage is Done);
    assert(asks(states[last]@, eos).len() == 1);
    assert(all.skip(last).len() == all.len() - last);
    assert(requests =~= all);
    assert forall|i: int, k: usize, tokens: &Vec<u32>|
        0 <= i < states.len() && k < chunks@.len() && #[trigger] call_ensures(
            Backbone::tokens,
            (&states[i], k),
            tokens,
        ) implies tokens@ == chunks@[k as int].tokens@ by {
        a_run_follows_the_requests(chunks, states, calls, requests, eos, i);
    }
    counts
}

/// Audio is handed on as it comes in, and an error or the end is the last thing that is.
pub proof fn nothing_follows_the_end_of_a_stream<P>(
    calls: Seq<&mut SpeechStream>,
    got: Seq<Received<P>>,
    items: Seq<Option<Result<P>>>,
)
    requires
        calls.len() == got.len(),
        items.len() == got.len(),
        forall|i: int|
            #![trigger calls[i]]
            0 <= i < calls.len() ==> call_ensures(
                SpeechStream::next::<P>,
                (calls[i], got[i]),
                items[i],
            ),
        forall|i: int|
            #![trigger calls[i]]
            0 <= i < calls.len() - 1 ==> *final(calls[i]) == *calls[i + 1],
    ensures
        forall|i: int|
            #![trigger items[i]]
            0 <= i < items.len() ==> {
                &&& items[i] matches Some(Ok(p)) ==> got[i] matches Received::Pcm(q) && p == q
                &&& items[i] is None || items[i]->0 is Err ==> forall|j: int|
                    i < j < items.len() ==> #[trigger] items[j] is None
            },
        forall|i: int|
            #![trigger got[i]]
            0 <= i < got.len() && got[i] is Pcm && items[i] is None ==> exists|j: int|
                0 <= j < i && (#[trigger] items[j] is None || items[j]->0 is Err) || (i == 0
                    && calls[0].over()),
{
    assert forall|i: int| #![trigger items[i]] 0 <= i < items.len() implies {
        &&& items[i] matches Some(Ok(p)) ==> got[i] matches Received::Pcm(q) && p == q
        &&& items[i] is None || items[i]->0 is Err ==> forall|j: int|
            i < j < items.len() ==> #[trigger] items[j] is None
    } by {
        assert(call_ensures(SpeechStream::next::<P>, (calls[i], got[i]), items[i]));
        if items[i] is None || items[i]->0 is Err {
            assert forall|j: int| i < j < items.len() implies #[trigger] items[j] is None by {
                an_over_stream_stays_over(calls, got, items, i, j);
                assert(call_ensures(SpeechStream::next::<P>, (calls[j], got[j]), items[j]));
            }
        }
    }
    assert forall|i: int|
        #![trigger got[i]]
        0 <= i < got.len() && got[i] is Pcm && items[i] is None implies exists|j: int|
        0 <= j < i && (#[trigger] items[j] is None || items[j]->0 is Err) || (i == 0
            && calls[0].over()) by {
        assert(call_ensures(SpeechStream::next::<P>, (calls[i], got[i]), items[i]));
        if i > 0 {
            assert(call_ensures(
                SpeechStream::next::<P>,
                (calls[i - 1], got[i - 1]),
                items[i - 1],
            ));
            assert(*final(calls[i - 1]) == *calls[i]);
            assert(items[i - 1] is None || items[i - 1]->0 is Err);
        } else {
            assert(calls[0].over());
        }
    }
}

proof fn an_over_stream_stays_over<P>(
    calls: Seq<&mut SpeechStream>,
    got: Seq<Received<P>>,
    items: Seq<Option<Result<P>>>,
    i: int,
    j: int,
)
    requires
        calls.len() == got.len(),
        items.len() == got.len(),
        forall|i: int|
            #![trigger calls[i]]
            0 <= i < calls.len() ==> call_ensures(
                SpeechStream::next::<P>,
                (calls[i], got[i]),
                items[i],
            ),
        forall|i: int|
            #![trigger calls[i]]
            0 <= i < calls.len() - 1 ==> *final(calls[i]) == *calls[i + 1],
        0 <= i < j < items.len(),
        items[i] is None || items[i]->0 is Err,
    ensures
        calls[j].over(),
    decreases j - i,
{
    assert(call_ensures(SpeechStream::next::<P>, (calls[i], got[i]), items[i]));
    if j > i + 1 {
        an_over_stream_stays_over(calls, got, items, i, j - 1);
        assert(call_ensures(SpeechStream::next::<P>, (calls[j - 1], got[j - 1]), items[j - 1]));
    }
    assert(*final(calls[j - 1]) == *calls[j]);
}

/// A batch takes in what it is offered, in order, up to the end of a chunk: that many latents are
/// decoded in one call, and the codec starts afresh behind them if and only if a chunk ended.
pub proof fn a_batch_takes_what_it_is_offered<T>(
    first: T,
    states: Seq<Batch<T>>,
    calls: Seq<&mut Batch<T>>,
    frames: Seq<Frame<T>>,
    more: Seq<bool>,
)
    requires
        states.len() == frames.len() + 1,
        calls.len() == frames.len(),
        more.len() == frames.len(),
        call_ensures(Batch::<T>::start, (Frame::Latent(first),), Some(states[0])),
        forall|i: int|
            #![trigger calls[i]]
            0 <= i < calls.len() ==> {
                &&& *calls[i] == states[i]
                &&& *final(calls[i]) == states[i + 1]
                &&& call_ensures(Batch::<T>::offer, (calls[i], frames[i]), more[i])
            },
        forall|i: int| 0 <= i < frames.len() - 1 ==> #[trigger] more[i],
    ensures
        forall|i: int| 0 <= i < frames.len() - 1 ==> #[trigger] frames[i] is Latent,
        frames.len() > 0 ==> (more.last() <==> frames.last() is Latent),
        states.last().reset_after <==> frames.len() > 0 && frames.last() is ChunkEnd,
        states.last().latents@.len() == 1 + frames.len() - if states.last().reset_after {
            1int
        } else {
            0
        },
        states.last().latents@[0] == first,
        forall|i: int|
            1 <= i < states.last().latents@.len() ==> frames[i - 1] == Frame::Latent(
                #[trigger] states.last().latents@[i],
            ),
    decreases frames.len(),
{
    if frames.len() > 0 {
        let n = frames.len() - 1;
        let less = calls.drop_last();
        assert forall|i: int| #![trigger less[i]] 0 <= i < less.len() implies {
            &&& *less[i] == states.drop_last()[i]
            &&& *final(less[i]) == states.drop_last()[i + 1]
            &&& call_ensures(
                Batch::<T>::offer,
                (less[i], frames.drop_last()[i]),
                more.drop_last()[i],
            )
        } by {
            assert(*calls[i] == states[i]);
        }
        assert forall|i: int| 0 <= i < frames.drop_last().len() - 1 implies #[trigger] more.drop_last()[i] by {
            assert(more[i]);
        }
        a_batch_takes_what_it_is_offered(
            first,
            states.drop_last(),
            less,
            frames.drop_last(),
            more.drop_last(),
        );
        assert(*calls[n] == states[n]);
        assert(states.drop_last().last() == states[n]);
        if n > 0 {
            assert(more[n - 1]);
            assert(frames.drop_last().last() == frames[n - 1]);
        }
        assert(!states[n].reset_after);
        assert forall|i: int| 0 <= i < frames.len() - 1 implies #[trigger] frames[i] is Latent by {
            if i < n - 1 {
                assert(frames.drop_last()[i] is Latent);
            }
        }
        let old_latents = states[n].latents@;
        let latents = states.last().latents@;
        assert forall|i: int| 1 <= i < latents.len() implies frames[i - 1] == Frame::Latent(
            #[trigger] latents[i],
        ) by {
            if i < old_latents.len() {
                assert(frames.drop_last()[i - 1] == Frame::Latent(old_latents[i]));
            }
        }
    }
}

} // verus!
