//! Sessions: a voice primed once, ready to generate repeatedly in a fixed KV budget.
use super::options::{Defaults, Scalar};
use crate::error::{Error, Failure, Result};
use crate::plan::{self, FrameRate};
use crate::preprocess::Normalize;
use vstd::prelude::*;
use vstd::string::*;

verus! {

/// One text chunk, tokenized, with the tail its length asks for.
pub struct Prepared {
    pub tokens: Vec<u32>,
    pub frames_after_eos: usize,
}

/// What one text chunk will need.
#[derive(Debug)]
pub struct ChunkPlan {
    pub tokens: Vec<u32>,
    pub frame_budget: usize,
    pub frames_after_eos: usize,
    pub seq_budget: usize,
}

/// A chunk of `n` tokens can be planned: its KV budget is a machine size.
pub open spec fn plannable(n: nat, rate: FrameRate) -> bool {
    n + plan::PROMPT_SEQ_HEADROOM + plan::capped(plan::frames_for(n, rate)) <= usize::MAX
}

impl ChunkPlan {
    /// The plan of a prepared chunk.
    pub open spec fn plans(self, p: Prepared, rate: FrameRate) -> bool {
        let n = p.tokens@.len();
        &&& self.tokens@ == p.tokens@
        &&& self.frames_after_eos == p.frames_after_eos
        &&& self.frame_budget == plan::capped(plan::frames_for(n, rate))
        &&& self.seq_budget == n + plan::PROMPT_SEQ_HEADROOM + self.frame_budget
    }

    /// The KV slots the chunk takes behind a voice prompt of `prompt_len`.
    pub open spec fn slots(self, prompt_len: nat) -> nat {
        prompt_len + self.tokens@.len() + self.frame_budget as nat
    }
}

impl ChunkPlan {
    /// Whether the slots that the chunk takes behind a voice prompt are a machine size.
    pub fn slots_fit(&self, prompt_len: usize) -> (r: bool)
        ensures
            r == (self.slots(prompt_len as nat) <= usize::MAX),
    {
        prompt_len as u128 + self.tokens.len() as u128 + self.frame_budget as u128
            <= usize::MAX as u128
    }
}

/// Work out the budgets of one chunk.
pub fn plan_chunk(p: Prepared, rate: FrameRate) -> (r: ChunkPlan)
    requires
        rate.wf(),
        plannable(p.tokens@.len(), rate),
    ensures
        r.plans(p, rate),
{
    let n: usize = p.tokens.len();
    let frame_budget = plan::frame_budget(n, rate);
    let seq_budget = plan::seq_budget(n, frame_budget);
    ChunkPlan { tokens: p.tokens, frame_budget, frames_after_eos: p.frames_after_eos, seq_budget }
}

/// Whether a chunk of `n` tokens can be planned.
pub fn is_plannable(n: usize, rate: FrameRate) -> (r: bool)
    requires
        rate.wf(),
    ensures
        r == plannable(n as nat, rate),
{
    let frames: u128 = plan::frame_budget(n, rate) as u128;
    n as u128 + plan::PROMPT_SEQ_HEADROOM as u128 + frames <= usize::MAX as u128
}

/// Refuse text when the model was loaded without a tokenizer.
pub fn require_tokenizer(loaded: bool) -> (r: Result<()>)
    ensures
        match r {
            Ok(_) => loaded,
            Err(e) => !loaded && e@ == Failure::Unsupported(
                "this model was loaded without a tokenizer; pass one to SynthBuilder::tokenizer, or use the lower-level TTSModel API with pre-tokenized input"@,
            ),
        },
{
    if loaded {
        Ok(())
    } else {
        Err(
            Error::Unsupported(
                "this model was loaded without a tokenizer; pass one to SynthBuilder::tokenizer, or use the lower-level TTSModel API with pre-tokenized input".to_owned(),
            ),
        )
    }
}

/// Work out the budgets of every chunk of a text. A text without chunks is refused.
pub fn plan_chunks(texts: Vec<Prepared>, rate: FrameRate) -> (r: Result<Vec<ChunkPlan>>)
    requires
        rate.wf(),
        forall|i: int| 0 <= i < texts@.len() ==> plannable((#[trigger] texts@[i]).tokens@.len(), rate),
    ensures
        match r {
            Ok(chunks) => texts@.len() > 0 && chunks@.len() == texts@.len() && forall|i: int|
                0 <= i < texts@.len() ==> (#[trigger] chunks@[i]).plans(texts@[i], rate),
            Err(e) => texts@.len() == 0 && e@ == Failure::InvalidArgument(
                "nothing to synthesize: the text is empty"@,
            ),
        },
{
    let mut chunks: Vec<ChunkPlan> = Vec::new();
    for p in it: texts
        invariant
            rate.wf(),
            it.seq() == texts@,
            forall|i: int|
                0 <= i < texts@.len() ==> plannable((#[trigger] texts@[i]).tokens@.len(), rate),
            chunks@.len() == it.index(),
            forall|i: int| 0 <= i < chunks@.len() ==> (#[trigger] chunks@[i]).plans(texts@[i], rate),
    {
        assert(p == texts@[it.index() as int]);
        chunks.push(plan_chunk(p, rate));
    }
    if chunks.len() == 0 {
        return Err(
            Error::InvalidArgument("nothing to synthesize: the text is empty".to_owned()),
        );
    }
    Ok(chunks)
}

/// The KV slots that the most demanding of the chunks takes behind the voice prompt.
pub open spec fn needed_slots(prompt_len: nat, chunks: Seq<ChunkPlan>) -> nat
    decreases chunks.len(),
{
    if chunks.len() == 0 {
        0
    } else {
        plan::larger(needed_slots(prompt_len, chunks.drop_last()), chunks.last().slots(prompt_len))
    }
}

/// The largest KV budget among the chunks.
pub open spec fn largest_budget(chunks: Seq<ChunkPlan>) -> nat
    decreases chunks.len(),
{
    if chunks.len() == 0 {
        0
    } else {
        plan::larger(largest_budget(chunks.drop_last()), chunks.last().seq_budget as nat)
    }
}

/// The KV slots that the most demanding of `chunks` takes behind a voice prompt of `prompt_len`.
///
/// A chunk's own `seq_budget` reserves [`plan::PROMPT_SEQ_HEADROOM`] for a voice prompt whose real
/// length is known here, so it over-states what is needed for a short prompt and under-states it
/// for a long one.
pub fn most_slots(prompt_len: usize, chunks: &Vec<ChunkPlan>) -> (r: usize)
    requires
        forall|i: int|
            0 <= i < chunks@.len() ==> (#[trigger] chunks@[i]).slots(prompt_len as nat)
                <= usize::MAX,
    ensures
        r == needed_slots(prompt_len as nat, chunks@),
{
    let mut r: usize = 0;
    assert(chunks@.take(0) =~= Seq::<ChunkPlan>::empty());
    for i in 0..chunks.len()
        invariant
            r == needed_slots(prompt_len as nat, chunks@.take(i as int)),
            forall|j: int|
                0 <= j < chunks@.len() ==> (#[trigger] chunks@[j]).slots(prompt_len as nat)
                    <= usize::MAX,
    {
        assert(chunks@.take(i + 1).drop_last() =~= chunks@.take(i as int));
        assert(chunks@[i as int].slots(prompt_len as nat) <= usize::MAX);
        let slots: usize = prompt_len + chunks[i].tokens.len() + chunks[i].frame_budget;
        if slots > r {
            r = slots;
        }
    }
    assert(chunks@.take(chunks@.len() as int) =~= chunks@);
    r
}

/// The KV budget of a session that is made for these chunks alone.
pub fn one_shot_budget(chunks: &Vec<ChunkPlan>) -> (r: usize)
    ensures
        r == largest_budget(chunks@),
{
    let mut r: usize = 0;
    assert(chunks@.take(0) =~= Seq::<ChunkPlan>::empty());
    for i in 0..chunks.len()
        invariant
            r == largest_budget(chunks@.take(i as int)),
    {
        assert(chunks@.take(i + 1).drop_last() =~= chunks@.take(i as int));
        if chunks[i].seq_budget > r {
            r = chunks[i].seq_budget;
        }
    }
    assert(chunks@.take(chunks@.len() as int) =~= chunks@);
    r
}

/// The position of one attention layer. A codec layer has none.
#[derive(Clone, Copy, Debug, PartialEq, Eq, Structural)]
pub enum LayerPosition {
    FlowLm { current_end: usize },
    Codec,
}

/// The position of the first flow-LM layer, if there is one.
pub open spec fn first_end(layers: Seq<LayerPosition>) -> Option<usize>
    decreases layers.len(),
{
    if layers.len() == 0 {
        None
    } else {
        match layers[0] {
            LayerPosition::FlowLm { current_end } => Some(current_end),
            LayerPosition::Codec => first_end(layers.skip(1)),
        }
    }
}

/// Slots the primed state already occupies -- the voice prompt's frames.
///
/// Read off the first flow-LM layer: every layer advances together, and a codec layer has no
/// such position.
pub fn primed_len(layers: &Vec<LayerPosition>) -> (r: usize)
    ensures
        r == (match first_end(layers@) {
            Some(end) => end,
            None => 0,
        }),
{
    let mut i: usize = 0;
    assert(layers@.skip(0) =~= layers@);
    while i < layers.len()
        invariant
            i <= layers@.len(),
            first_end(layers@) == first_end(layers@.skip(i as int)),
        decreases layers@.len() - i,
    {
        match layers[i] {
            LayerPosition::FlowLm { current_end } => {
                return current_end;
            },
            LayerPosition::Codec => {},
        }
        assert(layers@.skip(i as int).skip(1) =~= layers@.skip(i + 1));
        i += 1;
    }
    0
}

/// The right to run the one generation a session allows.
///
/// Held for as long as the generation writes to the session's KV buffers, and handed back with
/// [`SessionOf::release`]. It is the right of one session, and of no other.
#[derive(Debug)]
pub struct InFlight {
    session: u64,
}

impl InFlight {
    /// The number of the session that gave it.
    pub closed spec fn of(self) -> u64 {
        self.session
    }
}

/// A voice primed once, ready to generate repeatedly.
///
/// A session runs one generation at a time, and says so: starting a second while the first is
/// still running is an error, not silent corruption. Starting one shares the primed KV buffers,
/// so two overlapping generations would each attend over the other's keys.
///
/// The KV budget is fixed at construction.
#[derive(Debug)]
pub struct SessionOf {
    /// Which of the model's sessions this is.
    number: u64,
    frame_rate: FrameRate,
    temperature: Scalar,
    seed: u64,
    max_tokens_per_chunk: usize,
    seq_budget: usize,
    normalize: Normalize,
    /// Slots the voice prompt already occupies.
    prompt_len: usize,
    /// Set while a generation is running.
    in_flight: bool,
}

impl SessionOf {
    pub closed spec fn wf(self) -> bool {
        self.frame_rate.wf()
    }

    /// Which of the model's sessions this is.
    pub closed spec fn number(self) -> u64 {
        self.number
    }

    /// The KV budget.
    pub closed spec fn budget(self) -> usize {
        self.seq_budget
    }

    /// Slots the voice prompt already occupies.
    pub closed spec fn prompt(self) -> usize {
        self.prompt_len
    }

    /// Whether a generation is running.
    pub closed spec fn busy(self) -> bool {
        self.in_flight
    }

    /// The codec frame rate.
    pub closed spec fn rate(self) -> FrameRate {
        self.frame_rate
    }

    /// How text is normalized.
    pub closed spec fn policy(self) -> Normalize {
        self.normalize
    }

    /// The seed, the temperature and the chunk size of its requests.
    pub closed spec fn sampling(self) -> (u64, Scalar, usize) {
        (self.seed, self.temperature, self.max_tokens_per_chunk)
    }

    /// The same session, whether or not a generation is running.
    pub open spec fn same_setup(self, other: SessionOf) -> bool {
        &&& self.wf() == other.wf()
        &&& self.number() == other.number()
        &&& self.budget() == other.budget()
        &&& self.prompt() == other.prompt()
        &&& self.rate() == other.rate()
        &&& self.policy() == other.policy()
        &&& self.sampling() == other.sampling()
    }

    /// Build a session of `seq_budget`, from a state that `prompt_len` slots are taken of. The
    /// model numbers its sessions.
    pub(crate) fn new(
        number: u64,
        settings: Defaults,
        frame_rate: FrameRate,
        normalize: Normalize,
        seq_budget: usize,
        prompt_len: usize,
    ) -> (r: Self)
        requires
            frame_rate.wf(),
        ensures
            r.wf(),
            r.number() == number,
            r.budget() == seq_budget,
            r.prompt() == prompt_len,
            !r.busy(),
            r.rate() == frame_rate,
            r.policy() == normalize,
            r.sampling() == (settings.seed, settings.temperature, settings.max_tokens_per_chunk),
    {
        SessionOf {
            number,
            frame_rate,
            temperature: settings.temperature,
            seed: settings.seed,
            max_tokens_per_chunk: settings.max_tokens_per_chunk,
            seq_budget,
            normalize,
            prompt_len,
            in_flight: false,
        }
    }

    /// The KV budget this session was primed with.
    pub fn seq_budget(&self) -> (r: usize)
        ensures
            r == self.budget(),
    {
        self.seq_budget
    }

    /// How text is normalized.
    pub fn normalization(&self) -> (r: Normalize)
        ensures
            r == self.policy(),
    {
        self.normalize
    }

    /// Slots the voice prompt already occupies.
    pub fn prompt_len(&self) -> (r: usize)
        ensures
            r == self.prompt(),
    {
        self.prompt_len
    }

    /// The codec frame rate.
    pub fn frame_rate(&self) -> (r: FrameRate)
        ensures
            r == self.rate(),
    {
        self.frame_rate
    }

    /// The seed of requests that bring none.
    pub fn seed(&self) -> (r: u64)
        ensures
            r == self.sampling().0,
    {
        self.seed
    }

    /// The temperature of every request.
    pub fn temperature(&self) -> (r: &Scalar)
        ensures
            *r == self.sampling().1,
    {
        &self.temperature
    }

    /// The most text tokens a chunk may have.
    pub fn max_tokens_per_chunk(&self) -> (r: usize)
        ensures
            r == self.sampling().2,
    {
        self.max_tokens_per_chunk
    }

    /// The one chunk of a request that brings its own tokens.
    ///
    /// `frames_after_eos` is the tail that preparing the text would have chosen: 3 for a very
    /// short prompt, 1 otherwise.
    pub fn plan_tokens(&self, tokens: Vec<u32>, frames_after_eos: usize) -> (r: Result<ChunkPlan>)
        requires
            self.wf(),
            plannable(tokens@.len(), self.rate()),
        ensures
            match r {
                Ok(chunk) => tokens@.len() > 0 && chunk.plans(
                    Prepared { tokens, frames_after_eos },
                    self.rate(),
                ),
                Err(e) => tokens@.len() == 0 && e@ == Failure::InvalidArgument(
                    "nothing to synthesize: no tokens"@,
                ),
            },
    {
        if tokens.len() == 0 {
            return Err(Error::InvalidArgument("nothing to synthesize: no tokens".to_owned()));
        }
        Ok(plan_chunk(Prepared { tokens, frames_after_eos }, self.frame_rate))
    }

    /// Start a generation of `chunks`: they have to fit the KV budget, and no other generation
    /// may be running. A refused request leaves the session as it was.
    pub fn stream_chunks(&mut self, chunks: &Vec<ChunkPlan>) -> (r: Result<InFlight>)
        requires
            forall|i: int|
                0 <= i < chunks@.len() ==> (#[trigger] chunks@[i]).slots(old(self).prompt() as nat)
                    <= usize::MAX,
        ensures
            final(self).same_setup(*old(self)),
            match r {
                Ok(right) => {
                    &&& right.of() == old(self).number()
                    &&& needed_slots(old(self).prompt() as nat, chunks@) <= old(self).budget()
                    &&& !old(self).busy()
                    &&& final(self).busy()
                },
                Err(e) => {
                    let needed = needed_slots(old(self).prompt() as nat, chunks@);
                    &&& final(self).busy() == old(self).busy()
                    &&& needed > old(self).budget() || old(self).busy()
                    &&& e@ == if needed > old(self).budget() {
                        Failure::SeqBudgetExceeded {
                            needed: needed as usize,
                            budget: old(self).budget(),
                        }
                    } else {
                        Failure::Busy(
                            "a generation is already in flight on this session; finish or drop that SpeechStream first, or build a second session"@,
                        )
                    }
                },
            },
    {
        let needed = most_slots(self.prompt_len, chunks);
        if needed > self.seq_budget {
            return Err(Error::SeqBudgetExceeded { needed, budget: self.seq_budget });
        }
        if self.in_flight {
            return Err(
                Error::Busy(
                    "a generation is already in flight on this session; finish or drop that SpeechStream first, or build a second session".to_owned(),
                ),
            );
        }
        self.in_flight = true;
        Ok(InFlight { session: self.number })
    }

    /// The generation that held `right` has written its last: the next one may start. The right
    /// of another session changes nothing, and is handed back.
    pub fn release(&mut self, right: InFlight) -> (r: Option<InFlight>)
        ensures
            final(self).same_setup(*old(self)),
            if right.of() == old(self).number() {
                r is None && !final(self).busy()
            } else {
                r == Some(right) && final(self).busy() == old(self).busy()
            },
    {
        if right.session == self.number {
            self.in_flight = false;
            None
        } else {
            Some(right)
        }
    }
}

/// A session rebuilt with the budget that a refused text was told to need fits that text, and
/// the voice prompt with it.
pub proof fn the_reported_budget_is_enough(prompt_len: nat, chunks: Seq<ChunkPlan>, budget: nat)
    requires
        prompt_len < budget,
        needed_slots(prompt_len, chunks) > budget,
    ensures
        prompt_len < needed_slots(prompt_len, chunks),
        forall|i: int|
            0 <= i < chunks.len() ==> (#[trigger] chunks[i]).slots(prompt_len) <= needed_slots(
                prompt_len,
                chunks,
            ),
{
    assert forall|i: int| 0 <= i < chunks.len() implies (#[trigger] chunks[i]).slots(prompt_len)
        <= needed_slots(prompt_len, chunks) by {
        needed_covers(prompt_len, chunks, i);
    }
}

/// What is needed covers each chunk.
proof fn needed_covers(prompt_len: nat, chunks: Seq<ChunkPlan>, i: int)
    requires
        0 <= i < chunks.len(),
    ensures
        chunks[i].slots(prompt_len) <= needed_slots(prompt_len, chunks),
    decreases chunks.len(),
{
    if i < chunks.len() - 1 {
        needed_covers(prompt_len, chunks.drop_last(), i);
    }
}

/// A one-shot request always fits the session that is made for it, as long as the voice prompt
/// is within the headroom that the plan reserves.
pub proof fn one_shot_requests_fit(
    prompt_len: nat,
    texts: Seq<Prepared>,
    chunks: Seq<ChunkPlan>,
    rate: FrameRate,
)
    requires
        prompt_len <= plan::PROMPT_SEQ_HEADROOM,
        chunks.len() == texts.len(),
        forall|i: int| 0 <= i < chunks.len() ==> (#[trigger] chunks[i]).plans(texts[i], rate),
    ensures
        needed_slots(prompt_len, chunks) <= largest_budget(chunks),
    decreases chunks.len(),
{
    if chunks.len() > 0 {
        let i = chunks.len() - 1;
        assert(chunks[i].plans(texts[i], rate));
        assert forall|j: int| 0 <= j < i implies (#[trigger] chunks.drop_last()[j]).plans(
            texts.drop_last()[j],
            rate,
        ) by {
            assert(chunks[j].plans(texts[j], rate));
        }
        one_shot_requests_fit(prompt_len, texts.drop_last(), chunks.drop_last(), rate);
    }
}

/// Planning a text changes nothing about it: there is a plan for every chunk, in order, with the
/// chunk's own tokens and its own tail; its frames last for its text, and its KV budget has room
/// for both and for a voice prompt. Only a text without chunks is refused.
pub proof fn a_text_is_planned_as_it_is(
    texts: Vec<Prepared>,
    rate: FrameRate,
    r: Result<Vec<ChunkPlan>>,
)
    requires
        rate.wf(),
        call_ensures(plan_chunks, (texts, rate), r),
    ensures
        r is Ok <==> texts@.len() > 0,
        r matches Ok(chunks) ==> {
            &&& chunks@.len() == texts@.len()
            &&& forall|i: int|
                #![trigger chunks@[i]]
                0 <= i < chunks@.len() ==> {
                    let n = texts@[i].tokens@.len();
                    let frames = chunks@[i].frame_budget;
                    &&& chunks@[i].tokens@ == texts@[i].tokens@
                    &&& chunks@[i].frames_after_eos == texts@[i].frames_after_eos
                    &&& frames * (3 * rate.den) < (n + 6) * rate.num + 3 * rate.den
                    &&& frames < usize::MAX ==> frames * (3 * rate.den) >= (n + 6) * rate.num
                    &&& chunks@[i].seq_budget - n - frames == 512
                }
        },
{
    if let Ok(chunks) = r {
        assert forall|i: int| #![trigger chunks@[i]] 0 <= i < chunks@.len() implies {
            let n = texts@[i].tokens@.len();
            let frames = chunks@[i].frame_budget;
            &&& chunks@[i].tokens@ == texts@[i].tokens@
            &&& chunks@[i].frames_after_eos == texts@[i].frames_after_eos
            &&& frames * (3 * rate.den) < (n + 6) * rate.num + 3 * rate.den
            &&& frames < usize::MAX ==> frames * (3 * rate.den) >= (n + 6) * rate.num
            &&& chunks@[i].seq_budget - n - frames == 512
        } by {
            assert(chunks@[i].plans(texts@[i], rate));
            let n = texts@[i].tokens@.len();
            let frames = plan::frames_for(n, rate);
            let den = 3 * rate.den;
            plan::frames_cover_the_text(n, rate);
            if frames > usize::MAX {
                assert(usize::MAX * den <= frames * den) by (nonlinear_arith)
                    requires
                        usize::MAX <= frames,
                        den >= 0,
                ;
            }
        }
    }
}

/// What is needed for some chunks is what the most demanding one of them needs: its tokens, its
/// frames, and the voice prompt.
pub proof fn the_most_demanding_chunk_decides(
    prompt_len: usize,
    chunks: Vec<ChunkPlan>,
    most: usize,
)
    requires
        chunks@.len() > 0,
        call_ensures(most_slots, (prompt_len, &chunks), most),
    ensures
        forall|i: int|
            0 <= i < chunks@.len() ==> prompt_len + (#[trigger] chunks@[i]).tokens@.len()
                + chunks@[i].frame_budget <= most,
        exists|i: int|
            0 <= i < chunks@.len() && prompt_len + (#[trigger] chunks@[i]).tokens@.len()
                + chunks@[i].frame_budget == most,
{
    assert forall|i: int| 0 <= i < chunks@.len() implies prompt_len
        + (#[trigger] chunks@[i]).tokens@.len() + chunks@[i].frame_budget <= most by {
        needed_covers(prompt_len as nat, chunks@, i);
    }
    let i = needed_is_reached(prompt_len as nat, chunks@);
    assert(chunks@[i].slots(prompt_len as nat) == most);
}

/// What is needed is what one of the chunks needs.
proof fn needed_is_reached(prompt_len: nat, chunks: Seq<ChunkPlan>) -> (i: int)
    requires
        chunks.len() > 0,
    ensures
        0 <= i < chunks.len(),
        chunks[i].slots(prompt_len) == needed_slots(prompt_len, chunks),
    decreases chunks.len(),
{
    let last = chunks.last().slots(prompt_len);
    if chunks.len() == 1 || needed_slots(prompt_len, chunks.drop_last()) < last {
        assert(needed_slots(prompt_len, Seq::<ChunkPlan>::empty()) == 0);
        if chunks.len() == 1 {
            assert(chunks.drop_last() =~= Seq::<ChunkPlan>::empty());
        }
        chunks.len() - 1
    } else {
        needed_is_reached(prompt_len, chunks.drop_last())
    }
}

/// A session made for some chunks alone has the largest of their budgets.
pub proof fn a_one_shot_session_has_the_largest_budget(chunks: Vec<ChunkPlan>, budget: usize)
    requires
        chunks@.len() > 0,
        call_ensures(one_shot_budget, (&chunks,), budget),
    ensures
        forall|i: int| 0 <= i < chunks@.len() ==> (#[trigger] chunks@[i]).seq_budget <= budget,
        exists|i: int| 0 <= i < chunks@.len() && (#[trigger] chunks@[i]).seq_budget == budget,
{
    largest_is_reached(chunks@);
}

proof fn largest_is_reached(chunks: Seq<ChunkPlan>)
    ensures
        forall|i: int|
            0 <= i < chunks.len() ==> (#[trigger] chunks[i]).seq_budget <= largest_budget(chunks),
        chunks.len() > 0 ==> exists|i: int|
            0 <= i < chunks.len() && (#[trigger] chunks[i]).seq_budget == largest_budget(chunks),
    decreases chunks.len(),
{
    if chunks.len() > 0 {
        let init = chunks.drop_last();
        largest_is_reached(init);
        assert forall|i: int| 0 <= i < chunks.len() implies (#[trigger] chunks[i]).seq_budget
            <= largest_budget(chunks) by {
            if i < init.len() {
                assert(init[i].seq_budget <= largest_budget(init));
            }
        }
        if init.len() > 0 && largest_budget(init) >= chunks.last().seq_budget {
            let i = choose|i: int|
                0 <= i < init.len() && (#[trigger] init[i]).seq_budget == largest_budget(init);
            assert(chunks[i].seq_budget == largest_budget(chunks));
        } else {
            assert(chunks[chunks.len() - 1].seq_budget == largest_budget(chunks));
        }
    }
}

/// The slots that a voice prompt took are where the flow-LM layers stand, which advance together;
/// the layers of a codec do not count.
pub proof fn a_prompt_takes_what_the_layers_advanced(
    layers: Vec<LayerPosition>,
    end: usize,
    len: usize,
)
    requires
        call_ensures(primed_len, (&layers,), len),
        forall|i: int|
            0 <= i < layers@.len() ==> (#[trigger] layers@[i] is Codec || layers@[i]
                == LayerPosition::FlowLm { current_end: end }),
    ensures
        (exists|i: int| 0 <= i < layers@.len() && #[trigger] layers@[i] is FlowLm) ==> len == end,
        (forall|i: int| 0 <= i < layers@.len() ==> #[trigger] layers@[i] is Codec) ==> len == 0,
{
    the_first_end_is_the_end(layers@, end);
}

proof fn the_first_end_is_the_end(layers: Seq<LayerPosition>, end: usize)
    requires
        forall|i: int|
            0 <= i < layers.len() ==> (#[trigger] layers[i] is Codec || layers[i]
                == LayerPosition::FlowLm { current_end: end }),
    ensures
        (exists|i: int| 0 <= i < layers.len() && #[trigger] layers[i] is FlowLm) ==> first_end(
            layers,
        ) == Some(end),
        (forall|i: int| 0 <= i < layers.len() ==> #[trigger] layers[i] is Codec) ==> first_end(
            layers,
        ) is None,
    decreases layers.len(),
{
    if layers.len() > 0 && layers[0] is Codec {
        let rest = layers.skip(1);
        assert forall|i: int| 0 <= i < rest.len() implies (#[trigger] rest[i] is Codec || rest[i]
            == LayerPosition::FlowLm { current_end: end }) by {
            assert(layers[i + 1] is Codec || layers[i + 1] == LayerPosition::FlowLm {
                current_end: end,
            });
        }
        the_first_end_is_the_end(rest, end);
        if exists|i: int| 0 <= i < layers.len() && #[trigger] layers[i] is FlowLm {
            let i = choose|i: int| 0 <= i < layers.len() && #[trigger] layers[i] is FlowLm;
            assert(rest[i - 1] is FlowLm);
        }
        if forall|i: int| 0 <= i < layers.len() ==> #[trigger] layers[i] is Codec {
            assert forall|i: int| 0 <= i < rest.len() implies #[trigger] rest[i] is Codec by {
                assert(layers[i + 1] is Codec);
            }
        }
    } else if layers.len() > 0 {
        assert(layers[0] is FlowLm);
    }
}

/// Two generations of a session never overlap: once one was started, another is refused until the
/// right of the first was handed back, and then it is let in.
pub proof fn generations_never_overlap(
    first: Seq<&mut SessionOf>,
    chunks: Vec<ChunkPlan>,
    right: InFlight,
    second: Seq<&mut SessionOf>,
    others: Vec<ChunkPlan>,
    refused: Result<InFlight>,
    back: Seq<&mut SessionOf>,
    rest: Option<InFlight>,
    third: Seq<&mut SessionOf>,
    again: Result<InFlight>,
)
    requires
        first.len() == 1 && second.len() == 1 && back.len() == 1 && third.len() == 1,
        call_ensures(
            SessionOf::stream_chunks,
            (first[0], &chunks),
            Ok::<InFlight, Error>(right),
        ),
        *second[0] == *final(first[0]),
        call_ensures(SessionOf::stream_chunks, (second[0], &others), refused),
        *back[0] == *final(second[0]),
        call_ensures(SessionOf::release, (back[0], right), rest),
        *third[0] == *final(back[0]),
        call_ensures(SessionOf::stream_chunks, (third[0], &chunks), again),
    ensures
        refused matches Err(e) && (e@ is Busy || e@ is SeqBudgetExceeded),
        rest is None,
        again is Ok,
{
}

/// A generation is refused for its size if and only if one of its chunks does not fit: the voice
/// prompt, the chunk's tokens and its frames together take more slots than the session has.
pub proof fn only_chunks_that_fit_are_started(
    call: Seq<&mut SessionOf>,
    chunks: Vec<ChunkPlan>,
    r: Result<InFlight>,
)
    requires
        call.len() == 1,
        call_ensures(SessionOf::stream_chunks, (call[0], &chunks), r),
    ensures
        (r matches Err(e) && e@ is SeqBudgetExceeded) <==> exists|i: int|
            0 <= i < chunks@.len() && call[0].prompt() + (#[trigger] chunks@[i]).tokens@.len()
                + chunks@[i].frame_budget > call[0].budget(),
{
    let s = *call[0];
    let prompt = s.prompt() as nat;
    let needed = needed_slots(prompt, chunks@);
    if needed > s.budget() {
        let i = needed_is_reached(prompt, chunks@);
        assert(chunks@[i].slots(prompt) > s.budget());
    } else {
        assert forall|i: int| 0 <= i < chunks@.len() implies s.prompt()
            + (#[trigger] chunks@[i]).tokens@.len() + chunks@[i].frame_budget <= s.budget() by {
            needed_covers(prompt, chunks@, i);
        }
    }
}

/// A request that brings its own tokens is planned as a text of one chunk with those tokens is.
pub proof fn tokens_are_planned_like_a_text(
    session: SessionOf,
    tokens: Vec<u32>,
    after_eos: usize,
    alone: Result<ChunkPlan>,
    texts: Vec<Prepared>,
    planned: Result<Vec<ChunkPlan>>,
)
    requires
        call_ensures(SessionOf::plan_tokens, (&session, tokens, after_eos), alone),
        texts@.len() == 1 && texts@[0].tokens@ == tokens@ && texts@[0].frames_after_eos == after_eos,
        call_ensures(plan_chunks, (texts, session.rate()), planned),
    ensures
        alone is Ok <==> tokens@.len() > 0,
        alone matches Ok(chunk) ==> (planned matches Ok(chunks) && chunks@.len() == 1
            && chunks@[0].tokens@ == chunk.tokens@ && chunks@[0].frame_budget == chunk.frame_budget
            && chunks@[0].frames_after_eos == chunk.frames_after_eos && chunks@[0].seq_budget
            == chunk.seq_budget),
{
    if let Ok(chunks) = planned {
        assert(chunks@[0].plans(texts@[0], session.rate()));
    }
}

} // verus!
