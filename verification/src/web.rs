//! The WebGPU build: which weights a browser can load, in which number format, and the budget of
//! an utterance and its progress.
use crate::browser::{self, Chunk, Stepping};
use crate::error::TensorError;
use crate::loader::{self, BROKEN_VOICE_FILE};
use crate::plan::{self, FrameRate, Tail};
use crate::text;
use vstd::prelude::*;
use vstd::string::*;

verus! {

/// The weight-name rewrites that every frontend applies.
pub fn remap_key(name: &str) -> (r: Option<String>)
    ensures
        match r {
            Some(to) => !loader::dropped(name@) && to@ == loader::renamed(name@),
            None => loader::dropped(name@),
        },
{
    loader::remap_key(name)
}

/// Whether a config was given: an empty text stands for none.
pub fn has_config(json: Option<&str>) -> (r: bool)
    ensures
        r == (json matches Some(t) && text::trimmed(t@).len() > 0),
{
    match json {
        Some(t) => text::trim(&text::chars_of(t)).len() > 0,
        None => false,
    }
}

/// The number formats that the model runs in.
#[derive(Clone, Copy, Debug, PartialEq, Eq, Structural)]
pub enum Dtype {
    F32,
    F16,
    Q80F32,
    Q80F16,
}

/// The number format that a name stands for.
pub open spec fn dtype_of(name: Seq<char>) -> Option<Dtype> {
    if name == "f32"@ {
        Some(Dtype::F32)
    } else if name == "f16"@ {
        Some(Dtype::F16)
    } else if name == "q8"@ || name == "q8_0"@ {
        Some(Dtype::Q80F32)
    } else if name == "q8f16"@ || name == "q8_0f16"@ {
        Some(Dtype::Q80F16)
    } else {
        None
    }
}

/// A byte as it is shown: itself when it is printable ASCII other than the space, else a dot.
pub open spec fn graphic(b: u8) -> char {
    if 0x21 <= b <= 0x7e {
        b as char
    } else {
        '.'
    }
}

/// The first eight bytes of a file as they are shown.
pub open spec fn magic(bytes: Seq<u8>) -> Seq<char> {
    let n = if bytes.len() < 8 {
        bytes.len()
    } else {
        8
    };
    Seq::new(n, |i: int| graphic(bytes[i]))
}

/// A number format that computes in half precision.
pub open spec fn needs_f16(dtype: Option<Dtype>) -> bool {
    dtype == Some(Dtype::F16) || dtype == Some(Dtype::Q80F16)
}

/// Why weights cannot be loaded as `dtype` in a browser.
pub open spec fn load_refusal(dtype: Seq<char>, supports_f16: bool, bytes: Seq<u8>) -> Option<
    Seq<char>,
> {
    if needs_f16(dtype_of(dtype)) && !supports_f16 {
        Some(
            "dtype '"@ + dtype + "' needs WGSL shader-f16, which this adapter does not report"@,
        )
    } else if text::occurs_at(dtype, "q8"@, 0) && !browser::gguf(bytes) {
        Some(
            "a q8 dtype needs gguf weights in a browser: quantizing from safetensors reads every weight back to the host, which deadlocks here. Got "@
                + text::decimal(bytes.len()) + " bytes starting "@ + text::quoted(magic(bytes))
                + " -- load model.q8.gguf instead."@,
        )
    } else {
        None
    }
}

/// The first eight bytes of a file as they are shown.
fn magic_of(bytes: &[u8]) -> (r: String)
    ensures
        r@ == magic(bytes@),
{
    let mut r = String::new();
    let mut i: usize = 0;
    while i < 8 && i < bytes.len()
        invariant
            i <= 8,
            i <= bytes@.len(),
            r@ == magic(bytes@).take(i as int),
        decreases 8 - i,
    {
        let b: u8 = bytes[i];
        let c = if 0x21 <= b && b <= 0x7e {
            b as char
        } else {
            '.'
        };
        r.push(c);
        assert(magic(bytes@).take(i + 1) =~= magic(bytes@).take(i as int).push(c));
        i += 1;
    }
    assert(magic(bytes@).take(i as int) =~= magic(bytes@));
    r
}

/// Check that weights can be loaded as `dtype`, and give its name in lower case.
///
/// Half precision needs an adapter that has it. A q8 run needs the blocks already quantized in
/// the file: given dense weights, every weight would have to be read back off the device to
/// quantize it, and a browser cannot block on a readback. The message says what the file starts
/// with, since the usual cause is the page having fetched the wrong one.
pub fn check_load(dtype: &str, supports_f16: bool, bytes: &[u8]) -> (r: Result<String, String>)
    ensures
        match r {
            Ok(name) => name@ == text::ascii_lowercase(dtype@) && load_refusal(
                name@,
                supports_f16,
                bytes@,
            ) is None,
            Err(why) => load_refusal(text::ascii_lowercase(dtype@), supports_f16, bytes@) == Some(
                why@,
            ),
        },
{
    let name = text::to_ascii_lowercase(dtype);
    let wants_f16 = match parse_dtype(name.as_str()) {
        Ok(dtype) => dtype == Dtype::F16 || dtype == Dtype::Q80F16,
        Err(_) => false,
    };
    if wants_f16 && !supports_f16 {
        return Err(
            text::glue3(
                "dtype '",
                name.as_str(),
                "' needs WGSL shader-f16, which this adapter does not report",
            ),
        );
    }
    if text::starts_with(&text::chars_of(name.as_str()), "q8") && !browser::is_gguf(bytes) {
        let mut m = text::glue3(
            "a q8 dtype needs gguf weights in a browser: quantizing from safetensors reads every weight back to the host, which deadlocks here. Got ",
            text::decimal_of(bytes.len() as u64).as_str(),
            " bytes starting ",
        );
        m.append(text::quote(magic_of(bytes).as_str()).as_str());
        m.append(" -- load model.q8.gguf instead.");
        return Err(m);
    }
    Ok(name)
}

/// The number format that a name stands for.
pub fn parse_dtype(name: &str) -> (r: Result<Dtype, String>)
    ensures
        match r {
            Ok(dtype) => dtype_of(name@) == Some(dtype),
            Err(why) => dtype_of(name@) is None && why@ == "unknown dtype '"@ + name@ + "'"@,
        },
{
    if text::same(name, "f32") {
        Ok(Dtype::F32)
    } else if text::same(name, "f16") {
        Ok(Dtype::F16)
    } else if text::same(name, "q8") || text::same(name, "q8_0") {
        Ok(Dtype::Q80F32)
    } else if text::same(name, "q8f16") || text::same(name, "q8_0f16") {
        Ok(Dtype::Q80F16)
    } else {
        Err(text::glue3("unknown dtype '", name, "'"))
    }
}

/// The file format of weights as the page is told.
pub fn container(bytes: &[u8]) -> (r: &'static str)
    ensures
        r@ == (if browser::gguf(bytes@) {
            "gguf"@
        } else {
            "safetensors"@
        }),
{
    if browser::is_gguf(bytes) {
        "gguf"
    } else {
        "safetensors"
    }
}

/// The dimensions of a voice embedding with a batch in front of it.
pub fn batched_dims(dims: &Vec<usize>) -> (r: Vec<usize>)
    ensures
        r@ == batched(dims@),
{
    if dims.len() == 2 {
        let r = vec![1, dims[0], dims[1]];
        assert(r@ =~= seq![1usize, dims@[0], dims@[1]]);
        r
    } else {
        dims.clone()
    }
}

/// The dimensions of a voice embedding with a batch in front of it, as a sequence.
pub open spec fn batched(dims: Seq<usize>) -> Seq<usize> {
    if dims.len() == 2 {
        seq![1usize, dims[0], dims[1]]
    } else {
        dims
    }
}

/// Read a precomputed voice: the dimensions that the embedding in a voice file is registered
/// with, once a model is loaded. Which tensor of several is taken is left open; so is the text
/// that a broken file is complained about with.
pub fn voice_dims(loaded: bool, file: &[u8]) -> (r: Result<Vec<usize>, String>)
    ensures
        match (loaded, loader::adds_up(file@), browser::stored_tensors(file@)) {
            (false, _, _) => r matches Err(why) && why@ == "no model loaded"@,
            (true, false, _) => r matches Err(why) && why@ == BROKEN_VOICE_FILE@,
            (true, true, None) => r is Err,
            (true, true, Some(stored)) => if stored.dom() == Set::<Seq<char>>::empty() {
                r matches Err(why) && why@ == "empty voice file"@
            } else {
                r matches Ok(dims) && exists|name: Seq<char>| #[trigger]
                    stored.dom().contains(name) && dims@ == batched(stored[name].1)
            },
        },
{
    if !loaded {
        return Err("no model loaded".to_owned());
    }
    if !loader::does_add_up(file) {
        return Err(BROKEN_VOICE_FILE.to_owned());
    }
    let tensors = match browser::stored_in(file) {
        Ok(tensors) => tensors,
        Err(why) => {
            return Err(why);
        },
    };
    let ghost stored = browser::by_name(tensors@);
    let ghost names = browser::stored_names(tensors@);
    if tensors.len() == 0 {
        assert(stored.dom() =~= Set::<Seq<char>>::empty());
        return Err("empty voice file".to_owned());
    }
    proof {
        assert(names.contains(names[0]));
        assert(names.index_of(names[0]) == 0);
        assert(stored.dom().contains(names[0]));
    }
    Ok(batched_dims(&tensors[0].dims))
}

/// The frame budget an utterance is allowed, at 12.5 frames a second, so that a page can size
/// the waveform it draws as frames arrive.
pub fn max_frames_for_tokens(num_tokens: usize) -> (r: usize)
    ensures
        r == plan::capped(plan::frames_for(num_tokens as nat, FrameRate { num: 25, den: 2 })),
{
    plan::frame_budget(num_tokens, FrameRate { num: 25, den: 2 })
}

/// The KV slots of an utterance: its voice, its text, its frames, and some to spare.
pub open spec fn utterance_slots(voice_frames: nat, num_tokens: nat) -> nat {
    voice_frames + num_tokens + plan::capped(
        plan::frames_for(num_tokens, FrameRate { num: 25, den: 2 }),
    ) + browser::SEQ_BUDGET_SLACK as nat
}

/// The budgets of an utterance, in frames and in KV slots, given the frames of its voice if that
/// is known.
pub fn utterance_budget(voice: &str, voice_frames: Option<usize>, num_tokens: usize) -> (r: Result<
    (usize, usize),
    TensorError,
>)
    requires
        voice_frames matches Some(f) ==> utterance_slots(f as nat, num_tokens as nat) <= usize::MAX,
    ensures
        match (voice_frames, r) {
            (Some(f), Ok((frames, slots))) => {
                &&& frames == plan::capped(
                    plan::frames_for(num_tokens as nat, FrameRate { num: 25, den: 2 }),
                )
                &&& slots == utterance_slots(f as nat, num_tokens as nat)
            },
            (None, Err(e)) => browser::fails_with(e, "unknown voice '"@ + voice@ + "'"@),
            _ => false,
        },
{
    match voice_frames {
        None => {
            let m = text::glue3("unknown voice '", voice, "'");
            Err(TensorError::msg(m.as_str()))
        },
        Some(f) => {
            let frames = max_frames_for_tokens(num_tokens);
            Ok((frames, f + num_tokens + frames + browser::SEQ_BUDGET_SLACK))
        },
    }
}

/// An utterance never runs out of KV slots: its voice, its text and every frame it may generate
/// fit with slots to spare.
pub proof fn an_utterance_fits_its_budget(voice_frames: nat, num_tokens: nat, frames: nat)
    requires
        frames <= plan::capped(plan::frames_for(num_tokens, FrameRate { num: 25, den: 2 })),
    ensures
        voice_frames + num_tokens + frames < utterance_slots(voice_frames, num_tokens),
{
}

/// An utterance that is being generated, frame by frame, for a page that plays them as they come.
pub struct Utterance {
    chunk: Chunk,
    frames: usize,
    samples: usize,
    /// The page would not take a frame.
    refused: bool,
}

/// Where an utterance stands.
pub struct Progress {
    pub stepping: Stepping,
    /// Frames and samples that the page was handed.
    pub frames: nat,
    pub samples: nat,
    pub refused: bool,
}

/// A frame that the page was handed.
pub struct Handed {
    pub samples: nat,
    pub is_eos: bool,
    pub taken: bool,
}

impl Progress {
    /// An utterance that was just started.
    pub open spec fn fresh(max_frames: nat, after_eos: nat) -> Progress {
        Progress {
            stepping: Stepping::fresh(max_frames, after_eos),
            frames: 0,
            samples: 0,
            refused: false,
        }
    }

    /// Every frame that was generated was handed over.
    pub open spec fn wf(self) -> bool {
        !self.refused ==> self.frames == self.stepping.step
    }

    /// No frame is left to generate.
    pub open spec fn over(self) -> bool {
        self.refused || self.stepping.over()
    }

    /// After a frame. One that the page would not take is the last one.
    pub open spec fn after(self, frame: Handed) -> Progress {
        Progress {
            stepping: if frame.taken {
                self.stepping.after(frame.is_eos)
            } else {
                self.stepping
            },
            frames: self.frames + 1,
            samples: self.samples + frame.samples,
            refused: !frame.taken,
        }
    }
}

impl View for Utterance {
    type V = Progress;

    closed spec fn view(&self) -> Progress {
        Progress {
            stepping: self.chunk@,
            frames: self.frames as nat,
            samples: self.samples as nat,
            refused: self.refused,
        }
    }
}

impl Utterance {
    /// Start an utterance of at most `max_frames` frames.
    pub fn new(max_frames: usize, frames_after_eos: usize) -> (r: Self)
        ensures
            r@ == Progress::fresh(max_frames as nat, frames_after_eos as nat),
            r@.wf(),
    {
        Utterance {
            chunk: Chunk::new(max_frames, frames_after_eos),
            frames: 0,
            samples: 0,
            refused: false,
        }
    }

    /// The number of the frame to generate next. The first one starts from the beginning of
    /// speech, any other from the frame before it.
    pub fn next(&self) -> (r: Option<usize>)
        requires
            self@.wf(),
        ensures
            match r {
                None => self@.over(),
                Some(frame) => !self@.over() && frame == self@.frames,
            },
    {
        if self.refused || self.chunk.is_over() {
            None
        } else {
            Some(self.frames)
        }
    }

    /// A frame was generated and handed to the page, which took it or did not.
    pub fn handed(&mut self, samples: usize, is_eos: bool, taken: bool)
        requires
            old(self)@.wf(),
            !old(self)@.over(),
            old(self)@.samples + samples <= usize::MAX,
        ensures
            final(self)@ == old(self)@.after(Handed { samples: samples as nat, is_eos, taken }),
            final(self)@.wf(),
    {
        proof {
            self.chunk.budget_fits();
        }
        self.frames = self.frames + 1;
        self.samples = self.samples + samples;
        self.refused = !taken;
        if taken {
            self.chunk.stepped(is_eos);
        }
    }

    /// The frames that the page was handed.
    pub fn frames(&self) -> (r: usize)
        ensures
            r == self@.frames,
    {
        self.frames
    }

    /// The samples that the page was handed.
    pub fn samples(&self) -> (r: usize)
        ensures
            r == self@.samples,
    {
        self.samples
    }
}

/// Where an utterance ends up when its frames are these, one for each that it may have.
pub open spec fn played(p: Progress, frames: Seq<Handed>) -> Progress
    decreases frames.len(),
{
    if p.over() || frames.len() == 0 {
        p
    } else {
        played(p.after(frames[0]), frames.skip(1))
    }
}

/// The EOS flags of frames.
pub open spec fn eos_flags(frames: Seq<Handed>) -> Seq<bool> {
    Seq::new(frames.len(), |i: int| frames[i].is_eos)
}

/// A page that takes every frame is handed exactly those that the tail policy counts.
pub proof fn a_page_gets_every_frame(max_frames: nat, after_eos: nat, frames: Seq<Handed>)
    requires
        frames.len() == max_frames,
        forall|i: int| 0 <= i < frames.len() ==> (#[trigger] frames[i]).taken,
    ensures
        played(Progress::fresh(max_frames, after_eos), frames).frames == plan::emitted(
            Tail::fresh(after_eos),
            eos_flags(frames),
        ),
{
    lemma_frames_from(Progress::fresh(max_frames, after_eos), frames);
}

proof fn lemma_frames_from(p: Progress, frames: Seq<Handed>)
    requires
        !p.refused,
        !p.stepping.done,
        p.stepping.step <= p.stepping.budget,
        frames.len() == p.stepping.budget - p.stepping.step,
        forall|i: int| 0 <= i < frames.len() ==> (#[trigger] frames[i]).taken,
    ensures
        played(p, frames).frames == p.frames + plan::emitted(p.stepping.tail, eos_flags(frames)),
    decreases frames.len(),
{
    if frames.len() > 0 {
        assert(frames[0].taken);
        let next = p.after(frames[0]);
        let rest = frames.skip(1);
        assert(eos_flags(frames).skip(1) =~= eos_flags(rest));
        if p.stepping.tail.stops(frames[0].is_eos) {
            assert(played(next, rest) == next);
        } else {
            lemma_frames_from(next, rest);
        }
    }
}

/// A page that would not take a frame is handed no other.
pub proof fn nothing_follows_a_refused_frame(p: Progress, frames: Seq<Handed>, at: int)
    requires
        0 <= at < frames.len(),
        !frames[at].taken,
    ensures
        played(p, frames).frames <= p.frames + at + 1,
    decreases frames.len(),
{
    if !p.over() {
        let next = p.after(frames[0]);
        let rest = frames.skip(1);
        if at == 0 {
            assert(played(next, rest) == next);
        } else {
            nothing_follows_a_refused_frame(next, rest, at - 1);
        }
    }
}

/// Take the loaded model out for the duration of a generation, so that a reentrant call fails
/// cleanly.
pub fn take_loaded<T>(slot: &mut Option<T>) -> (r: Result<T, String>)
    ensures
        *final(slot) == None::<T>,
        match *old(slot) {
            Some(t) => r == Ok::<_, String>(t),
            None => r matches Err(why) && why@
                == "no model loaded (or a generation is already running)"@,
        },
{
    match slot.take() {
        Some(t) => Ok(t),
        None => Err("no model loaded (or a generation is already running)".to_owned()),
    }
}

/// The KV slots of an utterance hold its voice, its text and all of its frames, and sixteen more.
pub proof fn an_utterance_has_slots_to_spare(
    voice: &str,
    voice_frames: usize,
    num_tokens: usize,
    frames: usize,
    slots: usize,
)
    requires
        call_ensures(
            utterance_budget,
            (voice, Some(voice_frames), num_tokens),
            Ok::<(usize, usize), TensorError>((frames, slots)),
        ),
    ensures
        slots - voice_frames - num_tokens - frames == 16,
        frames < usize::MAX ==> frames * 6 >= (num_tokens + 6) * 25,
        frames * 6 < (num_tokens + 6) * 25 + 6,
{
    let rate = FrameRate { num: 25, den: 2 };
    plan::frames_cover_the_text(num_tokens as nat, rate);
}

/// The samples of some frames.
pub open spec fn samples_of(frames: Seq<Handed>) -> nat
    decreases frames.len(),
{
    if frames.len() == 0 {
        0
    } else {
        samples_of(frames.drop_last()) + frames.last().samples
    }
}

proof fn samples_add(first: Handed, rest: Seq<Handed>)
    ensures
        samples_of(seq![first] + rest) == first.samples + samples_of(rest),
    decreases rest.len(),
{
    let all = seq![first] + rest;
    if rest.len() == 0 {
        assert(all.drop_last() =~= Seq::<Handed>::empty());
        assert(samples_of(Seq::<Handed>::empty()) == 0);
    } else {
        samples_add(first, rest.drop_last());
        assert(all.drop_last() =~= seq![first] + rest.drop_last());
    }
}

/// What is counted for a page is what it was handed: the frames one by one from the first, and
/// their samples.
pub proof fn a_page_is_counted_what_it_was_handed(p: Progress, frames: Seq<Handed>)
    ensures
        ({
            let end = played(p, frames);
            let n = end.frames - p.frames;
            &&& 0 <= n <= frames.len()
            &&& end.samples == p.samples + samples_of(frames.take(n))
        }),
    decreases frames.len(),
{
    if p.over() || frames.len() == 0 {
        assert(frames.take(0) =~= Seq::<Handed>::empty());
    } else {
        let next = p.after(frames[0]);
        let rest = frames.skip(1);
        a_page_is_counted_what_it_was_handed(next, rest);
        let n = played(p, frames).frames - p.frames;
        assert(frames.take(n) =~= seq![frames[0]] + rest.take(n - 1));
        samples_add(frames[0], rest.take(n - 1));
    }
}

/// Weights load unless the device lacks what they need: half precision where it has none, or
/// quantized weights from a file that holds none.
pub proof fn weights_load_where_they_can(
    dtype: &str,
    supports_f16: bool,
    bytes: &[u8],
    r: Result<String, String>,
)
    requires
        call_ensures(check_load, (dtype, supports_f16, bytes), r),
    ensures
        ({
            let name = text::ascii_lowercase(dtype@);
            let half = name == "f16"@ || name == "q8f16"@ || name == "q8_0f16"@;
            let quantized = name.len() >= 2 && name[0] == 'q' && name[1] == '8';
            let gguf = bytes@.len() >= 4 && bytes@.take(4) == seq![0x47u8, 0x47, 0x55, 0x46];
            r is Ok <==> (half ==> supports_f16) && (quantized ==> gguf)
        }),
{
    let name = text::ascii_lowercase(dtype@);
    reveal_strlit("q8");
    reveal_strlit("f32");
    reveal_strlit("f16");
    reveal_strlit("q8_0");
    reveal_strlit("q8f16");
    reveal_strlit("q8_0f16");
    assert("f32"@[1] == '3' && "f16"@[1] == '1');
    assert("f16"@.len() == 3 && "q8"@.len() == 2 && "q8_0"@.len() == 4 && "q8f16"@.len() == 5
        && "q8_0f16"@.len() == 7);
    if name.len() >= 2 {
        let start = name.subrange(0, 2);
        assert(start[0] == name[0] && start[1] == name[1]);
        if name[0] == 'q' && name[1] == '8' {
            assert(start =~= "q8"@);
        }
    }
    if bytes@.len() >= 4 {
        let four = bytes@.take(4);
        assert(four[0] == bytes@[0] && four[1] == bytes@[1] && four[2] == bytes@[2] && four[3]
            == bytes@[3]);
        if browser::gguf(bytes@) {
            assert(four =~= seq![0x47u8, 0x47, 0x55, 0x46]);
        }
    }
}

} // verus!
