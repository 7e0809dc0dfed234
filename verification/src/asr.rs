//! Streaming ASR: frames of audio in, words out.
//!
//! Audio goes through the codec encoder 80 ms at a time; each frame becomes codebook indices
//! that the LM consumes alongside the text token it emitted on the previous step. Words close
//! when the model emits one of the end tokens.
use crate::error::{Cause, TensorError};
use crate::plan::{self, FrameRate};
use crate::text;
use vstd::prelude::*;
use vstd::string::*;

verus! {

pub const SAMPLE_RATE: usize = 24_000;

/// Samples per model step: 80 ms at 24 kHz.
pub const FRAME_SIZE: usize = 1920;

/// Frames of silence prepended before the audio, as the serving worker does.
pub const INITIAL_SILENCE_FRAMES: usize = 2;

/// Text tokens that close the current word.
pub const TOKEN_EOP: u32 = 0;

pub const TOKEN_EOS: u32 = 2;

pub const TOKEN_PAD: u32 = 3;

pub const TOKEN_SILENCE_PAD: u32 = 4;

/// 12.5 frames a second.
pub fn frame_rate() -> (r: FrameRate)
    ensures
        r == (FrameRate { num: 25, den: 2 }),
        r.wf(),
        FRAME_SIZE * r.num == SAMPLE_RATE * r.den,
{
    FrameRate { num: 25, den: 2 }
}

/// What the token stream says. Times are counted in frames.
#[derive(Debug)]
pub enum Event {
    Word { tokens: Vec<u32>, start: usize },
    EndWord { stop: usize },
    EndOfStream,
}

/// An event, with its tokens as a sequence.
pub enum Said {
    Word { tokens: Seq<u32>, start: nat },
    EndWord { stop: nat },
    EndOfStream,
}

impl View for Event {
    type V = Said;

    open spec fn view(&self) -> Said {
        match *self {
            Event::Word { tokens, start } => Said::Word { tokens: tokens@, start: start as nat },
            Event::EndWord { stop } => Said::EndWord { stop: stop as nat },
            Event::EndOfStream => Said::EndOfStream,
        }
    }
}

/// A list of events.
pub open spec fn said(events: Seq<Event>) -> Seq<Said> {
    Seq::new(events.len(), |i: int| events[i]@)
}

/// What a [`WordDecoder`] knows.
pub struct Listening {
    pub delay: nat,
    /// Tokens taken in.
    pub steps: nat,
    /// The word that is being built.
    pub word: Seq<u32>,
    /// A word was given out that no end was given out for.
    pub unended: bool,
    /// When the last word ended.
    pub last_stop: nat,
}

/// The tokens that close a word.
pub open spec fn closes_word(token: u32) -> bool {
    token == TOKEN_EOP || token == TOKEN_EOS || token == TOKEN_PAD || token == TOKEN_SILENCE_PAD
}

/// The tokens that end a word in time.
pub open spec fn ends_word(token: u32) -> bool {
    token == TOKEN_EOP || token == TOKEN_EOS
}

impl Listening {
    /// Nothing was taken in yet.
    pub open spec fn fresh(delay: nat) -> Listening {
        Listening { delay, steps: 0, word: Seq::empty(), unended: false, last_stop: 0 }
    }

    /// The next token is one of those before the delay is over.
    pub open spec fn early(self) -> bool {
        self.steps + 1 < self.delay
    }

    /// The next token gives out a word.
    pub open spec fn gives_word(self, token: u32) -> bool {
        closes_word(token) && self.word.len() > 0
    }

    /// The time of the next token.
    pub open spec fn now(self) -> nat {
        (self.steps + 1 - self.delay) as nat
    }

    /// What is known after the next token.
    pub open spec fn after(self, token: u32) -> Listening {
        if self.early() {
            Listening { steps: self.steps + 1, ..self }
        } else {
            Listening {
                delay: self.delay,
                steps: self.steps + 1,
                word: if closes_word(token) {
                    Seq::empty()
                } else {
                    self.word.push(token)
                },
                unended: !ends_word(token) && (self.unended || self.gives_word(token)),
                last_stop: if ends_word(token) {
                    self.now()
                } else {
                    self.last_stop
                },
            }
        }
    }

    /// What the next token makes known.
    pub open spec fn events(self, token: u32) -> Seq<Said> {
        if self.early() {
            Seq::empty()
        } else {
            (if self.gives_word(token) {
                seq![Said::Word { tokens: self.word, start: self.last_stop }]
            } else {
                Seq::empty()
            }) + (if ends_word(token) && (self.unended || self.gives_word(token)) {
                seq![Said::EndWord { stop: self.now() }]
            } else {
                Seq::empty()
            }) + (if token == TOKEN_EOS {
                seq![Said::EndOfStream]
            } else {
                Seq::empty()
            })
        }
    }
}

/// Turns the token stream into words, closing each one when the model says so.
pub struct WordDecoder {
    delay: usize,
    step_idx: usize,
    word_tokens: Vec<u32>,
    unended_word: bool,
    last_stop: usize,
}

impl View for WordDecoder {
    type V = Listening;

    closed spec fn view(&self) -> Listening {
        Listening {
            delay: self.delay as nat,
            steps: self.step_idx as nat,
            word: self.word_tokens@,
            unended: self.unended_word,
            last_stop: self.last_stop as nat,
        }
    }
}

impl WordDecoder {
    pub fn new(delay: usize) -> (r: Self)
        ensures
            r@ == Listening::fresh(delay as nat),
    {
        WordDecoder {
            delay,
            step_idx: 0,
            word_tokens: Vec::new(),
            unended_word: false,
            last_stop: 0,
        }
    }

    pub fn push(&mut self, token: u32) -> (r: Vec<Event>)
        requires
            old(self)@.steps < usize::MAX,
        ensures
            final(self)@ == old(self)@.after(token),
            said(r@) == old(self)@.events(token),
    {
        let ghost before = self@;
        self.step_idx = self.step_idx + 1;
        let mut events: Vec<Event> = Vec::new();
        if self.step_idx < self.delay {
            assert(said(events@) =~= Seq::<Said>::empty());
            return events;
        }
        let closes = token == TOKEN_EOP || token == TOKEN_EOS || token == TOKEN_PAD || token
            == TOKEN_SILENCE_PAD;
        if closes {
            if self.word_tokens.len() > 0 {
                let mut tokens: Vec<u32> = Vec::new();
                std::mem::swap(&mut tokens, &mut self.word_tokens);
                self.unended_word = true;
                events.push(Event::Word { tokens, start: self.last_stop });
            }
            assert(self.word_tokens@ =~= Seq::<u32>::empty());
        } else {
            self.word_tokens.push(token);
        }
        if token == TOKEN_EOP || token == TOKEN_EOS {
            let stop: usize = self.step_idx - self.delay;
            if self.unended_word {
                self.unended_word = false;
                events.push(Event::EndWord { stop });
            }
            self.last_stop = stop;
        }
        if token == TOKEN_EOS {
            events.push(Event::EndOfStream);
        }
        assert(said(events@) =~= before.events(token));
        events
    }
}

/// The tokens of the words among some events.
pub open spec fn tokens_said(events: Seq<Said>) -> Seq<u32>
    decreases events.len(),
{
    if events.len() == 0 {
        Seq::empty()
    } else {
        tokens_said(events.drop_last()) + match events.last() {
            Said::Word { tokens, start } => tokens,
            _ => Seq::empty(),
        }
    }
}

/// What is known after a run of tokens.
pub open spec fn listened(s: Listening, tokens: Seq<u32>) -> Listening
    decreases tokens.len(),
{
    if tokens.len() == 0 {
        s
    } else {
        listened(s, tokens.drop_last()).after(tokens.last())
    }
}

/// What a run of tokens makes known.
pub open spec fn all_said(s: Listening, tokens: Seq<u32>) -> Seq<Said>
    decreases tokens.len(),
{
    if tokens.len() == 0 {
        Seq::empty()
    } else {
        all_said(s, tokens.drop_last()) + listened(s, tokens.drop_last()).events(tokens.last())
    }
}

/// The tokens of a run that are part of words: those behind the delay that close none.
pub open spec fn spoken(s: Listening, tokens: Seq<u32>) -> Seq<u32>
    decreases tokens.len(),
{
    if tokens.len() == 0 {
        Seq::empty()
    } else {
        let before = spoken(s, tokens.drop_last());
        if listened(s, tokens.drop_last()).early() || closes_word(tokens.last()) {
            before
        } else {
            before.push(tokens.last())
        }
    }
}

/// The tokens of two lists of events are those of the one and then those of the other.
proof fn tokens_said_adds(a: Seq<Said>, b: Seq<Said>)
    ensures
        tokens_said(a + b) == tokens_said(a) + tokens_said(b),
    decreases b.len(),
{
    if b.len() == 0 {
        assert(a + b =~= a);
        assert(tokens_said(a) + tokens_said(b) =~= tokens_said(a));
    } else {
        tokens_said_adds(a, b.drop_last());
        assert((a + b).drop_last() =~= a + b.drop_last());
        assert((a + b).last() == b.last());
        let last = match b.last() {
            Said::Word { tokens, start } => tokens,
            _ => Seq::<u32>::empty(),
        };
        assert(tokens_said(a) + (tokens_said(b.drop_last()) + last) =~= (tokens_said(a)
            + tokens_said(b.drop_last())) + last);
    }
}

/// The tokens of the events of one token: a word, if it gives one out.
proof fn tokens_of_a_step(s: Listening, token: u32)
    ensures
        tokens_said(s.events(token)) == (if !s.early() && s.gives_word(token) {
            s.word
        } else {
            Seq::empty()
        }),
{
    let word = if s.gives_word(token) {
        seq![Said::Word { tokens: s.word, start: s.last_stop }]
    } else {
        Seq::empty()
    };
    let stop = if ends_word(token) && (s.unended || s.gives_word(token)) {
        seq![Said::EndWord { stop: s.now() }]
    } else {
        Seq::empty()
    };
    let end = if token == TOKEN_EOS {
        seq![Said::EndOfStream]
    } else {
        Seq::empty()
    };
    assert forall|e: Said| #[trigger] tokens_said(seq![e]) == (match e {
        Said::Word { tokens, start } => tokens,
        _ => Seq::<u32>::empty(),
    }) by {
        assert(seq![e].drop_last() =~= Seq::<Said>::empty());
        assert(tokens_said(Seq::<Said>::empty()) =~= Seq::<u32>::empty());
        let t = match e {
            Said::Word { tokens, start } => tokens,
            _ => Seq::<u32>::empty(),
        };
        assert(Seq::<u32>::empty() + t =~= t);
    }
    tokens_said_adds(word, stop);
    tokens_said_adds(word + stop, end);
    assert(tokens_said(Seq::<Said>::empty()) == Seq::<u32>::empty());
    let given = tokens_said(word);
    assert(given + Seq::<u32>::empty() =~= given);
    assert(tokens_said(stop) == Seq::<u32>::empty());
    assert(tokens_said(end) == Seq::<u32>::empty());
}

/// No token of a word is lost, added or moved: the words given out so far, and the word that is
/// being built, hold exactly the tokens that are part of words, in order.
pub proof fn words_keep_every_token(delay: nat, tokens: Seq<u32>)
    ensures
        ({
            let s = Listening::fresh(delay);
            tokens_said(all_said(s, tokens)) + listened(s, tokens).word == spoken(s, tokens)
        }),
    decreases tokens.len(),
{
    let s = Listening::fresh(delay);
    if tokens.len() == 0 {
        assert(tokens_said(all_said(s, tokens)) + listened(s, tokens).word =~= spoken(s, tokens));
    } else {
        let init = tokens.drop_last();
        let token = tokens.last();
        words_keep_every_token(delay, init);
        let before = listened(s, init);
        tokens_of_a_step(before, token);
        tokens_said_adds(all_said(s, init), before.events(token));
        assert(tokens_said(all_said(s, tokens)) + listened(s, tokens).word =~= spoken(s, tokens));
    }
}

/// How many more words than ends of words there are among some events.
pub open spec fn open_words(events: Seq<Said>) -> int
    decreases events.len(),
{
    if events.len() == 0 {
        0
    } else {
        open_words(events.drop_last()) + match events.last() {
            Said::Word { tokens, start } => 1int,
            Said::EndWord { stop } => -1int,
            Said::EndOfStream => 0,
        }
    }
}

/// The count of two lists of events is that of both.
proof fn open_words_adds(a: Seq<Said>, b: Seq<Said>)
    ensures
        open_words(a + b) == open_words(a) + open_words(b),
    decreases b.len(),
{
    if b.len() == 0 {
        assert(a + b =~= a);
    } else {
        open_words_adds(a, b.drop_last());
        assert((a + b).drop_last() =~= a + b.drop_last());
        assert((a + b).last() == b.last());
    }
}

/// The end of a word is only given out behind a word: at no time are there more ends than words,
/// and as long as a word is left unended there are fewer.
pub proof fn ends_follow_words(delay: nat, tokens: Seq<u32>)
    ensures
        ({
            let s = Listening::fresh(delay);
            open_words(all_said(s, tokens)) >= if listened(s, tokens).unended {
                1int
            } else {
                0
            }
        }),
    decreases tokens.len(),
{
    let s = Listening::fresh(delay);
    if tokens.len() > 0 {
        let token = tokens.last();
        let before = listened(s, tokens.drop_last());
        ends_follow_words(delay, tokens.drop_last());
        open_words_adds(all_said(s, tokens.drop_last()), before.events(token));
        let word = if before.gives_word(token) {
            seq![Said::Word { tokens: before.word, start: before.last_stop }]
        } else {
            Seq::empty()
        };
        let stop = if ends_word(token) && (before.unended || before.gives_word(token)) {
            seq![Said::EndWord { stop: before.now() }]
        } else {
            Seq::empty()
        };
        let end = if token == TOKEN_EOS {
            seq![Said::EndOfStream]
        } else {
            Seq::empty()
        };
        assert forall|e: Said| #[trigger] open_words(seq![e]) == (match e {
            Said::Word { tokens, start } => 1int,
            Said::EndWord { stop } => -1int,
            Said::EndOfStream => 0,
        }) by {
            assert(seq![e].drop_last() =~= Seq::<Said>::empty());
            assert(open_words(Seq::<Said>::empty()) == 0);
        }
        assert(open_words(Seq::<Said>::empty()) == 0);
        open_words_adds(word, stop);
        open_words_adds(word + stop, end);
    }
}

/// Word ends never come before the last one: time does not run backwards.
pub proof fn stops_never_go_back(delay: nat, tokens: Seq<u32>)
    ensures
        ({
            let s = listened(Listening::fresh(delay), tokens);
            s.steps == tokens.len() && s.delay == delay && s.last_stop + delay <= plan::larger(
                s.steps,
                delay,
            )
        }),
        tokens.len() > 0 ==> listened(Listening::fresh(delay), tokens.drop_last()).last_stop
            <= listened(Listening::fresh(delay), tokens).last_stop,
    decreases tokens.len(),
{
    if tokens.len() > 0 {
        stops_never_go_back(delay, tokens.drop_last());
    }
}

/// The tokens that part words: the end of a word or of the stream, and the two kinds of padding.
pub open spec fn parts_words(token: u32) -> bool {
    token == TOKEN_EOP || token == TOKEN_EOS || token == TOKEN_PAD || token == TOKEN_SILENCE_PAD
}

/// The tokens that the model listens to before it answers.
pub open spec fn lead(delay: nat) -> nat {
    if delay > 0 {
        (delay - 1) as nat
    } else {
        0
    }
}

/// The tokens behind the delay.
pub open spec fn answered(delay: nat, tokens: Seq<u32>) -> Seq<u32> {
    if tokens.len() <= lead(delay) {
        Seq::empty()
    } else {
        tokens.skip(lead(delay) as int)
    }
}

/// The position behind the last of some tokens that is one of `marks`, or the start.
pub open spec fn behind_last(tokens: Seq<u32>, marks: spec_fn(u32) -> bool) -> nat
    decreases tokens.len(),
{
    if tokens.len() == 0 {
        0
    } else if marks(tokens.last()) {
        tokens.len()
    } else {
        behind_last(tokens.drop_last(), marks)
    }
}

/// The time at position `at` of the tokens behind the delay. The start is at zero.
pub open spec fn time_at(delay: nat, at: nat) -> int {
    if at == 0 {
        0
    } else {
        lead(delay) + at - delay
    }
}

/// What a token makes known that stands behind `before`, where all of these stand behind the
/// delay. If it parts words, and the one before it does not, it gives out a word: all the tokens
/// since the last one that parted words. If it ends words, it tells so when any token of a word
/// came since the last one that did.
pub open spec fn made_known(delay: nat, before: Seq<u32>, token: u32) -> Seq<Said> {
    let parting = |t: u32| parts_words(t);
    let ending = |t: u32| t == TOKEN_EOP || t == TOKEN_EOS;
    let ended = behind_last(before, ending);
    let word = before.skip(behind_last(before, parting) as int);
    (if parts_words(token) && before.len() > 0 && !parts_words(before.last()) {
        seq![Said::Word { tokens: word, start: time_at(delay, ended) as nat }]
    } else {
        Seq::empty()
    }) + (if (token == TOKEN_EOP || token == TOKEN_EOS) && exists|i: int|
        ended <= i < before.len() && !parts_words(#[trigger] before[i]) {
        seq![Said::EndWord { stop: time_at(delay, before.len() + 1) as nat }]
    } else {
        Seq::empty()
    }) + (if token == TOKEN_EOS {
        seq![Said::EndOfStream]
    } else {
        Seq::empty()
    })
}

/// Where the last mark stands, and that none follows it.
proof fn behind_last_is_last(tokens: Seq<u32>, marks: spec_fn(u32) -> bool)
    ensures
        behind_last(tokens, marks) <= tokens.len(),
        forall|i: int|
            behind_last(tokens, marks) <= i < tokens.len() ==> !marks(#[trigger] tokens[i]),
        behind_last(tokens, marks) > 0 ==> marks(tokens[behind_last(tokens, marks) - 1]),
    decreases tokens.len(),
{
    if tokens.len() > 0 && !marks(tokens.last()) {
        let init = tokens.drop_last();
        behind_last_is_last(init, marks);
        assert forall|i: int| behind_last(tokens, marks) <= i < tokens.len() implies !marks(
            #[trigger] tokens[i],
        ) by {
            if i < init.len() {
                assert(!marks(init[i]));
            }
        }
    }
}

/// What is known is what the tokens so far say.
proof fn known_from_the_tokens(delay: nat, tokens: Seq<u32>)
    ensures
        ({
            let s = listened(Listening::fresh(delay), tokens);
            let heard = answered(delay, tokens);
            let parting = |t: u32| parts_words(t);
            let ending = |t: u32| t == TOKEN_EOP || t == TOKEN_EOS;
            let from = behind_last(heard, parting);
            let ended = behind_last(heard, ending);
            &&& s.delay == delay
            &&& s.steps == tokens.len()
            &&& s.word == heard.skip(from as int)
            &&& s.last_stop == time_at(delay, ended)
            &&& ended <= from
            &&& s.unended == exists|i: int| ended <= i < from && !parts_words(#[trigger] heard[i])
        }),
    decreases tokens.len(),
{
    let s = listened(Listening::fresh(delay), tokens);
    let heard = answered(delay, tokens);
    let parting = |t: u32| parts_words(t);
    let ending = |t: u32| t == TOKEN_EOP || t == TOKEN_EOS;
    let from = behind_last(heard, parting);
    let ended = behind_last(heard, ending);
    if tokens.len() == 0 {
        assert(s.word =~= heard.skip(from as int));
    } else {
        let init = tokens.drop_last();
        let token = tokens.last();
        known_from_the_tokens(delay, init);
        let before = answered(delay, init);
        let was = listened(Listening::fresh(delay), init);
        if tokens.len() <= lead(delay) {
            assert(heard =~= before);
        } else {
            assert(heard =~= before.push(token));
            assert(heard.drop_last() =~= before);
            let was_from = behind_last(before, parting);
            let was_ended = behind_last(before, ending);
            behind_last_is_last(before, parting);
            behind_last_is_last(before, ending);
            behind_last_is_last(heard, parting);
            behind_last_is_last(heard, ending);
            assert(s.word =~= heard.skip(from as int));
            if ending(token) {
                assert(from == ended);
            } else if parting(token) {
                // A word was left unended before, or the one that is given out now is.
                if was.unended {
                    let i = choose|i: int|
                        was_ended <= i < was_from && !parts_words(#[trigger] before[i]);
                    assert(!parts_words(heard[i]));
                } else if was.word.len() > 0 {
                    assert(!parting(before[was_from as int]));
                    assert(!parts_words(heard[was_from as int]));
                }
                if exists|i: int| ended <= i < from && !parts_words(#[trigger] heard[i]) {
                    let i = choose|i: int| ended <= i < from && !parts_words(#[trigger] heard[i]);
                    assert(i < before.len());
                    assert(!parts_words(before[i]));
                }
            } else {
                if was.unended {
                    let i = choose|i: int|
                        was_ended <= i < was_from && !parts_words(#[trigger] before[i]);
                    assert(!parts_words(heard[i]));
                }
                if exists|i: int| ended <= i < from && !parts_words(#[trigger] heard[i]) {
                    let i = choose|i: int| ended <= i < from && !parts_words(#[trigger] heard[i]);
                    assert(!parts_words(before[i]));
                }
            }
        }
    }
}

/// What a token makes known depends on the tokens before it in this way: before the delay is over
/// nothing is, and then what [`made_known`] says. So a word is given out whole, when it is over
/// and not before, and an end is told at the time of the token that tells it.
pub proof fn tokens_make_words_known(delay: nat, tokens: Seq<u32>, token: u32)
    ensures
        all_said(Listening::fresh(delay), tokens.push(token)) == all_said(
            Listening::fresh(delay),
            tokens,
        ) + (if tokens.len() < lead(delay) {
            Seq::empty()
        } else {
            made_known(delay, answered(delay, tokens), token)
        }),
{
    let s = listened(Listening::fresh(delay), tokens);
    let heard = answered(delay, tokens);
    let parting = |t: u32| parts_words(t);
    let ending = |t: u32| t == TOKEN_EOP || t == TOKEN_EOS;
    let from = behind_last(heard, parting);
    let ended = behind_last(heard, ending);
    known_from_the_tokens(delay, tokens);
    behind_last_is_last(heard, parting);
    assert(tokens.push(token).drop_last() =~= tokens);
    if tokens.len() >= lead(delay) {
        assert(heard.len() == tokens.len() - lead(delay));
        if heard.len() > 0 && !parts_words(heard.last()) {
            assert(from < heard.len()) by {
                if from > 0 {
                    assert(parting(heard[from - 1]));
                }
            }
        }
        if s.word.len() > 0 {
            assert(!parting(heard[heard.len() - 1]));
        }
        if parts_words(token) {
            if s.unended {
                let i = choose|i: int| ended <= i < from && !parts_words(#[trigger] heard[i]);
                assert(!parts_words(heard[i]));
            }
            if s.word.len() > 0 {
                assert(!parts_words(heard[from as int])) by {
                    assert(!parting(heard[from as int]));
                }
            }
            if exists|i: int| ended <= i < heard.len() && !parts_words(#[trigger] heard[i]) {
                let i = choose|i: int|
                    ended <= i < heard.len() && !parts_words(#[trigger] heard[i]);
                assert(i < from || s.word.len() > 0);
            }
        }
        assert(s.events(token) =~= made_known(delay, heard, token));
    }
}

/// The token lists of the words among some events.
pub open spec fn words_said(events: Seq<Said>) -> Seq<Seq<u32>>
    decreases events.len(),
{
    if events.len() == 0 {
        Seq::empty()
    } else {
        let before = words_said(events.drop_last());
        match events.last() {
            Said::Word { tokens, start } => before.push(tokens),
            _ => before,
        }
    }
}

/// Tokens split at those that part words: one piece more than there are of these.
pub open spec fn pieces(tokens: Seq<u32>) -> Seq<Seq<u32>>
    decreases tokens.len(),
{
    if tokens.len() == 0 {
        seq![Seq::empty()]
    } else {
        let before = pieces(tokens.drop_last());
        if parts_words(tokens.last()) {
            before.push(Seq::empty())
        } else {
            before.drop_last().push(before.last().push(tokens.last()))
        }
    }
}

/// The pieces that hold something.
pub open spec fn filled(pieces: Seq<Seq<u32>>) -> Seq<Seq<u32>> {
    pieces.filter(|piece: Seq<u32>| piece.len() > 0)
}

proof fn words_said_adds(a: Seq<Said>, b: Seq<Said>)
    ensures
        words_said(a + b) == words_said(a) + words_said(b),
    decreases b.len(),
{
    if b.len() == 0 {
        assert(a + b =~= a);
        assert(words_said(a) + words_said(b) =~= words_said(a));
    } else {
        words_said_adds(a, b.drop_last());
        assert((a + b).drop_last() =~= a + b.drop_last());
        if let Said::Word { tokens, start } = b.last() {
            assert((words_said(a) + words_said(b.drop_last())).push(tokens) =~= words_said(a)
                + words_said(b.drop_last()).push(tokens));
        }
    }
}

proof fn words_of_a_step(s: Listening, token: u32)
    ensures
        words_said(s.events(token)) == (if !s.early() && s.gives_word(token) {
            seq![s.word]
        } else {
            Seq::empty()
        }),
{
    let word = if s.gives_word(token) {
        seq![Said::Word { tokens: s.word, start: s.last_stop }]
    } else {
        Seq::empty()
    };
    let stop = if ends_word(token) && (s.unended || s.gives_word(token)) {
        seq![Said::EndWord { stop: s.now() }]
    } else {
        Seq::empty()
    };
    let end = if token == TOKEN_EOS {
        seq![Said::EndOfStream]
    } else {
        Seq::empty()
    };
    assert(words_said(Seq::<Said>::empty()) =~= Seq::<Seq<u32>>::empty());
    assert forall|e: Said| #[trigger] words_said(seq![e]) == (match e {
        Said::Word { tokens, start } => seq![tokens],
        _ => Seq::<Seq<u32>>::empty(),
    }) by {
        assert(seq![e].drop_last() =~= Seq::<Said>::empty());
        if let Said::Word { tokens, start } = e {
            assert(Seq::<Seq<u32>>::empty().push(tokens) =~= seq![tokens]);
        }
    }
    words_said_adds(word, stop);
    words_said_adds(word + stop, end);
    assert(words_said(word) + Seq::<Seq<u32>>::empty() =~= words_said(word));
}

/// The words are the maximal runs: those given out are the non-empty pieces of the tokens behind
/// the delay, split at those that part words, without the last piece, which is not over yet.
pub proof fn words_are_what_stands_between_marks(delay: nat, tokens: Seq<u32>)
    ensures
        words_said(all_said(Listening::fresh(delay), tokens)) == filled(
            pieces(answered(delay, tokens)).drop_last(),
        ),
        pieces(answered(delay, tokens)).len() > 0,
        listened(Listening::fresh(delay), tokens).word == pieces(answered(delay, tokens)).last(),
    decreases tokens.len(),
{
    let s = Listening::fresh(delay);
    let heard = answered(delay, tokens);
    let some = |piece: Seq<u32>| piece.len() > 0;
    stops_never_go_back(delay, tokens);
    if tokens.len() == 0 {
        assert(pieces(heard).drop_last() =~= Seq::<Seq<u32>>::empty());
        reveal(Seq::filter);
        assert(filled(pieces(heard).drop_last()) =~= Seq::<Seq<u32>>::empty());
        assert(words_said(all_said(s, tokens)) =~= Seq::<Seq<u32>>::empty());
    } else {
        let init = tokens.drop_last();
        let token = tokens.last();
        let before = answered(delay, init);
        let was = listened(s, init);
        words_are_what_stands_between_marks(delay, init);
        stops_never_go_back(delay, init);
        words_of_a_step(was, token);
        words_said_adds(all_said(s, init), was.events(token));
        let done = words_said(all_said(s, init));
        assert(done + Seq::<Seq<u32>>::empty() =~= done);
        if tokens.len() <= lead(delay) {
            assert(heard =~= before);
        } else {
            assert(heard.drop_last() =~= before);
            assert(heard.last() == token);
            let old_pieces = pieces(before);
            if parts_words(token) {
                assert(pieces(heard).drop_last() =~= old_pieces);
                assert(old_pieces =~= old_pieces.drop_last().push(old_pieces.last()));
                old_pieces.drop_last().lemma_filter_push(old_pieces.last(), some);
                assert(done + seq![old_pieces.last()] =~= done.push(old_pieces.last()));
            } else {
                assert(pieces(heard).drop_last() =~= old_pieces.drop_last());
            }
        }
    }
}

/// A ratio of whole numbers.
#[derive(Clone, Copy, Debug, PartialEq, Eq, Structural)]
pub struct Ratio {
    pub num: u32,
    pub den: u32,
}

/// The sizes of the codec.
#[derive(Debug)]
pub struct MimiConfig {
    pub channels: usize,
    pub sample_rate: usize,
    pub frame_rate: FrameRate,
    pub dimension: usize,
    pub quantizer_dimension: usize,
    pub quantizer_output_dimension: usize,
    pub n_filters: usize,
    pub n_residual_layers: usize,
    pub ratios: Vec<usize>,
    pub kernel_size: usize,
    pub last_kernel_size: usize,
    pub residual_kernel_size: usize,
    pub dilation_base: usize,
    pub compress: usize,
    pub transformer_d_model: usize,
    pub transformer_num_heads: usize,
    pub transformer_num_layers: usize,
    pub transformer_layer_scale: Ratio,
    pub transformer_context: usize,
    pub transformer_max_period: Ratio,
    pub transformer_dim_feedforward: usize,
    pub downsample_channel_wise: bool,
}

/// The codec that the ASR model listens through.
pub fn mimi_config() -> (r: MimiConfig)
    ensures
        r.channels == 1,
        r.sample_rate == SAMPLE_RATE,
        r.frame_rate == (FrameRate { num: 25, den: 2 }),
        r.dimension == 512,
        r.quantizer_dimension == 256,
        r.quantizer_output_dimension == 512,
        r.n_filters == 64,
        r.n_residual_layers == 1,
        r.ratios@ == seq![8usize, 6, 5, 4],
        r.kernel_size == 7,
        r.last_kernel_size == 3,
        r.residual_kernel_size == 3,
        r.dilation_base == 2,
        r.compress == 2,
        r.transformer_d_model == 512,
        r.transformer_num_heads == 8,
        r.transformer_num_layers == 8,
        r.transformer_layer_scale == (Ratio { num: 1, den: 100 }),
        r.transformer_context == 250,
        r.transformer_max_period == (Ratio { num: 10000, den: 1 }),
        r.transformer_dim_feedforward == 2048,
        r.downsample_channel_wise == false,
{
    let ratios = vec![8, 6, 5, 4];
    assert(ratios@ =~= seq![8usize, 6, 5, 4]);
    MimiConfig {
        channels: 1,
        sample_rate: SAMPLE_RATE,
        frame_rate: frame_rate(),
        dimension: 512,
        quantizer_dimension: 256,
        quantizer_output_dimension: 512,
        n_filters: 64,
        n_residual_layers: 1,
        ratios,
        kernel_size: 7,
        last_kernel_size: 3,
        residual_kernel_size: 3,
        dilation_base: 2,
        compress: 2,
        transformer_d_model: 512,
        transformer_num_heads: 8,
        transformer_num_layers: 8,
        transformer_layer_scale: Ratio { num: 1, den: 100 },
        transformer_context: 250,
        transformer_max_period: Ratio { num: 10000, den: 1 },
        transformer_dim_feedforward: 2048,
        downsample_channel_wise: false,
    }
}

/// A weight name of an ASR checkpoint under the name that the modules expect.
pub open spec fn renamed(name: Seq<char>) -> Seq<char> {
    text::replaced(
        text::replaced(name, ".self_attn.in_proj_weight"@, ".self_attn.in_proj.weight"@),
        ".conv.conv."@,
        ".conv."@,
    )
}

/// Weight-name rewrites for the ASR checkpoints. None is dropped.
pub fn remap_key(name: &str) -> (r: Option<String>)
    ensures
        r matches Some(to) && to@ == renamed(name@),
{
    proof {
        reveal_strlit(".self_attn.in_proj_weight");
        reveal_strlit(".conv.conv.");
    }
    let a = text::replace(
        &text::chars_of(name),
        ".self_attn.in_proj_weight",
        ".self_attn.in_proj.weight",
    );
    let b = text::replace(&a, ".conv.conv.", ".conv.");
    Some(text::string_of(&b))
}

/// What the model is conditioned on.
#[derive(Debug)]
pub enum Condition {
    /// The checkpoint has no language conditioner.
    Absent,
    /// The learnt padding: the model picks for itself.
    Padding,
    /// This language.
    Language(String),
}

/// The conditioning on the spoken language, given the languages that the checkpoint's conditioner
/// knows, if it has one. With none asked for, the model picks for itself.
pub fn language_condition(known: Option<&Vec<String>>, language: Option<&str>) -> (r: std::result::Result<
    Condition,
    TensorError,
>)
    ensures
        match (known, language) {
            (None, _) => r matches Ok(Condition::Absent),
            (Some(_), None) => r matches Ok(Condition::Padding),
            (Some(known), Some(language)) => if text::texts(known@).contains(language@) {
                r matches Ok(Condition::Language(l)) && l@ == language@
            } else {
                r matches Err(e) && e.cause == Cause::Other && e.text@ == "unknown language "@
                    + text::quoted(language@) + ", expected one of "@ + text::quoted_list(
                    text::texts(known@),
                )
            },
        },
{
    let known = match known {
        None => {
            return Ok(Condition::Absent);
        },
        Some(known) => known,
    };
    let language = match language {
        None => {
            return Ok(Condition::Padding);
        },
        Some(language) => language,
    };
    if text::is_listed(known, language) {
        return Ok(Condition::Language(language.to_owned()));
    }
    let mut m = text::glue3(
        "unknown language ",
        text::quote(language).as_str(),
        ", expected one of ",
    );
    m.append(text::show_list(known).as_str());
    Err(TensorError { text: m, cause: Cause::Other })
}

/// A frame holds [`FRAME_SIZE`] samples.
pub fn check_frame(samples: usize) -> (r: std::result::Result<(), TensorError>)
    ensures
        match r {
            Ok(_) => samples == FRAME_SIZE,
            Err(e) => samples != FRAME_SIZE && e.cause == Cause::Other && e.text@
                == "asr frame must be 1920 samples, got "@ + text::decimal(samples as nat),
        },
{
    if samples != FRAME_SIZE {
        return Err(
            TensorError {
                text: text::glue2(
                    "asr frame must be 1920 samples, got ",
                    text::decimal_of(samples as u64).as_str(),
                ),
                cause: Cause::Other,
            },
        );
    }
    Ok(())
}

/// Where the transcription of a stream stands.
pub struct AsrState {
    decoder: WordDecoder,
    text_token: u32,
    frame_idx: usize,
    audio_pad: Vec<u32>,
}

impl AsrState {
    /// The words so far.
    pub closed spec fn listening(self) -> Listening {
        self.decoder@
    }

    /// The text token of the step before.
    pub closed spec fn last_token(self) -> u32 {
        self.text_token
    }

    /// The frames taken in.
    pub closed spec fn frames(self) -> nat {
        self.frame_idx as nat
    }

    /// What the model is handed in place of the first frame.
    pub closed spec fn pad(self) -> Seq<u32> {
        self.audio_pad@
    }

    /// The start of a stream, for a model of `n_q` codebooks that starts from `start_token` and
    /// pads its audio with `pad_token`.
    pub fn new(delay: usize, start_token: u32, pad_token: u32, n_q: usize) -> (r: Self)
        ensures
            r.listening() == Listening::fresh(delay as nat),
            r.last_token() == start_token,
            r.frames() == 0,
            r.pad() == Seq::new(n_q as nat, |i: int| pad_token),
    {
        let mut audio_pad: Vec<u32> = Vec::new();
        for i in 0..n_q
            invariant
                audio_pad@ == Seq::new(i as nat, |j: int| pad_token),
        {
            audio_pad.push(pad_token);
            assert(audio_pad@ =~= Seq::new((i + 1) as nat, |j: int| pad_token));
        }
        AsrState { decoder: WordDecoder::new(delay), text_token: start_token, frame_idx: 0, audio_pad }
    }

    /// What the next LM step consumes, given the codes of its frame: the text token of the step
    /// before and the audio tokens. The first frame is dropped: the encoder has no history yet,
    /// so the model is handed pad tokens instead.
    pub fn lm_step(&mut self, codes: Vec<u32>) -> (r: (u32, Vec<u32>))
        requires
            old(self).frames() < usize::MAX,
        ensures
            r.0 == old(self).last_token(),
            r.1@ == (if old(self).frames() == 0 {
                old(self).pad()
            } else {
                codes@
            }),
            final(self).frames() == old(self).frames() + 1,
            final(self).listening() == old(self).listening(),
            final(self).last_token() == old(self).last_token(),
            final(self).pad() == old(self).pad(),
    {
        let audio = if self.frame_idx == 0 {
            self.audio_pad.clone()
        } else {
            codes
        };
        self.frame_idx = self.frame_idx + 1;
        (self.text_token, audio)
    }

    /// Feed back the sampled token and collect any words it closed.
    pub fn push_token(&mut self, token: u32) -> (r: Vec<Event>)
        requires
            old(self).listening().steps < usize::MAX,
        ensures
            said(r@) == old(self).listening().events(token),
            final(self).listening() == old(self).listening().after(token),
            final(self).last_token() == token,
            final(self).frames() == old(self).frames(),
            final(self).pad() == old(self).pad(),
    {
        self.text_token = token;
        self.decoder.push(token)
    }
}

/// The events of some pushes, one after the other.
pub open spec fn flat(events: Seq<Vec<Event>>) -> Seq<Said>
    decreases events.len(),
{
    if events.len() == 0 {
        Seq::empty()
    } else {
        flat(events.drop_last()) + said(events.last()@)
    }
}

proof fn a_transcription_says_what_it_hears(
    delay: usize,
    tokens: Seq<u32>,
    decoders: Seq<WordDecoder>,
    calls: Seq<&mut WordDecoder>,
    events: Seq<Vec<Event>>,
)
    requires
        decoders.len() == tokens.len() + 1,
        calls.len() == tokens.len(),
        events.len() == tokens.len(),
        call_ensures(WordDecoder::new, (delay,), decoders[0]),
        forall|i: int|
            #![trigger calls[i]]
            0 <= i < calls.len() ==> {
                &&& *calls[i] == decoders[i]
                &&& *final(calls[i]) == decoders[i + 1]
                &&& call_ensures(WordDecoder::push, (calls[i], tokens[i]), events[i])
            },
    ensures
        decoders.last()@ == listened(Listening::fresh(delay as nat), tokens),
        flat(events) == all_said(Listening::fresh(delay as nat), tokens),
    decreases tokens.len(),
{
    if tokens.len() > 0 {
        let n = tokens.len() - 1;
        let token = tokens[n];
        assert(*calls[n] == decoders[n]);
        let fewer = tokens.drop_last();
        let less = calls.drop_last();
        assert forall|i: int| #![trigger less[i]] 0 <= i < less.len() implies {
            &&& *less[i] == decoders.drop_last()[i]
            &&& *final(less[i]) == decoders.drop_last()[i + 1]
            &&& call_ensures(WordDecoder::push, (less[i], fewer[i]), events.drop_last()[i])
        } by {
            assert(*calls[i] == decoders[i]);
        }
        a_transcription_says_what_it_hears(
            delay,
            fewer,
            decoders.drop_last(),
            less,
            events.drop_last(),
        );
    }
}

/// Over a whole transcription, the words given out are the maximal runs of text tokens behind the
/// delay that something ended: nothing is split, joined, lost or made up.
pub proof fn a_transcription_gives_out_whole_words(
    delay: usize,
    tokens: Seq<u32>,
    decoders: Seq<WordDecoder>,
    calls: Seq<&mut WordDecoder>,
    events: Seq<Vec<Event>>,
)
    requires
        decoders.len() == tokens.len() + 1,
        calls.len() == tokens.len(),
        events.len() == tokens.len(),
        call_ensures(WordDecoder::new, (delay,), decoders[0]),
        forall|i: int|
            #![trigger calls[i]]
            0 <= i < calls.len() ==> {
                &&& *calls[i] == decoders[i]
                &&& *final(calls[i]) == decoders[i + 1]
                &&& call_ensures(WordDecoder::push, (calls[i], tokens[i]), events[i])
            },
    ensures
        words_said(flat(events)) == filled(pieces(answered(delay as nat, tokens)).drop_last()),
{
    a_transcription_says_what_it_hears(delay, tokens, decoders, calls, events);
    words_are_what_stands_between_marks(delay as nat, tokens);
}

/// The recognizer is fed its own tokens and the audio that it hears: at each step the token that
/// was sampled at the step before, from the start token on, and the codes of its own frame, with
/// padding in place of the first.
pub proof fn the_recognizer_is_fed_what_it_said_and_hears(
    delay: usize,
    start_token: u32,
    pad_token: u32,
    n_q: usize,
    states: Seq<AsrState>,
    steps: Seq<&mut AsrState>,
    pushes: Seq<&mut AsrState>,
    codes: Seq<Vec<u32>>,
    fed: Seq<(u32, Vec<u32>)>,
    tokens: Seq<u32>,
    events: Seq<Vec<Event>>,
    k: int,
)
    requires
        call_ensures(AsrState::new, (delay, start_token, pad_token, n_q), states[0]),
        states.len() == steps.len() + 1,
        pushes.len() == steps.len(),
        codes.len() == steps.len(),
        fed.len() == steps.len(),
        tokens.len() == steps.len(),
        events.len() == steps.len(),
        forall|i: int|
            #![trigger steps[i]]
            0 <= i < steps.len() ==> {
                &&& *steps[i] == states[i]
                &&& call_ensures(AsrState::lm_step, (steps[i], codes[i]), fed[i])
                &&& *pushes[i] == *final(steps[i])
                &&& call_ensures(AsrState::push_token, (pushes[i], tokens[i]), events[i])
                &&& *final(pushes[i]) == states[i + 1]
            },
        0 <= k < steps.len(),
    ensures
        fed[k].0 == if k == 0 {
            start_token
        } else {
            tokens[k - 1]
        },
        k > 0 ==> fed[k].1@ == codes[k]@,
        k == 0 ==> fed[k].1@.len() == n_q && forall|j: int|
            0 <= j < n_q ==> #[trigger] fed[k].1@[j] == pad_token,
{
    the_recognizer_stands_at(
        delay,
        start_token,
        pad_token,
        n_q,
        states,
        steps,
        pushes,
        codes,
        fed,
        tokens,
        events,
        k,
    );
    assert(*steps[k] == states[k]);
}

proof fn the_recognizer_stands_at(
    delay: usize,
    start_token: u32,
    pad_token: u32,
    n_q: usize,
    states: Seq<AsrState>,
    steps: Seq<&mut AsrState>,
    pushes: Seq<&mut AsrState>,
    codes: Seq<Vec<u32>>,
    fed: Seq<(u32, Vec<u32>)>,
    tokens: Seq<u32>,
    events: Seq<Vec<Event>>,
    k: int,
)
    requires
        call_ensures(AsrState::new, (delay, start_token, pad_token, n_q), states[0]),
        states.len() == steps.len() + 1,
        pushes.len() == steps.len(),
        codes.len() == steps.len(),
        fed.len() == steps.len(),
        tokens.len() == steps.len(),
        events.len() == steps.len(),
        forall|i: int|
            #![trigger steps[i]]
            0 <= i < steps.len() ==> {
                &&& *steps[i] == states[i]
                &&& call_ensures(AsrState::lm_step, (steps[i], codes[i]), fed[i])
                &&& *pushes[i] == *final(steps[i])
                &&& call_ensures(AsrState::push_token, (pushes[i], tokens[i]), events[i])
                &&& *final(pushes[i]) == states[i + 1]
            },
        0 <= k < states.len(),
    ensures
        states[k].frames() == k,
        states[k].pad() == Seq::new(n_q as nat, |i: int| pad_token),
        states[k].last_token() == if k == 0 {
            start_token
        } else {
            tokens[k - 1]
        },
    decreases k,
{
    if k > 0 {
        the_recognizer_stands_at(
            delay,
            start_token,
            pad_token,
            n_q,
            states,
            steps,
            pushes,
            codes,
            fed,
            tokens,
            events,
            k - 1,
        );
        assert(*steps[k - 1] == states[k - 1]);
    }
}

/// A weight name that holds neither of the parts that are renamed passes through untouched.
pub proof fn other_weight_names_pass_through(name: &str, r: Option<String>)
    requires
        call_ensures(remap_key, (name,), r),
        !text::holds(name@, ".self_attn.in_proj_weight"@),
        !text::holds(name@, ".conv.conv."@),
    ensures
        r matches Some(to) && to@ == name@,
{
    text::absent_patterns_change_nothing(
        name@,
        ".self_attn.in_proj_weight"@,
        ".self_attn.in_proj.weight"@,
    );
    text::absent_patterns_change_nothing(name@, ".conv.conv."@, ".conv."@);
}

} // verus!
