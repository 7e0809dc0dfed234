//! One connection: from its first message to its last.
use super::error_codes;
use super::protocol::{self, Answer, Setup, TtsReply, TtsRequest};
use crate::text;
use vstd::prelude::*;
use vstd::string::*;

verus! {

/// What came in on the socket.
#[derive(Debug)]
pub enum Incoming {
    /// A request.
    Request(TtsRequest),
    /// A text that is no request, with what is wrong with it.
    Invalid(String),
    /// A binary message, a ping or a pong.
    Other,
    /// The client closed the connection, or the stream ended.
    Closed,
}

/// A text to speak, as a stream of its own.
#[derive(Debug)]
pub struct Job {
    pub text: String,
    pub stream_id: u32,
}

/// What to do about it.
#[derive(Debug)]
pub enum Action {
    /// Wait for the next message.
    Wait,
    /// Send this, and wait for the next message.
    Reply(TtsReply),
    /// Set the session up.
    SetUp(Setup),
    /// Speak, send this, and wait for the next message or close the connection.
    Speak { job: Option<Job>, reply: TtsReply, close: bool },
    /// Close the connection.
    Close,
}

/// What to do, with its texts as character sequences.
pub enum Doing {
    Wait,
    Reply(Answer),
    SetUp(Setup),
    Speak { job: Option<(Seq<char>, u32)>, reply: Answer, close: bool },
    Close,
}

impl View for Action {
    type V = Doing;

    open spec fn view(&self) -> Doing {
        match *self {
            Action::Wait => Doing::Wait,
            Action::Reply(r) => Doing::Reply(r@),
            Action::SetUp(s) => Doing::SetUp(s),
            Action::Speak { job, reply, close } => Doing::Speak {
                job: match job {
                    Some(j) => Some((j.text@, j.stream_id)),
                    None => None,
                },
                reply: reply@,
                close,
            },
            Action::Close => Doing::Close,
        }
    }
}

/// Where a connection stands.
pub enum Stand {
    Awaiting,
    Ready { buffer: Seq<char>, stream_id: u32 },
}

/// The id behind `id`. The last one stays.
pub open spec fn next_id(id: u32) -> u32 {
    if id < u32::MAX {
        (id + 1) as u32
    } else {
        id
    }
}

impl Stand {
    /// The text that is waiting, as a job.
    pub open spec fn job(self) -> Option<(Seq<char>, u32)> {
        match self {
            Stand::Ready { buffer, stream_id } => if buffer.len() > 0 {
                Some((buffer, stream_id))
            } else {
                None
            },
            Stand::Awaiting => None,
        }
    }

    /// Once the waiting text was handed out.
    pub open spec fn flushed(self) -> Stand {
        match self {
            Stand::Ready { buffer, stream_id } => if buffer.len() > 0 {
                Stand::Ready { buffer: Seq::empty(), stream_id: next_id(stream_id) }
            } else {
                self
            },
            Stand::Awaiting => self,
        }
    }

    /// Where the connection stands behind a message.
    pub open spec fn after(self, incoming: Incoming) -> Stand {
        match (self, incoming) {
            (Stand::Ready { buffer, stream_id }, Incoming::Request(TtsRequest::Text { text })) => {
                Stand::Ready { buffer: buffer + text@, stream_id }
            },
            (Stand::Ready { .. }, Incoming::Request(TtsRequest::Flush { .. })) => self.flushed(),
            (Stand::Ready { .. }, Incoming::Request(TtsRequest::EndOfStream)) => self.flushed(),
            _ => self,
        }
    }

    /// What is done about a message.
    pub open spec fn action(self, incoming: Incoming) -> Doing {
        match (self, incoming) {
            (_, Incoming::Closed) => Doing::Close,
            (_, Incoming::Other) => Doing::Wait,
            (_, Incoming::Invalid(why)) => Doing::Reply(
                Answer::Error {
                    message: "invalid request: "@ + why@,
                    code: error_codes::BAD_REQUEST,
                },
            ),
            (Stand::Awaiting, Incoming::Request(TtsRequest::Setup(s))) => Doing::SetUp(s),
            (Stand::Awaiting, Incoming::Request(_)) => Doing::Reply(
                Answer::Error {
                    message: "expected setup as first message"@,
                    code: error_codes::BAD_REQUEST,
                },
            ),
            (Stand::Ready { .. }, Incoming::Request(TtsRequest::Setup(_))) => Doing::Reply(
                Answer::Error {
                    message: "session already initialized"@,
                    code: error_codes::BAD_REQUEST,
                },
            ),
            (Stand::Ready { .. }, Incoming::Request(TtsRequest::Text { .. })) => Doing::Wait,
            (Stand::Ready { .. }, Incoming::Request(TtsRequest::Flush { flush_id })) => {
                Doing::Speak {
                    job: self.job(),
                    reply: Answer::Flushed { flush_id },
                    close: false,
                }
            },
            (Stand::Ready { .. }, Incoming::Request(TtsRequest::EndOfStream)) => Doing::Speak {
                job: self.job(),
                reply: Answer::EndOfStream,
                close: true,
            },
        }
    }
}

/// The state of one connection.
#[derive(Debug)]
pub struct SessionState {
    ready: bool,
    text_buffer: String,
    stream_id: u32,
}

impl View for SessionState {
    type V = Stand;

    closed spec fn view(&self) -> Stand {
        if self.ready {
            Stand::Ready { buffer: self.text_buffer@, stream_id: self.stream_id }
        } else {
            Stand::Awaiting
        }
    }
}

impl SessionState {
    /// A connection that was just opened.
    pub fn new() -> (r: Self)
        ensures
            r@ == Stand::Awaiting,
    {
        SessionState { ready: false, text_buffer: String::new(), stream_id: 0 }
    }

    /// The session is set up: from now on it takes text.
    pub fn set_ready(&mut self)
        requires
            old(self)@ is Awaiting,
        ensures
            final(self)@ == (Stand::Ready { buffer: Seq::empty(), stream_id: 0 }),
    {
        self.ready = true;
        self.text_buffer = String::new();
        self.stream_id = 0;
    }

    /// Hand out the text that is waiting.
    fn take_job(&mut self) -> (r: Option<Job>)
        requires
            old(self)@ is Ready,
        ensures
            final(self)@ == old(self)@.flushed(),
            match r {
                Some(j) => old(self)@.job() == Some((j.text@, j.stream_id)),
                None => old(self)@.job() is None,
            },
    {
        if self.text_buffer.as_str().unicode_len() == 0 {
            return None;
        }
        let stream_id = self.stream_id;
        self.stream_id = self.stream_id.saturating_add(1);
        let mut text = String::new();
        std::mem::swap(&mut text, &mut self.text_buffer);
        Some(Job { text, stream_id })
    }

    /// What to do about a message. A refused request leaves the session as it was.
    pub fn on_message(&mut self, incoming: Incoming) -> (r: Action)
        ensures
            r@ == old(self)@.action(incoming),
            final(self)@ == old(self)@.after(incoming),
    {
        let req = match incoming {
            Incoming::Closed => {
                return Action::Close;
            },
            Incoming::Other => {
                return Action::Wait;
            },
            Incoming::Invalid(why) => {
                return Action::Reply(
                    protocol::error_reply(
                        error_codes::BAD_REQUEST,
                        text::glue2("invalid request: ", why.as_str()),
                    ),
                );
            },
            Incoming::Request(req) => req,
        };
        if !self.ready {
            return match req {
                TtsRequest::Setup(setup) => Action::SetUp(setup),
                _ => Action::Reply(
                    protocol::error_reply(
                        error_codes::BAD_REQUEST,
                        "expected setup as first message".to_owned(),
                    ),
                ),
            };
        }
        match req {
            TtsRequest::Setup(_) => Action::Reply(
                protocol::error_reply(
                    error_codes::BAD_REQUEST,
                    "session already initialized".to_owned(),
                ),
            ),
            TtsRequest::Text { text } => {
                self.text_buffer.append(text.as_str());
                Action::Wait
            },
            TtsRequest::Flush { flush_id } => {
                let job = self.take_job();
                Action::Speak { job, reply: TtsReply::Flushed { flush_id }, close: false }
            },
            TtsRequest::EndOfStream => {
                let job = self.take_job();
                Action::Speak { job, reply: TtsReply::EndOfStream, close: true }
            },
        }
    }
}

/// The state behind a run of messages.
pub open spec fn state_after(s: Stand, messages: Seq<Incoming>) -> Stand
    decreases messages.len(),
{
    if messages.len() == 0 {
        s
    } else {
        state_after(s, messages.drop_last()).after(messages.last())
    }
}

/// The text that a run of messages brings.
pub open spec fn text_in(messages: Seq<Incoming>) -> Seq<char>
    decreases messages.len(),
{
    if messages.len() == 0 {
        Seq::empty()
    } else {
        text_in(messages.drop_last()) + match messages.last() {
            Incoming::Request(TtsRequest::Text { text }) => text@,
            _ => Seq::empty(),
        }
    }
}

/// The jobs that a run of messages hands out.
pub open spec fn jobs(s: Stand, messages: Seq<Incoming>) -> Seq<(Seq<char>, u32)>
    decreases messages.len(),
{
    if messages.len() == 0 {
        Seq::empty()
    } else {
        let before = jobs(s, messages.drop_last());
        match state_after(s, messages.drop_last()).action(messages.last()) {
            Doing::Speak { job: Some(j), .. } => before.push(j),
            _ => before,
        }
    }
}

/// The texts of a list of jobs, one after the other.
pub open spec fn text_out(jobs: Seq<(Seq<char>, u32)>) -> Seq<char>
    decreases jobs.len(),
{
    if jobs.len() == 0 {
        Seq::empty()
    } else {
        text_out(jobs.drop_last()) + jobs.last().0
    }
}

/// A session that is set up.
pub open spec fn opened() -> Stand {
    Stand::Ready { buffer: Seq::empty(), stream_id: 0 }
}

/// No text that a client sends after setup is lost, repeated or reordered: what was handed out
/// to be spoken and what is still waiting are together what came in.
pub proof fn no_text_is_lost(messages: Seq<Incoming>)
    ensures
        match state_after(opened(), messages) {
            Stand::Ready { buffer, stream_id } => text_out(jobs(opened(), messages)) + buffer
                == text_in(messages),
            Stand::Awaiting => false,
        },
    decreases messages.len(),
{
    let s = opened();
    if messages.len() > 0 {
        let init = messages.drop_last();
        no_text_is_lost(init);
        let before = state_after(s, init);
        let buffer = before->buffer;
        let done = jobs(s, init);
        match before.action(messages.last()) {
            Doing::Speak { job: Some(j), reply, close } => {
                assert(done.push(j).drop_last() =~= done);
                assert(text_out(done) + j.0 + Seq::<char>::empty() =~= text_out(done) + j.0);
                assert(text_in(init) + Seq::<char>::empty() =~= text_in(init));
            },
            _ => {
                match messages.last() {
                    Incoming::Request(TtsRequest::Text { text }) => {
                        assert(text_out(done) + (buffer + text@) =~= text_out(done) + buffer
                            + text@);
                    },
                    _ => {
                        assert(text_in(init) + Seq::<char>::empty() =~= text_in(init));
                    },
                }
            },
        }
    } else {
        assert(Seq::<char>::empty() + Seq::<char>::empty() =~= Seq::<char>::empty());
    }
}

/// The streams of a session are numbered from zero on, without gaps, as long as ids last.
pub proof fn streams_are_numbered_in_order(messages: Seq<Incoming>)
    requires
        jobs(opened(), messages).len() <= u32::MAX,
    ensures
        forall|i: int|
            0 <= i < jobs(opened(), messages).len() ==> (#[trigger] jobs(opened(), messages)[i]).1
                == i,
        match state_after(opened(), messages) {
            Stand::Ready { buffer, stream_id } => stream_id == jobs(opened(), messages).len(),
            Stand::Awaiting => false,
        },
    decreases messages.len(),
{
    if messages.len() > 0 {
        streams_are_numbered_in_order(messages.drop_last());
    }
}

/// A client asks for the text so far to be spoken.
pub open spec fn asks_to_speak(message: Incoming) -> bool {
    match message {
        Incoming::Request(TtsRequest::Flush { flush_id }) => true,
        Incoming::Request(TtsRequest::EndOfStream) => true,
        _ => false,
    }
}

/// Behind a flush or the end of the stream nothing is waiting: all the text that came in was
/// handed out to be spoken.
pub proof fn a_flush_leaves_nothing_waiting(messages: Seq<Incoming>)
    requires
        messages.len() > 0,
        asks_to_speak(messages.last()),
    ensures
        match state_after(opened(), messages) {
            Stand::Ready { buffer, stream_id } => buffer == Seq::<char>::empty(),
            Stand::Awaiting => false,
        },
        text_out(jobs(opened(), messages)) == text_in(messages),
{
    no_text_is_lost(messages);
    no_text_is_lost(messages.drop_last());
    let out = text_out(jobs(opened(), messages));
    assert(state_after(opened(), messages)->buffer =~= Seq::<char>::empty());
    assert(out + Seq::<char>::empty() =~= out);
}

/// Behind messages that ask for nothing to be spoken, nothing is.
proof fn nothing_is_spoken_unasked(s: Stand, messages: Seq<Incoming>)
    requires
        forall|i: int| 0 <= i < messages.len() ==> !asks_to_speak(#[trigger] messages[i]),
    ensures
        jobs(s, messages) == Seq::<(Seq<char>, u32)>::empty(),
    decreases messages.len(),
{
    if messages.len() > 0 {
        let init = messages.drop_last();
        assert forall|i: int| 0 <= i < init.len() implies !asks_to_speak(#[trigger] init[i]) by {
            assert(!asks_to_speak(messages[i]));
        }
        nothing_is_spoken_unasked(s, init);
        assert(!asks_to_speak(messages[messages.len() - 1]));
    }
}

/// A session goes on from where it stands, whatever led there.
proof fn messages_are_taken_in_turn(s: Stand, first: Seq<Incoming>, then: Seq<Incoming>)
    ensures
        state_after(s, first + then) == state_after(state_after(s, first), then),
        jobs(s, first + then) == jobs(s, first) + jobs(state_after(s, first), then),
        text_in(first + then) == text_in(first) + text_in(then),
    decreases then.len(),
{
    if then.len() == 0 {
        assert(first + then =~= first);
        assert(jobs(s, first) + jobs(state_after(s, first), then) =~= jobs(s, first));
        assert(text_in(first) + text_in(then) =~= text_in(first));
    } else {
        let init = then.drop_last();
        messages_are_taken_in_turn(s, first, init);
        assert((first + then).drop_last() =~= first + init);
        assert((first + then).last() == then.last());
        let a = jobs(s, first);
        let b = jobs(state_after(s, first), init);
        assert forall|j: (Seq<char>, u32)| #[trigger] (a + b).push(j) == a + b.push(j) by {
            assert((a + b).push(j) =~= a + b.push(j));
        }
        let more = match then.last() {
            Incoming::Request(TtsRequest::Text { text }) => text@,
            _ => Seq::empty(),
        };
        assert(text_in(first) + text_in(init) + more =~= text_in(first) + (text_in(init) + more));
    }
}

/// Each flush, and the end of the stream, speaks what came in since the last one, in one piece
/// and under the next stream id, and nothing when nothing came in. Whatever else is sent speaks
/// nothing.
pub proof fn a_flush_speaks_what_came_in_since_the_last(
    earlier: Seq<Incoming>,
    since: Seq<Incoming>,
    asking: Incoming,
)
    requires
        earlier.len() == 0 || asks_to_speak(earlier.last()),
        forall|i: int| 0 <= i < since.len() ==> !asks_to_speak(#[trigger] since[i]),
        asks_to_speak(asking),
        jobs(opened(), earlier + since).len() <= u32::MAX,
    ensures
        ({
            let said = jobs(opened(), earlier);
            &&& jobs(opened(), earlier + since) == said
            &&& jobs(opened(), (earlier + since).push(asking)) == if text_in(since).len() > 0 {
                said.push((text_in(since), said.len() as u32))
            } else {
                said
            }
        }),
{
    let s = opened();
    let so_far = earlier + since;
    let stand = state_after(s, earlier);
    messages_are_taken_in_turn(s, earlier, since);
    nothing_is_spoken_unasked(stand, since);
    let said = jobs(s, earlier);
    assert(said + Seq::<(Seq<char>, u32)>::empty() =~= said);
    no_text_is_lost(so_far);
    if earlier.len() > 0 {
        a_flush_leaves_nothing_waiting(earlier);
    } else {
        assert(text_out(said) =~= text_in(earlier));
    }
    assert(text_out(said) == text_in(earlier));
    let waiting = state_after(s, so_far)->buffer;
    assert(text_out(said) + waiting == text_in(earlier) + text_in(since));
    assert(waiting =~= text_in(since)) by {
        let a = text_out(said) + waiting;
        let b = text_in(earlier) + text_in(since);
        assert(waiting =~= a.skip(text_out(said).len() as int));
        assert(text_in(since) =~= b.skip(text_in(earlier).len() as int));
    }
    streams_are_numbered_in_order(so_far);
    let all = so_far.push(asking);
    assert(all.drop_last() =~= so_far);
    a_flush_leaves_nothing_waiting(all);
    assert(text_in(all) =~= text_in(so_far));
}

/// What a client is told, over a whole session: every request that is refused, and every flush,
/// is answered on the spot; the stream ends with one reply and closes the connection; text is
/// taken in silence.
pub proof fn every_request_is_answered(messages: Seq<Incoming>, next: Incoming)
    ensures
        match (next, state_after(opened(), messages).action(next)) {
            (Incoming::Request(TtsRequest::Flush { flush_id }), Doing::Speak { reply, close, .. }) => {
                reply == (Answer::Flushed { flush_id }) && !close
            },
            (Incoming::Request(TtsRequest::EndOfStream), Doing::Speak { reply, close, .. }) => {
                reply == Answer::EndOfStream && close
            },
            (Incoming::Request(TtsRequest::Text { text }), doing) => doing == Doing::Wait,
            (Incoming::Request(TtsRequest::Setup(_)), Doing::Reply(Answer::Error { code, .. })) => {
                code == error_codes::BAD_REQUEST
            },
            (Incoming::Invalid(_), Doing::Reply(Answer::Error { code, .. })) => code
                == error_codes::BAD_REQUEST,
            (Incoming::Other, doing) => doing == Doing::Wait,
            (Incoming::Closed, doing) => doing == Doing::Close,
            _ => false,
        },
        !asks_to_speak(next) && !(next matches Incoming::Request(TtsRequest::Text { .. }))
            ==> state_after(opened(), messages.push(next)) == state_after(opened(), messages),
{
    no_text_is_lost(messages);
    assert(messages.push(next).drop_last() =~= messages);
}

/// Before it is set up a session takes nothing in and speaks nothing: whatever comes but a setup
/// is refused or passed over, and a setup is passed on.
pub proof fn nothing_is_taken_before_setup(messages: Seq<Incoming>, next: Incoming)
    ensures
        state_after(Stand::Awaiting, messages) == Stand::Awaiting,
        jobs(Stand::Awaiting, messages) == Seq::<(Seq<char>, u32)>::empty(),
        (next matches Incoming::Request(TtsRequest::Setup(_))) <==> Stand::Awaiting.action(
            next,
        ) is SetUp,
        (next matches Incoming::Request(TtsRequest::Setup(s)) ==> Stand::Awaiting.action(next)
            == Doing::SetUp(s)),
    decreases messages.len(),
{
    if messages.len() > 0 {
        nothing_is_taken_before_setup(messages.drop_last(), next);
    }
}

/// The texts that some actions speak, one after the other.
pub open spec fn spoken(actions: Seq<Action>) -> Seq<char>
    decreases actions.len(),
{
    if actions.len() == 0 {
        Seq::empty()
    } else {
        spoken(actions.drop_last()) + match actions.last() {
            Action::Speak { job: Some(job), .. } => job.text@,
            _ => Seq::empty(),
        }
    }
}

proof fn a_session_keeps_its_books(
    setup: &mut SessionState,
    messages: Seq<Incoming>,
    states: Seq<SessionState>,
    calls: Seq<&mut SessionState>,
    actions: Seq<Action>,
)
    requires
        call_ensures(SessionState::set_ready, (setup,), ()),
        *final(setup) == states[0],
        states.len() == messages.len() + 1,
        calls.len() == messages.len(),
        actions.len() == messages.len(),
        forall|i: int|
            #![trigger calls[i]]
            0 <= i < calls.len() ==> {
                &&& *calls[i] == states[i]
                &&& *final(calls[i]) == states[i + 1]
                &&& call_ensures(
                    SessionState::on_message,
                    (calls[i], messages[i]),
                    actions[i],
                )
            },
    ensures
        states.last()@ == state_after(opened(), messages),
        spoken(actions) == text_out(jobs(opened(), messages)),
    decreases messages.len(),
{
    if messages.len() > 0 {
        let n = messages.len() - 1;
        let init = messages.drop_last();
        assert(*calls[n] == states[n]);
        let less = calls.drop_last();
        assert forall|i: int| #![trigger less[i]] 0 <= i < less.len() implies {
            &&& *less[i] == states.drop_last()[i]
            &&& *final(less[i]) == states.drop_last()[i + 1]
            &&& call_ensures(
                SessionState::on_message,
                (less[i], init[i]),
                actions.drop_last()[i],
            )
        } by {
            assert(*calls[i] == states[i]);
        }
        a_session_keeps_its_books(setup, init, states.drop_last(), less, actions.drop_last());
        let before = jobs(opened(), init);
        match actions[n]@ {
            Doing::Speak { job: Some(j), reply, close } => {
                assert(before.push(j).drop_last() =~= before);
            },
            _ => {
                assert(text_out(before) + Seq::<char>::empty() =~= text_out(before));
            },
        }
    }
}

/// Over a whole session, what is spoken is what came in, from the first character to the last, in
/// order: all of it once the client asks for it, by a flush or by ending the stream.
pub proof fn a_session_speaks_what_it_is_sent(
    setup: &mut SessionState,
    messages: Seq<Incoming>,
    states: Seq<SessionState>,
    calls: Seq<&mut SessionState>,
    actions: Seq<Action>,
)
    requires
        call_ensures(SessionState::set_ready, (setup,), ()),
        *final(setup) == states[0],
        states.len() == messages.len() + 1,
        calls.len() == messages.len(),
        actions.len() == messages.len(),
        forall|i: int|
            #![trigger calls[i]]
            0 <= i < calls.len() ==> {
                &&& *calls[i] == states[i]
                &&& *final(calls[i]) == states[i + 1]
                &&& call_ensures(
                    SessionState::on_message,
                    (calls[i], messages[i]),
                    actions[i],
                )
            },
        messages.len() > 0,
        asks_to_speak(messages.last()),
    ensures
        spoken(actions) == text_in(messages),
{
    a_session_keeps_its_books(setup, messages, states, calls, actions);
    a_flush_leaves_nothing_waiting(messages);
}

} // verus!
