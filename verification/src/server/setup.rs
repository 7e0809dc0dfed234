//! Setting a session up, one outcome at a time: the output format, the audio encoder, the voice.
use super::error_codes;
use super::protocol::{self, Answer, Seconds, Setup, TtsReply};
use crate::text;
use vstd::prelude::*;
use vstd::string::*;

verus! {

/// What the server offers every connection.
#[derive(Debug)]
pub struct ServerInfo {
    pub voices: Vec<String>,
    pub default_voice: String,
    pub sample_rate: u32,
    pub frame_size: u32,
}

/// The text of an optional string, when it is there and not empty.
pub open spec fn given(s: Option<String>) -> Option<Seq<char>> {
    match s {
        Some(s) => if s@.len() > 0 {
            Some(s@)
        } else {
            None
        },
        None => None,
    }
}

/// The text of an optional string, when it is there and not empty.
fn given_text(s: &Option<String>) -> (r: Option<&str>)
    ensures
        match r {
            Some(t) => given(*s) == Some(t@),
            None => given(*s) is None,
        },
{
    match s {
        Some(s) => if s.as_str().unicode_len() > 0 {
            Some(s.as_str())
        } else {
            None
        },
        None => None,
    }
}

/// The voice a client asks for: by id, else by name, else the default, which also goes by
/// `default`.
pub open spec fn wanted_voice(setup: Setup, default_voice: Seq<char>) -> Seq<char> {
    let asked = match given(setup.voice_id) {
        Some(id) => id,
        None => match given(setup.voice) {
            Some(name) => name,
            None => default_voice,
        },
    };
    if asked == "default"@ {
        default_voice
    } else {
        asked
    }
}

/// The model name a client asked for, or the published one.
pub open spec fn shown_model(name: Seq<char>) -> Seq<char> {
    if name.len() == 0 {
        "kyutai/pocket-tts"@
    } else {
        name
    }
}

/// An error reply.
pub open spec fn refusal(code: u32, message: Seq<char>) -> Answer {
    Answer::Error { message, code }
}

/// A setup whose output format is to be parsed.
#[derive(Debug)]
pub struct FormatWanted {
    pub setup: Setup,
}

/// A setup whose audio encoder is to be made.
#[derive(Debug)]
pub struct EncoderWanted {
    pub setup: Setup,
}

/// A setup whose voice is to be primed.
#[derive(Debug)]
pub struct VoiceWanted {
    pub voice: String,
    pub model_name: String,
    /// What the encoder wants to be sent before any audio.
    pub header: Option<Vec<u8>>,
}

/// Start setting a session up. Voice embeddings sent by the client are not supported.
pub fn begin(setup: Setup) -> (r: Result<FormatWanted, TtsReply>)
    ensures
        match r {
            Ok(next) => given(setup.voice_emb) is None && next.setup == setup,
            Err(reply) => given(setup.voice_emb) is Some && reply@ == refusal(
                error_codes::NOT_IMPLEMENTED,
                "voice_emb prompts are not yet supported"@,
            ),
        },
{
    if given_text(&setup.voice_emb).is_some() {
        return Err(
            protocol::error_reply(
                error_codes::NOT_IMPLEMENTED,
                "voice_emb prompts are not yet supported".to_owned(),
            ),
        );
    }
    Ok(FormatWanted { setup })
}

impl FormatWanted {
    /// The output format to parse.
    pub fn format(&self) -> (r: &str)
        ensures
            r@ == self.setup.output_format@,
    {
        self.setup.output_format.as_str()
    }

    /// Go on once it was parsed, or refuse with what is wrong with it.
    pub fn parsed(self, outcome: Result<(), String>) -> (r: Result<EncoderWanted, TtsReply>)
        ensures
            match (outcome, r) {
                (Ok(_), Ok(next)) => next.setup == self.setup,
                (Err(why), Err(reply)) => reply@ == refusal(error_codes::BAD_REQUEST, why@),
                _ => false,
            },
    {
        match outcome {
            Ok(_) => Ok(EncoderWanted { setup: self.setup }),
            Err(why) => Err(protocol::error_reply(error_codes::BAD_REQUEST, why)),
        }
    }
}

impl EncoderWanted {
    /// Go on once the encoder was made, with what it wants to be sent first. The voice that is
    /// wanted has to be there.
    pub fn made(self, outcome: Result<Option<Vec<u8>>, String>, info: &ServerInfo) -> (r: Result<
        VoiceWanted,
        TtsReply,
    >)
        ensures
            ({
                let voice = wanted_voice(self.setup, info.default_voice@);
                match (outcome, r) {
                    (Err(why), Err(reply)) => reply@ == refusal(
                        error_codes::INTERNAL,
                        "failed to create audio encoder: "@ + why@,
                    ),
                    (Ok(_), Err(reply)) => !text::texts(info.voices@).contains(voice) && reply@
                        == refusal(error_codes::NOT_FOUND, "unknown voice '"@ + voice + "'"@),
                    (Ok(header), Ok(next)) => {
                        &&& text::texts(info.voices@).contains(voice)
                        &&& next.voice@ == voice
                        &&& next.model_name == self.setup.model_name
                        &&& next.header == header
                    },
                    (Err(_), Ok(_)) => false,
                }
            }),
    {
        let header = match outcome {
            Ok(header) => header,
            Err(why) => {
                return Err(
                    protocol::error_reply(
                        error_codes::INTERNAL,
                        text::glue2("failed to create audio encoder: ", why.as_str()),
                    ),
                );
            },
        };
        let asked = match given_text(&self.setup.voice_id) {
            Some(id) => id,
            None => match given_text(&self.setup.voice) {
                Some(name) => name,
                None => info.default_voice.as_str(),
            },
        };
        let voice = if text::same(asked, "default") {
            info.default_voice.clone()
        } else {
            asked.to_owned()
        };
        if !text::is_listed(&info.voices, voice.as_str()) {
            return Err(
                protocol::error_reply(
                    error_codes::NOT_FOUND,
                    text::glue3("unknown voice '", voice.as_str(), "'"),
                ),
            );
        }
        Ok(VoiceWanted { voice, model_name: self.setup.model_name, header })
    }
}

/// A lowercase hexadecimal digit.
pub open spec fn hex(c: char) -> bool {
    '0' <= c <= '9' || 'a' <= c <= 'f'
}

/// The form of a random (version 4) UUID: groups of 8, 4, 4, 4 and 12 lowercase hexadecimal
/// digits with hyphens between them, the third group starting with a 4.
pub open spec fn uuid_form(s: Seq<char>) -> bool {
    &&& s.len() == 36
    &&& forall|i: int|
        0 <= i < 36 ==> if i == 8 || i == 13 || i == 18 || i == 23 {
            s[i] == '-'
        } else {
            hex(#[trigger] s[i])
        }
    &&& s[14] == '4'
}

/// `uuid::Uuid::new_v4` draws a random id, and `to_string` writes it in its usual form. Which id
/// that is depends on chance.
#[verifier::external_body]
fn new_request_id() -> (r: String)
    ensures
        uuid_form(r@),
{
    uuid::Uuid::new_v4().to_string()
}

/// What a session that is ready is told.
pub open spec fn ready_answer(info: ServerInfo, model_name: Seq<char>, id: Seq<char>) -> Answer {
    Answer::Ready {
        model_name: shown_model(model_name),
        sample_rate: info.sample_rate,
        frame_size: info.frame_size,
        audio_stream_names: Seq::empty(),
        text_stream_names: Seq::empty(),
        request_id: id,
    }
}

/// What is sent of an encoder's header.
pub open spec fn header_answer(header: Seq<u8>) -> Answer {
    Answer::Audio {
        audio: protocol::base64_text(header),
        start_s: Seconds { bits: 0 },
        stop_s: Seconds { bits: 0 },
        stream_id: 0,
    }
}

/// The texts of some replies.
pub open spec fn answers(replies: Seq<TtsReply>) -> Seq<Answer> {
    Seq::new(replies.len(), |i: int| replies[i]@)
}

/// What the request `id` is told once its session is ready: that it is, and then the header of
/// its audio, if there is one.
pub fn ready_replies(next: VoiceWanted, info: &ServerInfo, id: String) -> (r: Vec<TtsReply>)
    ensures
        answers(r@) == seq![ready_answer(*info, next.model_name@, id@)] + (match next.header {
            Some(header) => seq![header_answer(header@)],
            None => Seq::empty(),
        }),
{
    let model_name = if next.model_name.as_str().unicode_len() == 0 {
        "kyutai/pocket-tts".to_owned()
    } else {
        next.model_name
    };
    let ready = TtsReply::Ready {
        model_name,
        sample_rate: info.sample_rate,
        frame_size: info.frame_size,
        audio_stream_names: Vec::new(),
        text_stream_names: Vec::new(),
        request_id: id,
    };
    assert(ready@->audio_stream_names =~= Seq::<Seq<char>>::empty());
    assert(ready@->text_stream_names =~= Seq::<Seq<char>>::empty());
    let mut r: Vec<TtsReply> = Vec::new();
    r.push(ready);
    match &next.header {
        Some(header) => {
            r.push(
                protocol::audio_reply(header, Seconds { bits: 0 }, Seconds { bits: 0 }, 0),
            );
        },
        None => {},
    }
    assert(answers(r@) =~= seq![ready@] + (match next.header {
        Some(header) => seq![header_answer(header@)],
        None => Seq::empty(),
    }));
    r
}

impl VoiceWanted {
    /// Finish once the voice was primed, with what the client is told. The request gets an id of
    /// its own, which depends on chance.
    pub fn primed(self, outcome: Result<(), String>, info: &ServerInfo) -> (r: Result<
        Vec<TtsReply>,
        TtsReply,
    >)
        ensures
            match (outcome, r) {
                (Err(why), Err(reply)) => reply@ == refusal(
                    error_codes::INTERNAL,
                    "failed to prime voice: "@ + why@,
                ),
                (Ok(_), Ok(replies)) => exists|id: Seq<char>| #[trigger]
                    uuid_form(id) && answers(replies@) == seq![
                        ready_answer(*info, self.model_name@, id),
                    ] + (match self.header {
                        Some(header) => seq![header_answer(header@)],
                        None => Seq::empty(),
                    }),
                _ => false,
            },
    {
        match outcome {
            Err(why) => Err(
                protocol::error_reply(
                    error_codes::INTERNAL,
                    text::glue2("failed to prime voice: ", why.as_str()),
                ),
            ),
            Ok(_) => {
                let id = new_request_id();
                let ghost shown = id@;
                let r = ready_replies(self, info, id);
                assert(uuid_form(shown));
                Ok(r)
            },
        }
    }
}

/// A client gets the voice that it asks for, if there is one of that name: by id before by name,
/// the default when it names neither or asks for `default`. What it gets is always a voice of the
/// server, and a voice that is not there is refused as not found.
pub proof fn clients_get_the_voice_they_ask_for(
    wanted: EncoderWanted,
    header: Option<Vec<u8>>,
    info: ServerInfo,
    r: Result<VoiceWanted, TtsReply>,
)
    requires
        call_ensures(
            EncoderWanted::made,
            (wanted, Ok::<Option<Vec<u8>>, String>(header), &info),
            r,
        ),
    ensures
        r matches Ok(next) ==> text::texts(info.voices@).contains(next.voice@),
        r matches Ok(next) ==> next.header == header && next.model_name == wanted.setup.model_name,
        ({
            let by_id = wanted.setup.voice_id matches Some(id) && id@.len() > 0;
            let by_name = wanted.setup.voice matches Some(name) && name@.len() > 0;
            let asked = if by_id {
                wanted.setup.voice_id->0@
            } else {
                wanted.setup.voice->0@
            };
            let named = (by_id || by_name) && asked != "default"@;
            match r {
                Ok(next) => next.voice@ == if named {
                    asked
                } else {
                    info.default_voice@
                },
                Err(_) => !text::texts(info.voices@).contains(
                    if named {
                        asked
                    } else {
                        info.default_voice@
                    },
                ),
            }
        }),
        r matches Err(reply) ==> reply@ matches Answer::Error { message, code } && code
            == error_codes::NOT_FOUND,
{
}

/// A client that is set up is told so under its own id, and decodes the header of its audio from
/// what it is sent next.
pub proof fn a_ready_client_gets_its_header(
    next: VoiceWanted,
    info: ServerInfo,
    id: String,
    replies: Vec<TtsReply>,
)
    requires
        call_ensures(ready_replies, (next, &info, id), replies),
    ensures
        replies@.len() == if next.header is Some {
            2nat
        } else {
            1
        },
        replies@[0]@ matches Answer::Ready { request_id, sample_rate, frame_size, .. } && request_id
            == id@ && sample_rate == info.sample_rate && frame_size == info.frame_size,
        next.header matches Some(header) ==> (replies@[1]@ matches Answer::Audio { audio, .. }
            && protocol::base64_bytes(audio) == header@),
{
    let said = answers(replies@);
    assert(said == seq![ready_answer(info, next.model_name@, id@)] + (match next.header {
        Some(header) => seq![header_answer(header@)],
        None => Seq::empty(),
    }));
    assert(said.len() == replies@.len());
    assert(said[0] == replies@[0]@);
    if let Some(header) = next.header {
        assert(said[1] == replies@[1]@);
        protocol::audio_survives_the_text(header@);
    }
}

} // verus!
