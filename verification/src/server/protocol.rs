//! What client and server say to each other.
use super::error_codes;
use crate::text;
use vstd::prelude::*;
use vstd::string::*;

verus! {

/// An error on its own.
#[derive(Debug)]
pub enum ErrorMsg {
    Error { message: String },
}

/// How a client wants its session set up.
#[derive(Debug)]
pub struct Setup {
    pub json_config: String,
    pub model_name: String,
    pub output_format: String,
    pub voice: Option<String>,
    pub voice_id: Option<String>,
    pub voice_emb: Option<String>,
}

/// What a client asks for.
#[derive(Debug)]
pub enum TtsRequest {
    Setup(Setup),
    Text { text: String },
    Flush { flush_id: u64 },
    EndOfStream,
}

/// A time in seconds: the bits of a double-precision number.
#[derive(Clone, Copy, Debug, PartialEq, Eq, Structural)]
pub struct Seconds {
    pub bits: u64,
}

/// What the server answers.
#[derive(Debug)]
pub enum TtsReply {
    Text { text: String, start_s: Seconds, stop_s: Seconds, stream_id: u32 },
    Ready {
        model_name: String,
        sample_rate: u32,
        frame_size: u32,
        audio_stream_names: Vec<String>,
        text_stream_names: Vec<String>,
        request_id: String,
    },
    Audio { audio: String, start_s: Seconds, stop_s: Seconds, stream_id: u32 },
    Error { message: String, code: u32 },
    Stats { json_stats: String },
    EndOfStream,
    Flushed { flush_id: u64 },
}

/// A reply with its texts as character sequences.
pub enum Answer {
    Text { text: Seq<char>, start_s: Seconds, stop_s: Seconds, stream_id: u32 },
    Ready {
        model_name: Seq<char>,
        sample_rate: u32,
        frame_size: u32,
        audio_stream_names: Seq<Seq<char>>,
        text_stream_names: Seq<Seq<char>>,
        request_id: Seq<char>,
    },
    Audio { audio: Seq<char>, start_s: Seconds, stop_s: Seconds, stream_id: u32 },
    Error { message: Seq<char>, code: u32 },
    Stats { json_stats: Seq<char> },
    EndOfStream,
    Flushed { flush_id: u64 },
}

impl View for TtsReply {
    type V = Answer;

    open spec fn view(&self) -> Answer {
        match *self {
            TtsReply::Text { text, start_s, stop_s, stream_id } => Answer::Text {
                text: text@,
                start_s,
                stop_s,
                stream_id,
            },
            TtsReply::Ready {
                model_name,
                sample_rate,
                frame_size,
                audio_stream_names,
                text_stream_names,
                request_id,
            } => Answer::Ready {
                model_name: model_name@,
                sample_rate,
                frame_size,
                audio_stream_names: text::texts(audio_stream_names@),
                text_stream_names: text::texts(text_stream_names@),
                request_id: request_id@,
            },
            TtsReply::Audio { audio, start_s, stop_s, stream_id } => Answer::Audio {
                audio: audio@,
                start_s,
                stop_s,
                stream_id,
            },
            TtsReply::Error { message, code } => Answer::Error { message: message@, code },
            TtsReply::Stats { json_stats } => Answer::Stats { json_stats: json_stats@ },
            TtsReply::EndOfStream => Answer::EndOfStream,
            TtsReply::Flushed { flush_id } => Answer::Flushed { flush_id },
        }
    }
}

/// An error reply.
pub fn error_reply(code: u32, message: String) -> (r: TtsReply)
    ensures
        r@ == (Answer::Error { message: message@, code }),
{
    TtsReply::Error { message, code }
}

/// The character of the standard base64 alphabet for six bits.
pub open spec fn base64_char(n: int) -> char {
    if n < 26 {
        (65 + n) as char
    } else if n < 52 {
        (71 + n) as char
    } else if n < 62 {
        (n - 4) as char
    } else if n == 62 {
        '+'
    } else {
        '/'
    }
}

/// Bytes in standard base64: four characters for every three bytes, with `=` in place of those
/// that the last one or two bytes do not reach.
pub open spec fn base64_text(b: Seq<u8>) -> Seq<char>
    decreases b.len(),
{
    if b.len() == 0 {
        Seq::empty()
    } else {
        let x = b[0] as int;
        let y = if b.len() > 1 {
            b[1] as int
        } else {
            0
        };
        let z = if b.len() > 2 {
            b[2] as int
        } else {
            0
        };
        let third = if b.len() > 1 {
            base64_char(y % 16 * 4 + z / 64)
        } else {
            '='
        };
        let fourth = if b.len() > 2 {
            base64_char(z % 64)
        } else {
            '='
        };
        let four = seq![base64_char(x / 4), base64_char(x % 4 * 16 + y / 16), third, fourth];
        four + base64_text(b.skip(if b.len() >= 3 { 3 } else { b.len() as int }))
    }
}

/// `base64::engine::general_purpose::STANDARD` encodes with the standard alphabet and padding.
#[verifier::external_body]
fn base64_of(data: &[u8]) -> (r: String)
    ensures
        r@ == base64_text(data@),
{
    base64::Engine::encode(&base64::engine::general_purpose::STANDARD, data)
}

/// A piece of audio as it is sent.
pub fn audio_reply(data: &[u8], start_s: Seconds, stop_s: Seconds, stream_id: u32) -> (r: TtsReply)
    ensures
        r@ == (Answer::Audio { audio: base64_text(data@), start_s, stop_s, stream_id }),
{
    TtsReply::Audio { audio: base64_of(data), start_s, stop_s, stream_id }
}

/// The six bits that a character of the alphabet stands for.
pub open spec fn base64_bits(c: char) -> int {
    let n = c as int;
    if 65 <= n <= 90 {
        n - 65
    } else if 97 <= n <= 122 {
        n - 71
    } else if 48 <= n <= 57 {
        n + 4
    } else if c == '+' {
        62
    } else {
        63
    }
}

/// The bytes that a base64 text stands for.
pub open spec fn base64_bytes(s: Seq<char>) -> Seq<u8>
    decreases s.len(),
{
    if s.len() < 4 {
        Seq::empty()
    } else {
        let a = base64_bits(s[0]);
        let b = base64_bits(s[1]);
        let first = seq![(a * 4 + b / 16) as u8];
        let rest = base64_bytes(s.skip(4));
        if s[2] == '=' {
            first + rest
        } else {
            let c = base64_bits(s[2]);
            let two = first.push((b % 16 * 16 + c / 4) as u8);
            if s[3] == '=' {
                two + rest
            } else {
                two.push((c % 4 * 64 + base64_bits(s[3])) as u8) + rest
            }
        }
    }
}

/// A character of the alphabet stands for the bits it was written for, and is never the padding.
proof fn chars_give_back_bits(n: int)
    requires
        0 <= n < 64,
    ensures
        base64_bits(base64_char(n)) == n,
        base64_char(n) != '=',
{
}

/// A client that decodes the text of an audio reply gets back the bytes that were sent.
pub proof fn audio_survives_the_text(b: Seq<u8>)
    ensures
        base64_bytes(base64_text(b)) == b,
    decreases b.len(),
{
    if b.len() > 0 {
        let step = if b.len() >= 3 {
            3
        } else {
            b.len() as int
        };
        let rest = b.skip(step);
        audio_survives_the_text(rest);
        let x = b[0] as int;
        let y = if b.len() > 1 {
            b[1] as int
        } else {
            0
        };
        let z = if b.len() > 2 {
            b[2] as int
        } else {
            0
        };
        chars_give_back_bits(x / 4);
        chars_give_back_bits(x % 4 * 16 + y / 16);
        chars_give_back_bits(y % 16 * 4 + z / 64);
        chars_give_back_bits(z % 64);
        let s = base64_text(b);
        assert(s.skip(4) =~= base64_text(rest));
        assert(s[0] == base64_char(x / 4));
        assert(s[1] == base64_char(x % 4 * 16 + y / 16));
        assert(b =~= b.take(step) + rest);
        if b.len() == 1 {
            assert(rest =~= Seq::<u8>::empty());
            assert(base64_bytes(s) =~= b);
        } else if b.len() == 2 {
            assert(rest =~= Seq::<u8>::empty());
            assert(base64_bytes(s) =~= b);
        } else {
            assert(base64_bytes(s) =~= seq![b[0], b[1], b[2]] + rest);
            assert(b =~= seq![b[0], b[1], b[2]] + rest);
        }
    }
}

/// What a failed generation is answered with.
pub fn generation_failed(why: &str) -> (r: TtsReply)
    ensures
        r@ == (Answer::Error { message: "generation failed: "@ + why@, code: error_codes::INTERNAL }),
{
    error_reply(error_codes::INTERNAL, text::glue2("generation failed: ", why))
}

/// What follows the audio of a stream: its timings, written as JSON, or why the generation
/// failed.
pub fn finished_reply(outcome: Result<String, String>) -> (r: TtsReply)
    ensures
        r@ == (match outcome {
            Ok(json_stats) => Answer::Stats { json_stats: json_stats@ },
            Err(why) => Answer::Error {
                message: "generation failed: "@ + why@,
                code: error_codes::INTERNAL,
            },
        }),
{
    match outcome {
        Ok(json_stats) => TtsReply::Stats { json_stats },
        Err(why) => generation_failed(why.as_str()),
    }
}

/// A piece of audio arrives as it was sent: a client that decodes the reply gets the bytes, at the
/// times and in the stream that they belong to.
pub proof fn audio_arrives_as_it_was_sent(
    data: &[u8],
    start_s: Seconds,
    stop_s: Seconds,
    stream_id: u32,
    reply: TtsReply,
)
    requires
        call_ensures(audio_reply, (data, start_s, stop_s, stream_id), reply),
    ensures
        reply@ matches Answer::Audio { audio, start_s: from, stop_s: to, stream_id: id }
            && base64_bytes(audio) == data@ && from == start_s && to == stop_s && id == stream_id,
{
    audio_survives_the_text(data@);
}

} // verus!
