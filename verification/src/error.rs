//! The error type the API layer returns.
//!
//! The variants are failure *classes*, not one per message: a binding turns a failure into the
//! right kind of exception by matching the enum once. Two of them carry fields, because a caller
//! does something with them: [`Error::UnknownVoice`] hands back the names that would have
//! worked, and [`Error::SeqBudgetExceeded`] hands back the budget the text needs.
use crate::text;
use vstd::prelude::*;
use vstd::string::*;

verus! {

/// `std::io::ErrorKind`, carried through as the class of an I/O failure.
#[verifier::external_type_specification]
#[verifier::external_body]
pub struct ExErrorKind(std::io::ErrorKind);

/// A result over [`Error`].
pub type Result<T> = std::result::Result<T, Error>;

/// What a tensor-layer failure is made of, from the outside in.
#[derive(Debug)]
pub enum Cause {
    /// An I/O failure of this kind.
    Io(std::io::ErrorKind),
    /// Another failure, with a path, a context or a backtrace added around it.
    Wrapped(Box<Cause>),
    /// Any other failure.
    Other,
}

/// A failure from the tensor layer: its whole rendering, and what it is made of.
#[derive(Debug)]
pub struct TensorError {
    pub text: String,
    pub cause: Cause,
}

/// Everything the API layer can fail with.
///
/// Variants get added as the API grows, so always leave a `_` arm.
#[derive(Debug)]
#[non_exhaustive]
pub enum Error {
    /// A voice was named that is not registered. `known` is what would have worked.
    UnknownVoice { name: String, known: Vec<String> },
    /// More KV slots were needed than the session was primed with. A session built with
    /// `needed` fits this text; a longer text needs more.
    SeqBudgetExceeded { needed: usize, budget: usize },
    /// The voice prompt alone does not fit the session's KV budget, before any text is
    /// considered. `frames + 1` is the floor a budget has to clear, not a value that will work.
    VoicePromptTooLong { frames: usize, budget: usize },
    /// The caller passed something this call cannot accept.
    InvalidArgument(String),
    /// Something named does not exist: a checkpoint, or a file inside one.
    NotFound(String),
    /// Well formed, but this build or this checkpoint cannot serve it.
    Unsupported(String),
    /// A file was found and is not what it claims to be.
    InvalidData(String),
    /// The resource is in use and the call would corrupt it. Retrying later works.
    Busy(String),
    /// A file could not be read or written.
    Io { kind: std::io::ErrorKind, text: String },
    /// A failure from the tensor layer, or from anything below the API layer that reports
    /// through it, a panicked generation worker among them.
    Tensor(TensorError),
}

/// An [`Error`] with its texts as character sequences: what contracts compare.
pub enum Failure {
    UnknownVoice { name: Seq<char>, known: Seq<Seq<char>> },
    SeqBudgetExceeded { needed: usize, budget: usize },
    VoicePromptTooLong { frames: usize, budget: usize },
    InvalidArgument(Seq<char>),
    NotFound(Seq<char>),
    Unsupported(Seq<char>),
    InvalidData(Seq<char>),
    Busy(Seq<char>),
    Io { kind: std::io::ErrorKind, text: Seq<char> },
    Tensor { text: Seq<char>, cause: Cause },
}

impl View for Error {
    type V = Failure;

    open spec fn view(&self) -> Failure {
        match *self {
            Error::UnknownVoice { name, known } => Failure::UnknownVoice {
                name: name@,
                known: text::texts(known@),
            },
            Error::SeqBudgetExceeded { needed, budget } => Failure::SeqBudgetExceeded {
                needed,
                budget,
            },
            Error::VoicePromptTooLong { frames, budget } => Failure::VoicePromptTooLong {
                frames,
                budget,
            },
            Error::InvalidArgument(m) => Failure::InvalidArgument(m@),
            Error::NotFound(m) => Failure::NotFound(m@),
            Error::Unsupported(m) => Failure::Unsupported(m@),
            Error::InvalidData(m) => Failure::InvalidData(m@),
            Error::Busy(m) => Failure::Busy(m@),
            Error::Io { kind, text } => Failure::Io { kind, text: text@ },
            Error::Tensor(e) => Failure::Tensor { text: e.text@, cause: e.cause },
        }
    }
}

impl Failure {
    /// The message a failure is shown with.
    pub open spec fn message(self) -> Seq<char> {
        match self {
            Failure::UnknownVoice { name, known } => "no voice '"@ + name
                + "' is registered; this model has "@ + text::joined(known, ", "@),
            Failure::SeqBudgetExceeded { needed, budget } => "needs a KV budget of "@
                + text::decimal(needed as nat) + " but the session was primed with "@
                + text::decimal(budget as nat)
                + "; build the session with a larger max_seq_len, or split the text"@,
            Failure::VoicePromptTooLong { frames, budget } => "the voice prompt alone is "@
                + text::decimal(frames as nat) + " frames, which does not fit a KV budget of "@
                + text::decimal(budget as nat)
                + "; build the session with a larger max_seq_len, or use a shorter voice prompt"@,
            Failure::InvalidArgument(m) => m,
            Failure::NotFound(m) => m,
            Failure::Unsupported(m) => m,
            Failure::InvalidData(m) => m,
            Failure::Busy(m) => m,
            Failure::Io { kind, text } => text,
            Failure::Tensor { text, cause } => text,
        }
    }
}

impl Cause {
    /// The kind of the I/O failure at the centre, if there is one.
    pub open spec fn io(self) -> Option<std::io::ErrorKind>
        decreases self,
    {
        match self {
            Cause::Io(kind) => Some(kind),
            Cause::Wrapped(inner) => inner.io(),
            Cause::Other => None,
        }
    }
}

/// The class a tensor-layer failure gets: an I/O failure is one wherever it was caught, and
/// keeps the whole rendering, which is where the path is.
pub open spec fn classified(text: Seq<char>, cause: Cause) -> Failure {
    match cause.io() {
        Some(kind) => Failure::Io { kind, text },
        None => Failure::Tensor { text, cause },
    }
}

/// What a failure becomes in the tensor layer: the passthrough classes cross whole, any other
/// keeps only its message.
pub open spec fn flattened(f: Failure) -> (Seq<char>, Cause) {
    match f {
        Failure::Tensor { text, cause } => (text, cause),
        Failure::Io { kind, text } => (text, Cause::Io(kind)),
        _ => (f.message(), Cause::Other),
    }
}

/// The kind of the I/O failure at the centre of `e`, if there is one.
///
/// The tensor layer nests: a failed open normally arrives inside a path, and may be inside a
/// context or a backtrace too.
fn io_kind(e: &Cause) -> (r: Option<std::io::ErrorKind>)
    ensures
        r == e.io(),
    decreases e,
{
    match e {
        Cause::Io(kind) => Some(*kind),
        Cause::Wrapped(inner) => io_kind(inner),
        Cause::Other => None,
    }
}

impl TensorError {
    /// A failure that is only a message.
    pub fn msg(text: &str) -> (r: TensorError)
        ensures
            r.text@ == text@,
            r.cause == Cause::Other,
    {
        TensorError { text: text.to_owned(), cause: Cause::Other }
    }
}

impl From<TensorError> for Error {
    fn from(e: TensorError) -> (r: Error) {
        match io_kind(&e.cause) {
            Some(kind) => Error::Io { kind, text: e.text },
            None => Error::Tensor(e),
        }
    }
}

impl vstd::std_specs::convert::FromSpecImpl<TensorError> for Error {
    open spec fn obeys_from_spec() -> bool {
        true
    }

    open spec fn from_spec(e: TensorError) -> Error {
        match e.cause.io() {
            Some(kind) => Error::Io { kind, text: e.text },
            None => Error::Tensor(e),
        }
    }
}

impl Error {
    /// The message this failure is shown with.
    pub fn message(&self) -> (r: String)
        ensures
            r@ == self@.message(),
    {
        match self {
            Error::UnknownVoice { name, known } => {
                let mut r = text::glue3(
                    "no voice '",
                    name.as_str(),
                    "' is registered; this model has ",
                );
                r.append(text::join(known, ", ").as_str());
                r
            },
            Error::SeqBudgetExceeded { needed, budget } => {
                let mut r = text::glue3(
                    "needs a KV budget of ",
                    text::decimal_of(*needed as u64).as_str(),
                    " but the session was primed with ",
                );
                r.append(text::decimal_of(*budget as u64).as_str());
                r.append("; build the session with a larger max_seq_len, or split the text");
                r
            },
            Error::VoicePromptTooLong { frames, budget } => {
                let mut r = text::glue3(
                    "the voice prompt alone is ",
                    text::decimal_of(*frames as u64).as_str(),
                    " frames, which does not fit a KV budget of ",
                );
                r.append(text::decimal_of(*budget as u64).as_str());
                r.append(
                    "; build the session with a larger max_seq_len, or use a shorter voice prompt",
                );
                r
            },
            Error::InvalidArgument(m) => m.clone(),
            Error::NotFound(m) => m.clone(),
            Error::Unsupported(m) => m.clone(),
            Error::InvalidData(m) => m.clone(),
            Error::Busy(m) => m.clone(),
            Error::Io { kind: _, text } => text.clone(),
            Error::Tensor(e) => e.text.clone(),
        }
    }

    /// This failure as the tensor layer reports it.
    ///
    /// A classified variant flattens to its message, so this direction loses the class. The
    /// passthrough variants cross whole.
    pub fn into_tensor(self) -> (r: TensorError)
        ensures
            (r.text@, r.cause) == flattened(self@),
    {
        match self {
            Error::Tensor(e) => e,
            Error::Io { kind, text } => TensorError { text, cause: Cause::Io(kind) },
            other => TensorError { text: other.message(), cause: Cause::Other },
        }
    }
}

/// Classifying a tensor-layer failure keeps its rendering and files it by what is at its
/// centre.
pub proof fn classifying_follows_the_centre(e: TensorError)
    ensures
        <Error as vstd::std_specs::convert::FromSpec<TensorError>>::from_spec(e)@ == classified(
            e.text@,
            e.cause,
        ),
        classified(e.text@, e.cause).message() == e.text@,
{
}

/// Adding wrappers around a failure never changes the class it gets.
pub proof fn wrapping_keeps_the_class(text: Seq<char>, cause: Cause)
    ensures
        classified(text, cause) is Io <==> classified(text, Cause::Wrapped(Box::new(cause))) is Io,
        cause.io() == Cause::Wrapped(Box::new(cause)).io(),
{
}

/// A passthrough failure survives the trip to the tensor layer and back, and no failure loses
/// its message on it.
pub proof fn passthrough_survives_the_round_trip(f: Failure)
    requires
        f matches Failure::Tensor { text, cause } ==> cause.io() is None,
    ensures
        f is Tensor || f is Io ==> classified(flattened(f).0, flattened(f).1) == f,
        classified(flattened(f).0, flattened(f).1).message() == f.message(),
{
}

} // verus!
