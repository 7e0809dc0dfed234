use ptts::error::{Cause, Error, TensorError};
use std::io::ErrorKind;

/// What the library sees of a tensor-layer failure.
fn seen(e: &xn::Error) -> TensorError {
    TensorError { text: e.to_string(), cause: cause(e) }
}

fn cause(e: &xn::Error) -> Cause {
    match e {
        xn::Error::Io(io) => Cause::Io(io.kind()),
        xn::Error::WithPath { inner, .. }
        | xn::Error::Context { inner, .. }
        | xn::Error::WithBacktrace { inner, .. } => Cause::Wrapped(Box::new(cause(inner))),
        _ => Cause::Other,
    }
}

#[test]
fn the_passthrough_variants_survive_the_round_trip_to_xn() {
    // A tensor error must not pick up a layer of message wrapping on the way through.
    let there = Error::Tensor(seen(&xn::Error::msg("device out of memory"))).into_tensor();
    assert_eq!(there.text.lines().next(), Some("device out of memory"));
    assert!(matches!(Error::from(there), Error::Tensor(_)));

    let io = Error::Io { kind: ErrorKind::NotFound, text: "no such file".to_string() };
    assert!(matches!(io.into_tensor().cause, Cause::Io(ErrorKind::NotFound)));
}

#[test]
fn an_io_failure_gets_one_class_whichever_layer_caught_it() {
    let bare = std::io::Error::new(ErrorKind::NotFound, "no such file");
    assert!(matches!(Error::from(seen(&xn::Error::Io(bare))), Error::Io { .. }));

    // And through the wrappers that are actually used -- a failed open arrives inside a path.
    let nested = xn::Error::Io(std::io::Error::new(ErrorKind::NotFound, "nope"))
        .with_path("/some/voice.safetensors");
    let converted = Error::from(seen(&nested));
    assert!(matches!(converted, Error::Io { .. }), "{converted:?}");
    // The path lives in the wrapper, so it has to survive the conversion.
    assert!(converted.message().contains("voice.safetensors"), "{converted:?}");

    // Anything else from that layer is still a tensor failure.
    assert!(matches!(
        Error::from(seen(&xn::Error::msg("shape mismatch"))),
        Error::Tensor(_)
    ));
}

#[test]
fn a_classified_error_keeps_its_message_when_flattened() {
    let e = Error::UnknownVoice {
        name: "nobody".into(),
        known: vec!["alba".into(), "marius".into()],
    };
    let msg = e.into_tensor().text;
    assert!(msg.contains("nobody"), "{msg}");
    assert!(msg.contains("alba, marius"), "{msg}");
}

#[test]
fn unknown_voice_hands_back_the_names_that_would_have_worked() {
    let e = Error::UnknownVoice { name: "nobody".into(), known: vec!["alba".into()] };
    match &e {
        Error::UnknownVoice { known, .. } => assert_eq!(known, &["alba"]),
        _ => panic!("{e:?}"),
    }
}

#[test]
fn messages_are_spelled_out() {
    let text = |s: &str| s.to_string();
    let cases = [
        (
            Error::UnknownVoice { name: text("x"), known: vec![text("a"), text("b")] },
            "no voice 'x' is registered; this model has a, b",
        ),
        (
            Error::SeqBudgetExceeded { needed: 796, budget: 512 },
            "needs a KV budget of 796 but the session was primed with 512; build the session with \
             a larger max_seq_len, or split the text",
        ),
        (
            Error::VoicePromptTooLong { frames: 125, budget: 100 },
            "the voice prompt alone is 125 frames, which does not fit a KV budget of 100; build \
             the session with a larger max_seq_len, or use a shorter voice prompt",
        ),
        (Error::InvalidArgument(text("arg")), "arg"),
        (Error::NotFound(text("gone")), "gone"),
        (Error::Unsupported(text("no")), "no"),
        (Error::InvalidData(text("bad")), "bad"),
        (Error::Busy(text("later")), "later"),
        (Error::Io { kind: ErrorKind::Other, text: text("io") }, "io"),
        (Error::Tensor(TensorError::msg("shape")), "shape"),
    ];
    for (e, expected) in cases {
        assert_eq!(e.message(), expected);
    }
}

#[test]
fn wrappers_never_change_the_class() {
    let deep = Cause::Wrapped(Box::new(Cause::Wrapped(Box::new(Cause::Io(
        ErrorKind::PermissionDenied,
    )))));
    let e = Error::from(TensorError { text: "a\nb".to_string(), cause: deep });
    assert!(matches!(e, Error::Io { kind: ErrorKind::PermissionDenied, .. }), "{e:?}");
    assert_eq!(e.message(), "a\nb");
    let other = Cause::Wrapped(Box::new(Cause::Other));
    let e = Error::from(TensorError { text: "c".to_string(), cause: other });
    assert!(matches!(e, Error::Tensor(_)), "{e:?}");
}
