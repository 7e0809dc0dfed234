use ptts::error::Error;
use ptts::plan::FrameRate;
use ptts::synth::session::{plan_chunk, ChunkPlan, Prepared};
use ptts::synth::stream::{Backbone, Batch, Frame, Outcome, Received, SpeechStream, Todo};

fn chunk(tokens: usize, frames_after_eos: usize) -> ChunkPlan {
    let rate = FrameRate { num: 1, den: 1 };
    plan_chunk(Prepared { tokens: vec![7; tokens], frames_after_eos }, rate)
}

#[derive(Debug, PartialEq)]
enum Message {
    Latent(usize, usize),
    End,
}

/// Run the loop to its end, with a model that says EOS at these frames.
fn run(chunks: Vec<ChunkPlan>, eos: &[Option<usize>]) -> Vec<Message> {
    let mut loop_ = Backbone::new(chunks);
    let mut sent = Vec::new();
    let mut frame = 0;
    loop {
        match loop_.todo() {
            Todo::Prompt { chunk } => {
                assert!(!loop_.tokens(chunk).is_empty());
                frame = 0;
                loop_.record(Outcome::Finished);
            }
            Todo::Step { chunk, first } => {
                assert_eq!(first, frame == 0);
                sent.push(Message::Latent(chunk, frame));
                loop_.record(Outcome::Frame { is_eos: eos[chunk] == Some(frame) });
                frame += 1;
            }
            Todo::EndChunk => {
                sent.push(Message::End);
                loop_.record(Outcome::Finished);
            }
            Todo::Done => return sent,
        }
    }
}

#[test]
fn every_chunk_is_sent_completely() {
    // Three tokens are worth three frames here, six are worth four.
    let chunks = || vec![chunk(3, 1), chunk(6, 0), chunk(6, 3)];
    let latents = |c, n| (0..n).map(move |f| Message::Latent(c, f));
    let mut expected: Vec<Message> = latents(0, 3).collect();
    expected.push(Message::End);
    expected.extend(latents(1, 4));
    expected.push(Message::End);
    expected.extend(latents(2, 4));
    expected.push(Message::End);
    assert_eq!(run(chunks(), &[None, None, None]), expected);

    // EOS on the first frame: the frame, its tail, and no more than the budget.
    let mut expected: Vec<Message> = latents(0, 2).collect();
    expected.push(Message::End);
    expected.extend(latents(1, 1));
    expected.push(Message::End);
    expected.extend(latents(2, 4));
    expected.push(Message::End);
    assert_eq!(run(chunks(), &[Some(0), Some(0), Some(0)]), expected);
    assert!(run(vec![], &[]).is_empty());
}

#[test]
fn a_closed_channel_ends_the_loop() {
    for outcome in [Outcome::Closed, Outcome::Failed] {
        let mut loop_ = Backbone::new(vec![chunk(3, 1), chunk(3, 1)]);
        loop_.record(Outcome::Finished);
        assert_eq!(loop_.todo(), Todo::Step { chunk: 0, first: true });
        loop_.record(outcome);
        assert_eq!(loop_.todo(), Todo::Done);
    }
    // A chunk without a budget goes straight to its end.
    let mut empty = Backbone::new(vec![ChunkPlan {
        tokens: vec![1],
        frame_budget: 0,
        frames_after_eos: 1,
        seq_budget: 1,
    }]);
    empty.record(Outcome::Finished);
    assert_eq!(empty.todo(), Todo::EndChunk);
}

/// Decode messages in batches: at each batch, as many as `waiting` gives are there.
fn decode(messages: Vec<Frame<u32>>, waiting: &[usize]) -> (Vec<(u32, bool)>, usize) {
    let mut queue = messages.into_iter();
    let mut heard = Vec::new();
    let mut calls = 0;
    let mut afresh = true;
    let mut turn = 0;
    while let Some(frame) = queue.next() {
        let mut batch = match Batch::start(frame) {
            None => {
                afresh = true;
                continue;
            }
            Some(batch) => batch,
        };
        let mut left = waiting[turn % waiting.len()];
        turn += 1;
        while left > 0 {
            match queue.next() {
                None => break,
                Some(frame) => {
                    if !batch.offer(frame) {
                        break;
                    }
                }
            }
            left -= 1;
        }
        calls += 1;
        for (i, t) in batch.latents.iter().enumerate() {
            heard.push((*t, afresh && i == 0));
        }
        afresh = batch.reset_after;
    }
    (heard, calls)
}

#[test]
fn batching_decodes_what_one_at_a_time_would() {
    let messages = || {
        vec![
            Frame::Latent(1),
            Frame::Latent(2),
            Frame::ChunkEnd,
            Frame::ChunkEnd,
            Frame::Latent(3),
            Frame::Latent(4),
            Frame::Latent(5),
            Frame::ChunkEnd,
            Frame::Latent(6),
        ]
    };
    let (one_by_one, calls) = decode(messages(), &[0]);
    assert_eq!(calls, 6);
    assert_eq!(
        one_by_one,
        [(1, true), (2, false), (3, true), (4, false), (5, false), (6, true)]
    );
    for waiting in [&[1][..], &[2], &[100], &[0, 3], &[5, 1, 0]] {
        assert_eq!(decode(messages(), waiting).0, one_by_one);
    }
    assert_eq!(decode(messages(), &[100]).1, 3);
}

#[test]
fn an_error_ends_the_stream() {
    let mut s = SpeechStream::new(24000);
    assert_eq!(s.sample_rate(), 24000);
    assert!(matches!(s.next(Received::Pcm(vec![1u8])), Some(Ok(p)) if p == [1]));
    assert!(!s.is_over());
    let e = Error::Busy("later".to_string());
    assert!(matches!(s.next::<u8>(Received::Failed(e)), Some(Err(Error::Busy(_)))));
    assert!(s.is_over());
    assert!(s.next(Received::Pcm(2u8)).is_none());

    let mut s = SpeechStream::new(24000);
    assert!(s.next::<u8>(Received::Closed { died: false }).is_none());
    assert!(s.is_over());

    let mut s = SpeechStream::new(24000);
    match s.next::<u8>(Received::Closed { died: true }) {
        Some(Err(e)) => {
            assert_eq!(e.message(), "a generation worker panicked; the audio is incomplete");
            assert!(matches!(e, Error::Tensor(_)));
        }
        _ => panic!("a dead worker has to surface"),
    }
    assert!(s.next::<u8>(Received::Closed { died: true }).is_none());
}
