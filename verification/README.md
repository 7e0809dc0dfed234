# ptts

Pocket TTS: text to speech on device, with everything that decides verified by Verus.

Text is normalized and split into chunks, a flow-matching language model turns each chunk into
codec frames, and a decoder turns those into audio as they come. The tensors are the model's. What
surrounds them is this library: text rules, budgets, the end-of-speech policy, voices and their
primed prefixes, the order of frames between the two workers of a generation, the websocket
protocol, and what a checkpoint's files hold.

## Layout

| Place | Role |
| --- | --- |
| `src/text.rs` | Texts as sequences of characters, and what is computed on them. |
| `src/preprocess.rs`, `src/preprocess/` | Per-language normalization, and words rewritten. |
| `src/plan.rs` | Frame and KV budgets, the tail behind the end of speech. |
| `src/synth.rs`, `src/synth/` | Devices, options, voices, sessions, a generation in progress. |
| `src/loader.rs`, `src/audio.rs` | What weights, voice files and audio files hold. |
| `src/conditioners.rs`, `src/flow_lm.rs` | The shapes and steps of the language model. |
| `src/asr.rs`, `src/asr_quantizer.rs` | The speech recognizer that checks what was said. |
| `src/server.rs`, `src/server/` | The websocket server: protocol, session, setup, launch. |
| `src/browser.rs`, `src/web.rs`, `src/bindings.rs` | The browser builds and language bindings. |
| `src/error.rs` | What can fail. |
| `tests/` | Concrete inputs and outputs, with the outside crates linked. |
| `app/` | Threads, files, the Hub, tensors and the websocket, around the library. |

## Conventions

- A contract speaks of views: texts as `Seq<char>`, errors as `Failure`, replies as `Answer`.
- A number that is a float at run time is carried as its bits, with its text where a message shows
  it. A frame rate is a fraction.
- A loop that waits for something else (a thread, a socket, a device) is a state machine here. The
  code in `app/` performs what it asks for and reports what came of it.
- What the library believes of another crate without proof stands beside the call, in the doc
  comment of the item that makes it.
