# ds4

A single-model inference engine for DeepSeek V4 Flash. The library reads GGUF
model files, unpacks quantised blocks, keeps caches and sessions, saves and
loads them, and drives decoding; its behaviour is stated in contracts and proved
with Verus. The program around it does the floating-point arithmetic, the files
and the terminal.

## Layout

| Path | What it holds |
|------|---------------|
| `src/gguf.rs`, `src/config.rs` | The model file format, and the model's hyper-parameters. |
| `src/quant/` | Block formats: unpacking, and integer dot products with packed activations. |
| `src/tensor.rs`, `src/ops/` | Shapes, and matrices over the bytes of a file. |
| `src/model/` | Weights, layers, caches, compressed rows, the saved-session format, and the decisions of a forward pass. |
| `src/session.rs`, `src/mtp.rs`, `src/speculative.rs` | Sessions, the draft model's state, and speculative decoding. |
| `src/cli.rs`, `src/utf8.rs`, `src/text.rs` | Commands, byte streams as text, and messages. |
| `src/float.rs`, `src/bits.rs`, `src/le.rs` | Numbers as bit patterns, their order, and their bytes. |
| `app/` | The program: arguments, files, arithmetic, and the loops that run a session. |
| `tests/` | Tests of the library. |

## How numbers are handled

The library never computes with floating-point numbers. It carries them as bit
patterns, converts half and double precision to single by rule, compares them,
and picks the best of them. Sums and products of scales are left to the caller:
a dot product comes back as its scales and an exact integer sum. Where a message
names such a number, the caller says how it is written.

## How evaluation is driven

An operation that evaluates tokens returns a `Run` (or, for speculative
decoding, a `Speculation`). While it waits, the caller evaluates the waiting
token and hands the outcome back; the library decides what follows, and puts the
session back where an evaluation failed.
