# auv_frame_loop

The logic between a captured game window and a key press, proved with Verus: a
service that keeps the most recent frames of a window, the preparation of those
frames for a policy model, and the control loop that turns the model's answer into
one key press for each step.

## Layout

- `src/recent_frames.rs`: the bounded history of one frame buffer, and what its
  producer does next.
- `src/frame_buffers.rs`: the checks on requests, and the service that opens, reads
  and closes buffers.
- `src/images.rs`, `src/model_frames.rs`: pixel frames, and the window of ten frames
  that the model sees.
- `src/policy.rs`, `src/tensors.rs`, `src/inference.rs`: the model's instruction,
  inputs, outputs and execution provider.
- `src/controller.rs`: the control loop as a state machine.
- `src/report.rs`, `src/status.rs`, `src/text.rs`: traces, refusals, text.
- `app/`: the program around the library. It holds the threads, the RPC client, the
  ONNX Runtime session, the floating-point arithmetic and the calls into the driver.

Floats are held as the bit patterns of 32-bit IEEE 754 values.

Image decoding, cropping and resizing are done by the `image` crate, tensor shapes
are checked by `ndarray`, and buffer ids come from `uuid`. What is taken on trust of
them is stated at the few functions that call them, each marked
`#[verifier::external_body]`. Of the standard library, only the copying of a path is
taken on trust in addition to what `vstd` states.

## Running

The program supports macOS with CoreML only.

```bash
auv game-dome-keeper \
  --model model.onnx \
  --frames-dir recordings/live \
  --task enter --target mine \
  --background-input \
  --target-fps 10 --buffer-capacity 10
```
