# flexaudio

Capture of system, process and microphone audio with voice activity detection, as a library
whose decisions are verified with Verus.

## Layout

- `src/` is the verified library. It holds what is decided, on plain values.
  - `vad/`: settings, framing, segmentation, the detector, and the reading of the model's
    inputs and outputs.
  - `linux/`: what the PipeWire registry reports, which nodes are linked, which devices and
    processes are listed, hotplug events, backends.
  - `macos/`: the least version, status codes, the tap chain, devices, processes, backends.
  - `windows/`: the least build, result codes, setup, the capture loop, endpoints, sessions,
    backends.
  - `binding/`: what the script asks for and what is opened, chunks and their pairing, the life of
    a stream, names of split files.
  - `level`, `text`, `table`, `types`, `backend`: what the others share.
- `tests/` runs the library.
- `app/` is ordinary Rust around it: inference and resampling in floating point, the calls into
  PipeWire, Core Audio and WASAPI, and the addon for Node.js.

## Samples

Samples and probabilities are binary32 bit patterns in the library (`level::Level`, `u32`). They
are compared and carried there; arithmetic on samples is done in `app/`.

## What is trusted

One item: `text::quote`, the `Debug` form of a text, of which only is said that it depends on the
text alone.
