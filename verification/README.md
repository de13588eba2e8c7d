# sonnetics-core (verified core)

Wake-word inference support. The library under `src/` holds the parts of the
engine that cut and decide, each with a contract proved by Verus:

- `ring_buffer` — the fixed-size sample ring (a type invariant keeps its
  fields consistent and its contents equal to the replay of the ghost log of
  calls made on it, so every ring is first in, first out)
  and the overlapping frames (6600 samples, one every 3200) cut from the
  audio stream, with the laws that framing is independent of how the stream
  is chunked, where each frame starts, and how many frames a stream yields.
- `engine` — whether and from which rate audio is resampled to 16 kHz, and
  which output of the second-stage model holds the class logits.
- `manifest` — which file of a model pack holds which model, where those
  files are among the pack's entries (or which is missing), and the phrase
  reported on detection.
- `helpers` — model identifiers, the archive address of a model, and the
  choice of the model cache directory, on Windows and elsewhere.

`app/` is the runtime around it: reading and downloading model packs,
microphone capture, the log-mel spectrogram and the ONNX inference, all of
which work on floating-point audio or talk to the outside world.
