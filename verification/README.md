# CastScreen

A dual-PC game-streaming tool: the gaming PC captures its screen and sound,
stamps both from one 90 kHz clock, multiplexes them into MPEG-TS and sends the
stream over TCP; the laptop demultiplexes it, previews the video and plays the
sound for OBS or TikTok Live Studio to capture.

## Layout

- `src/` — the verified library (Verus). Every executable function states
  its behaviour in `requires` / `ensures`, and the laws of the system are
  public proof functions (`law_*`).
  - `mpegts`, `crc`, `media`, `stream_laws` — the MPEG-TS multiplexer and
    demultiplexer, the PSI CRC, and the laws of the stream: what is muxed is
    demuxed back, stream by stream, in order; one continuity counter per
    PID; the PAT/PMT schedule; a section followed by its CRC checks to zero;
    where the byte stream is cut makes no difference to the demultiplexer.
  - `clock` — the 90 kHz presentation clock and its laws (audio and video
    share the timebase; time stamps never run backwards before the 33-bit
    wrap).
  - `pcm`, `audio`, `mixer` — 16-bit PCM transport packing, folding captured
    device blocks to stereo, and the latency-bounded playback queue.
  - `video`, `jpeg`, `capture`, `frame` — key-frame cadence, JPEG frames
    through the `image` crate, and turning a mapped BGRA texture into an
    RGBA frame with the pointer drawn in.
  - `transport`, `pacing`, `discovery` — link tallies and reconnect
    throttling, capture pacing and frame-rate windows, LAN discovery
    datagrams and the device registry.
  - `version`, `release`, `update`, `launch` — version comparison, choosing
    the installer of a release, the updater's phases (the one outcome of a
    check, and the download as a step function from event to phase and
    action), and how the programs find and start each other.
  - `config`, `ui` — configuration defaults and the design-system vocabulary.
- `tests/` — ordinary Rust tests of the library.
- `app/` — the programs around the library: the egui windows, Windows
  capture and audio, sockets, HTTP, files and floating-point audio and
  drawing. One executable takes the role (launcher, sender or receiver) its
  file is named for.
