# goat_reuniao

The verified core of a desktop meeting transcriber: it records the microphone together with
the monitored system output, cuts the audio into utterances with a voice-activity detector,
sends each utterance to a local whisper server as a WAV file, and also transcribes video files
in fixed-length segments. Push-to-talk prompts, a tray menu, global hotkeys and a local
socket drive it.

Layout:

- `src/` — the library, verified with Verus.
  - `audio.rs`: sample-format conversion, channel downmix, choice of a capture
    configuration, recognising the monitor device by name.
  - `meeting.rs`: mixing microphone and monitor audio, the utterance segmenter and its
    laws, the meeting pipeline around the voice-activity detector (webrtc-vad), segment
    numbering, reading the monitor source out of `pactl` output.
  - `video.rs`: the single-job switch with cancellation, PCM decoding, `HH:MM:SS` labels,
    cutting a decoded stream into 30-second segments, the events of a video job.
  - `whisper.rs`: the WAV container, locating the server and model, the transcript text.
  - `hotkeys.rs`: evdev key codes and what an input event asks for.
  - `commands.rs`, `prompt.rs`, `lib.rs`: replies, messages, tray and socket commands,
    the overlay position.
  - `pcm.rs`, `text.rs`: little-endian sample encoding and character-level string helpers.
- `tests/` — tests run against the compiled library.
- `app/` — the Tauri application around the library: audio devices, threads, processes,
  HTTP, the window, tray and hotkey plumbing.
