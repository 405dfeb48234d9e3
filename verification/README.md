# XSynth

A SoundFont synthesizer for high voice counts and low latency. The library under `src/` is written in
Verus: what every function returns or changes is stated in its contract and proved.

- `voice`: envelopes, sample readers and the generators that render a voice
- `channel`: the voices of a key, the keys and controllers of a channel
- `soundfonts`: SF2 zones, modulators and samples, SFZ definitions, resampling
- `buffered_renderer`, `realtime`: rendering ahead of time, event senders and the note limiter
- `offline`: rendering to a file
- `kdmapi`: the life of a KDMAPI stream
- `effects`: the volume limiter
- `helpers`, `scalar`, `stream`, `range`, `fx_set`, `tally`: what the others build on

Continuous quantities are an abstract `Scalar`. A contract says which operation gave which value; the
arithmetic itself comes from the user of the library.

`app/` holds what the library leaves out: floating point numbers, threads, the audio device, files and
foreign interfaces. `tests/` runs the library.
