# pi-speak

The logic of a text-to-speech daemon that speaks the replies of a coding assistant while they
stream, written in Verus: each function of the library carries a contract that Verus proves.

- `src/text/`: cutting a stream of text into sentences, and cleaning it of what is not spoken
- `src/engine/`: cadence and pace, phonemes and tokens, voices and their styles
- `src/dsp/`: 16-bit PCM, the blocks that are resampled, the samples that are faded
- `src/audio/`: what the output plays, sample by sample
- `src/ipc/`: the protocol, the requests of clients, the arbitration between sessions, the life of
  the daemon process, the command line client
- `src/config.rs`: the settings, and where files are looked for
- `tests/`: tests of the library
- `app/`: the program around it: sockets, audio device, inference, floating point

A float is held in the library as the 32 bits that encode it; `app/` computes with it.

The laws that hold of the library as a whole are the public proof functions whose names begin with
`law_`. What is believed of other crates and of the standard library without proof stands in
`src/text/chars.rs`, `src/text/pattern.rs`, `src/engine/archive.rs`, `src/engine/phonemizer.rs` and
`src/audio/queue.rs`.
