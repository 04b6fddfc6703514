# EchoScribe

The verified core of EchoScribe, which records Discord voice sessions and turns
them into speaker-attributed, chronological transcripts.

`src/` holds the rules: how a session directory is inspected, when a recording
may be continued, how replayed activity becomes candidate ranges and work items,
how results are validated and repaired, where an interrupted transcription
resumes, and in which order the stages of the pipeline act and publish. Its
contracts are proved by Verus. Laws that span several functions stand beside
them as public proof functions.

Where the rules depend on the outside world they are state machines: `step` names
the action that is due, `observe` takes in what came of it, and `conclude` says
what the run amounts to. The machines are in `orchestration`,
`transcription_flow`, `retranscription` and `verify_tracks`.

`app/` is the program around the library. It performs those actions: it reads and
writes files, holds the operation lease, runs the transcription worker, decodes
FLAC and talks to Discord. Receiving voice and keeping the binary journals is the
work of a capture front end behind the traits in `app/capture.rs`.

Four calls are trusted rather than proved, each documented where it stands:
`{:?}` of a text, the TOML form of a string, one number field of a JSON document,
and one of the JSON value at the start of a line.

`tests/` exercises the library from outside.
