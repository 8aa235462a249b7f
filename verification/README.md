# Way Dictation

Speech to text for the Linux desktop: speak into the microphone, have a cloud
service transcribe each phrase, and have the text typed into the window that has
the keyboard focus.

The decisions of the program are a library that is verified with
[Verus](https://github.com/verus-lang/verus): each function states in `ensures`
what it returns or changes, and public proof functions named `law_..` state what
holds of several functions together.

| Module | What it decides |
|---|---|
| `wav` | writing, reading, measuring and splitting WAV audio |
| `audio` | which frames are speech, where a phrase ends, what of it is kept |
| `client` | keys, providers, requests, replies, uploads in chunks, stitching |
| `live` | a session of the Gemini Live API |
| `injector` | which tool types, and how it is run |
| `config` | paths, the order in which keys are loaded, settings |
| `app`, `cli` | dictation from the command line |
| `worker` | the recorder and the consumer behind the widget |
| `gui` | the state of the desktop widget and the effects of its events |
| `text`, `encoding`, `json` | text, base64, percent-encoding and JSON |

Functions marked `external_body`, and `assume_specification` items, are claims
about std or about an outside crate; each says in its comment what it claims.

`app/` is the program around the library: the microphone, the network, files,
processes and painting. It runs as `way-dictate`, and shows the widget when it
is run under the name `way-dictation-gui`. `tests/` runs the library.
