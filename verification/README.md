# Vox

Dictation and reading aloud: speech becomes text in the app in front, and a text
that is selected becomes speech. Both need a speech service on the network; Vox is
its client.

`src/` is the library. It holds the decisions that the app makes, and each of its
functions is verified with Verus against the contract that stands over it:

| module | what it decides |
| --- | --- |
| `api` | the requests to the service, and the chunks in which a text is read |
| `audio` | what is recorded, the file made of it, and the microphone to use |
| `dictation` | the cycle of a dictation, from the shortcut to the text that is handed over |
| `recordings` | the backup of what was recorded |
| `stt_stream` | the live transcription |
| `paste` | how a text fits where it goes, when it is sent, and the keys that are pressed |
| `reading` | the queue of a reading |
| `bridge`, `wire` | the requests of the browser, and what they are answered |
| `config` | the preferences |
| `commands`, `shortcuts`, `service`, `tray` | the commands, their combinations, and what they do |
| `hud`, `presence` | the floating window |
| `sounds`, `autostart`, `front` | cues, start with the system, a guard over scripts |
| `text`, `float` | texts as sequences of characters, and numbers by their bits |
| `outside` | the calls into other crates and what is claimed of them |

What a module promises as a whole stands in proof functions whose names begin with
`law_`.

`app/` is the program around the library: windows, microphone, speakers, keyboard,
clipboard, network and files. Floating-point arithmetic is there too; the library
takes its results by their bits.

`tests/` runs the library.
