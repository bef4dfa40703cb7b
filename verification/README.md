# dontspeak

The DontSpeak voice integration of an editor, with its logic verified in Verus.

The editor is a frontend client of the DontSpeak daemon. The daemon owns the
dictation key, the microphone, the speech engines and the narration; the editor
subscribes to dictation events over a local NDJSON socket, shows them as marked
text, delivers transcripts, and hands agent replies to be narrated.

`src/` is the library. Nothing in it opens a socket, reads a clock or draws:
bytes, events and answers go in, and what to write, whom to tell and what to
show come out, each with a contract.

| module | what it holds |
| --- | --- |
| `text`, `json`, `lines` | plain texts, JSON objects, the lines of a byte stream |
| `protocol` | the messages of the wire |
| `client` | one-shot requests and the frontend subscription |
| `places` | where the daemon's files are |
| `settings` | the integration's settings |
| `connection` | the status, the connection loop and its back-off |
| `window_ops`, `dictation` | the dictation state machine and the windows it works on |
| `sink`, `index_set`, `narrator` | the narration of agent threads |
| `conversation` | which conversation the center panes host |
| `status_button`, `page` | what the status bar and the settings page show |

`tests/` runs the library. `app/` is the code around it: `daemon`, `dirs`,
`wire` and `settings_content` do the I/O, and `editor` holds the entities and
views.
