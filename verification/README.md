# resonance_stream

The backend logic of Resonance Stream, a chat reader for Blue Protocol: Star
Resonance that captures the game's chat from the network and translates
Japanese messages into Korean, written in Verus with its behaviour proved
against `requires` / `ensures` contracts.

- `src/` is the verified library:
  - `protocol/`: Protobuf varints and tag lookup, reassembly of framed
    packets from a TCP stream, and the chat message parser;
  - `services/sniffer/`: per-connection stream tracking, message identity,
    blocking and de-duplication, the packet-to-chat pipeline and the choice
    of network interface;
  - `services/processor.rs`: shielding of names, terms and numbers before
    machine translation and their restoration after it, nickname
    romanisation and the custom dictionary;
  - `services/translator/`, `python_translator.rs`: the translation request,
    the reply, batching and the sidecar's output;
  - `state.rs`: chat history, system log, duplicate window and nickname
    cache;
  - `ui/`: what the chat window shows, how incoming messages are routed
    to its tabs, and the edits of settings and dictionary words;
  - `services/downloader/`: update decisions, the dictionary's version and
    validity, and the model file's SHA-256 check;
  - `sniffer.rs`: the decoding of the first capture engine.
- `tests/` runs the library on concrete values.
- `app/` is the program around it: raw-socket capture, files, the AI server
  process and HTTP, with the outside crates' derives on copies of the
  library's types.

Calls into outside crates (`etherparse`, `regex`, `kakasi`, `indexmap`,
`serde_json`, `sha2`) and a few std functions stand behind small trusted wrappers,
each documented with what its contract claims.
