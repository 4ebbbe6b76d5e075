# codex_plus_core

The core of Codex++: the relay proxy of the local host, the ports that the application holds, and
the watcher that keeps its launcher running. The behaviour of every function is stated in a
contract and proved by Verus, except for the wrappers around calls into other crates and the
standard library: their contracts are taken on trust.

- `src/relay_proxy`: reads requests from the bytes that arrive, routes them by their JSON body to
  the text or the image service, and puts the responses together.
- `src/watcher`: finds the processes of the application, decides which of them are stopped and
  how, and plans the installation of the watcher.
- `src/ports.rs`, `src/http_client.rs`, `src/install.rs`, `src/settings.rs`: ports and the guard
  against a second instance, the settings of the HTTP client, the executables, the relay profile.
- `src/json.rs`, `src/paths.rs`, `src/text.rs`: JSON values, paths and texts. They hold the wrappers
  around `serde_json` and the standard library. The one around `reqwest`, for the reasons of HTTP
  statuses, stands in `src/relay_proxy/response.rs`.
- `app`: sockets, processes, files and the clock, around the library.
