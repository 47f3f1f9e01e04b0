# trx-client

A client for amateur radio rigs that are reached over the network. It connects to the servers that
drive the rigs, keeps their state, spectrum and audio at hand, and offers them to a web page, to
programs that speak JSON over TCP, and to a desktop window.

## Layout

- `src/` is the library: every rule of the client, with contracts that Verus proves. It does no
  input or output; what it needs from the network, the disk and the clock it takes as plain values.
- `app/` is the program around it: sockets, HTTP, files, audio devices, and the arithmetic on
  floating point numbers (the position of the sun, gains, levels).
- `tests/` runs the library from outside.

The library's modules by theme:

- configuration and start: `config`, `startup`, `endpoint`, `registry`, `frontend_http`,
  `frontend_http_json`, `frontend_appkit`
- servers and rigs: `remote`, `backoff`, `commands`, `runtime`
- audio: `audio_client`, `audio_ws`, `audio_bridge`, `vchan`, `ogg`, `recorder`
- frontends: `auth`, `sessions`, `sse`, `assets`, `http_reply`, `json_frontend`, `desktop`
- stored things: `bookmarks`, `stores`, `history`, `decode_log`
- automatic tuning: `scheduler`, `scheduler_control`, `scheduler_task`, `background_decode`,
  `decoders`
- common: `text`, `lines`, `table`, `id_table`, `order`, `num`, `ids`, `base64`, `cbor`, `gzip`,
  `calendar`, `clock`
