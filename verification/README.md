# ren_desktop

The logic of the Ren AI proxy, a desktop tool that shares an LLM API key on a
network without handing the key out, written in Verus.

- `src/config.rs` — the proxy configuration, the machine key, and the
  encryption of the stored API key (AES-256-GCM, base64), with the round trip
  proved: what `encrypt_with_key` produces decrypts to the key again.
- `src/proxy.rs` — what happens to a client request: which paths are served,
  how the request line, headers and body are read, the upstream URL and
  headers (the client's credentials replaced by the proxy's key), and the
  head of the response relayed back.
- `src/control.rs` — when the proxy and the public tunnel may start and stop,
  what each command answers, and reading the tunnel's public URL.
- `src/text.rs` — `lines`, `split_whitespace`, `trim`, `split_once`, `join`
  and friends over characters, each with its meaning as a spec function.
- `app/` — the I/O around the library: configuration file, logging, the
  listening server, processes and threads.
