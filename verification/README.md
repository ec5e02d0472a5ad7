# hath

A Hentai@Home client: it keeps a part of a distributed image cache on its disk, serves it to browsers,
fetches what is missing, and downloads galleries.

* `src/` is the library. Every function in it is verified with Verus against its contract: names of
  cached files and their digests, the cache's books and its cleaning, the talk with the server, gallery
  descriptions and downloads, keys and answers to requests, flood control, and the choices behind the
  TLS, QUIC and HTTP servers.
* `tests/` runs the library on concrete values.
* `app/` is the program: sockets, files, timers and the asynchronous plumbing around the library.

What the library takes from other crates without proof stands next to its use, marked
`#[verifier::external_body]`, with a comment that says what is relied on: digests (`aws-lc-rs`, `sha1`,
`openssl`), hexadecimal text (`hex`, `const-hex`), URLs (`reqwest`), media types (`mime`), regular
expressions (`regex`, `regex-lite`), range headers (`http-range-header`), header values (`axum`), PKCS #12
files (`p12`), certificates, their names and their keys (`rustls`), the limits of time (`chrono`) and random
choices (`rand`).
