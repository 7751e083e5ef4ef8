# m3u_filter streaming API core

The verified core of the m3u-filter reverse proxy API, written in Verus.

`src/` is the library, every function of it verified:

- `provider_config`, `provider_lineup`, `provider_manager`: connection
  accounting for providers and their aliases (limits, priority groups, grace
  periods, release), with laws on what each operation counts.
- `user_manager`: per-user connection counts, the grace period a user gets
  once at the limit, and stream sessions. The registry is a vector of
  entries with the invariant that no user name occurs twice, not a hash map
  keyed by the name: Verus proved nothing of `std`'s maps with `String`
  keys, while the vector's invariant is proved by every operation.
- `session_cookie`: the session cookie and the stream token it carries
  (`{virtual_id}:{token}:{provider}@{url}`), with round-trip laws.
- `xtream`, `player_api`, `stream_response`, `stream_options`,
  `provider_stream`, `timeshift`: request parsing and the decisions taken
  while a stream request is answered (redirects, provider choice, grace
  periods, first connection and reconnects, range resumption, the answer
  to a stream request).
- `epg`: the EPG time shift: an XMLTV guide is read event by event with
  quick-xml, the `start` and `stop` times of its programmes are moved
  (dates read, moved and written by chrono), every other event is kept
  byte for byte, and the result is gzip-compressed with flate2.
- `chunked_buffer`, `video_stream`, `ts_stream`: chunked reading of shared
  buffers, looping custom videos and MPEG-TS packetizing.
- `api_model`, `selection`, `hdhomerun`, `playlist`, `config`: the values
  the API exchanges and the small computations on them.
- `text`: the string functions the rest is built on (parsing, trimming,
  splitting, replacing), each against a specification.
- `clock`: the wall clock (`std::time::SystemTime`) and the operating
  system's random source (`rand::rngs::OsRng`), read through trusted
  wrappers that cannot panic.

`app/` is the asynchronous shell: locks around the registries, guards that
give connections back when dropped, byte streams over the library's readers,
the serde forms of the API values, and the EPG endpoint (opening the guide
file and building the axum response around the library's `shift_epg`). The
stream, redirect and player API endpoints are not there: they need the
server's configuration, playlist storage and provider HTTP client, which
are not part of this crate.

`tests/` runs the library on concrete values.
