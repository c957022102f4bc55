# Cascade

An HLS edge server. It takes live streams from an RTMP source on demand, hands them to an
encoder, and serves the playlists and segments to viewers, who are counted by anonymous
sessions.

- `src/` is the verified library: what each request means and is answered, when streams are
  launched, awaited, stopped and cleaned up, how viewers and sessions are counted, what the
  encoder is told to do, how metrics are gathered, and the plans and figures of the load test.
  Every decision is a function on plain values with a contract. Functions that read the clock
  have a twin that takes the instant.
- `tests/` runs the library on concrete values.
- `app/` is the program around it: the HTTP servers, files, encoders, the segment cache and
  the search service. Without an argument it is the edge server whose encoders run inside the
  process; `subprocess` starts the one that runs an encoder process for each stream;
  `load-test` plays streams with many viewers at once.

The public proof functions named `law_*` state what holds of several operations together.
