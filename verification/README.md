# rtsp_client

An RTSP client whose protocol core is verified with Verus.

- `src/` is the library: RTSP messages and their parser, the requests of a stream, the exchange of
  a request for its response with the retry that authentication asks for, the buffer that responses
  are read into, session descriptions, SETUP responses, the search for a pair of UDP ports, the
  table of streams, and RTP packets. It does no input or output.
- `app/` is the program around it: arguments, sockets, logging.
- `tests/` runs the library on concrete values.

What is taken from outside crates (`url`, `sdp-types`, `http-auth`, `rand`, `bytes`) stands behind
small wrappers whose doc comments say what is believed of them. The files named `*_laws.rs`,
`rtp/wire.rs` and `text_lemmas.rs` hold what is proved of the library as a whole.
