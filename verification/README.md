# capture_service

Verified core of a capture service for conferencing traffic. It parses Ethernet
frames, tells conferencing platforms apart by their media ranges, keeps RTP, and
folds it into per-client quality-of-experience sessions.

- `src/capture` parses a frame once and demultiplexes its UDP payload (RFC 7983).
- `src/models` holds the RTP record and the text form of addresses.
- `src/channels` drops retransmissions, writes CSV rows and groups records into
  batches.
- `src/framework` routes packets to the first platform that claims them.
- `src/platforms` holds the platforms: Microsoft Teams, and Google Meet, which
  claims no packets yet.
- `src/sessions` folds records into sessions, bins and InfluxDB lines.
- `app` is the program around the library: capture runtime, files, threads,
  HTTP, and the floating-point fields of the InfluxDB lines.

Every function of the library has a contract. Properties that relate several
functions are public proof functions beside them. The ends of the queues carry a
log that exists in proofs only, so contracts say which messages are sent, and that
no others are. What the library takes on
trust is small: `String::push`, and sending to and receiving from a
`crossbeam_channel` queue.
