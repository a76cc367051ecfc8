# ciphermq

A message broker whose messages are encrypted from sender to receiver, with the
clients that use it. `src/` is a library written in Verus: what the broker and its
clients decide is stated in contracts and proved. `app/` holds the programs around
it: sockets, files, the database, JSON, and the token buckets of the request rates,
which count in floating point and are not proved.

## The library

| Module | What it holds |
|---|---|
| `acl` | roles by certificate name, commands by role, a receiver's own resources |
| `state`, `state_model`, `state_laws` | queues, exchanges, bindings, consumers and message status; the model they are stated over; what holds across operations |
| `server` | one client's conversation: admission, requests, publications, deliveries |
| `rate_limiter`, `heartbeat`, `metrics` | connection limits, signs of life, counters |
| `storage`, `storage_laws` | batched updates and public keys sealed at rest; what becomes of updates and keys in the database |
| `admin` | the admin console and its client's view of the node |
| `config`, `credentials` | configuration checks and defaults; certificates and which private key is used |
| `crypto`, `hybrid` | the outside ciphers; sealed boxes and message encryption |
| `identity`, `ids`, `framing`, `text` | names in certificates, identifiers, lines, text |
| `protocol` | the lines of the wire protocol and that both ends understand them |
| `sender`, `sender_run` | the sending client and one run of it |
| `receiver` | the receiving client |
| `broker`, `networking` | a broker that hands each message to one consumer at a time |
| `basic` | a broker without roles |
| `directory`, `seqs`, `totals` | keyed collections on `dashmap`, facts about sequences and sums |

Outside functions are reached through small wrappers, mostly in `crypto`,
`directory`, `credentials`, `identity` and `ids`; the comment above each says what is claimed of it.

## The programs

`app/main.rs` takes the program as its first argument: `server`, `basic-server`,
`engine <address>`, `sender`, `receiver`, `admin`, `make-certs <common name>...` or
`make-key`.
