# httpipe

`httpipe` is an HTTP server that lets HTTP clients forward data to each other
over named channels: the body of a `POST` to `/channels/{namespace}/{channel_name}`
is the response to a `GET` of the same channel.

The server's logic is a library that is verified with
[Verus](https://github.com/verus-lang/verus).

- `src/rendezvous.rs`: the producer queue and the consumer queue of a channel.
  Producers and consumers are matched in the order of their requests, one pair
  at a time.
- `src/directory.rs`, `src/channel.rs`: which channels there are. Namespaces and
  channels are made on first use and removed when they are deleted or nobody
  uses them any more.
- `src/traffic.rs`: the course of a server over any requests. Once all of them
  are over nothing is left behind, and two servers share nothing.
- `src/exchange.rs`, `src/headers.rs`, `src/drop_guard.rs`: what a matched pair
  does, and what the two are answered.
- `src/pubsub.rs`: topics, on which one request is published to many.
- `src/pipe.rs`, `src/topic.rs`: the `flume` and `tokio` channels underneath,
  with what is taken for granted of them.
- `app/`: the server around the library, with `axum`.

## Options

```
Usage: httpipe [OPTIONS]

Options:
  -p, --port <PORT>
          the port to bind the server to [env: PORT=] [default: 3000]
  -r, --request-timeout <REQUEST_TIMEOUT>
          the maximum request timeout, in seconds [env: REQUEST_TIMEOUT=]
  -h, --help
          Print help
```
