# akela

The verified core of Akela, a Server-Sent Events hub with tag-based fan-out
distributed over Redis pub/sub.

- `src/` is the library, checked by Verus:
  - `tags.rs`: `TagSet`, a set of tags kept as a list without repetitions.
  - `protocol.rs`: the matching rule (`matches`), tag-list normalisation and
    the `Envelope` exchanged between instances.
  - `registry.rs`: the clients of one instance and what each envelope does to
    them (`Registry::apply`), with the delivery laws.
  - `query.rs`: the `tags` query value of a connection request.
  - `config.rs`: settings resolution (environment, file, defaults).
  - `service.rs`: HTTP statuses, buffer sizes and the channel listener's
    decisions.
- `app/` is the program around it: axum routes, Redis connections, client
  channels, JSON and YAML.
- `tests/` runs the library on concrete values.
