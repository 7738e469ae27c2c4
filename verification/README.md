# agentenv

Peer-to-peer artifact transport and node runtime of AgentENV, verified with
Verus.

- `src/` decides: the URMA artifact transport (startup, publishing, lookup,
  fetching), the drivers behind it, the catalog and its protocol, the buffer
  pool, scoped child processes and runtime diagnostics. Every function states
  in its contract what it returns or changes; laws that span functions are
  public proof functions named `law_*`.
- `app/` performs: memory mappings, `liburma` calls, sockets, processes and
  the executor.
- `tests/` runs the library on concrete values.

Work that alternates with the outside is written as step machines. A function
that ends in a step names what to do next; it is called again with what came
of it. `*_expects` says which events a step can be answered with, `*_goes_on`
where it leads.

What is believed of outside functions is stated at the items that call them:
`text`, `codec`, `diagnostics` and `privileges` hold all of them.
