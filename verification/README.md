# tsresolver

Resolves TeamSpeak server addresses of any kind: ip addresses, host names with or
without a port, and server nicknames.

The library in `src/` decides and is verified with Verus. It makes no lookup itself:

- `parse` tells ip addresses from host names, `port` reads ports, `address` holds the
  address types and reads ip addresses.
- `name` makes the names of SRV records, `srv` orders SRV records by priority and
  weight, `nickname` builds nickname lookups and reads their answers.
- `task` says what each reply leads to, `resolution` holds what is left to do to
  resolve an address.
- `outcome` states and proves what a resolution shows to its caller in the end,
  whatever the lookups reply.

`app/` makes the lookups: it takes one task after the other from a `Resolution`, asks
the network and hands the reply back. A lookup of a search that takes too long is given
up, and the search goes on.
