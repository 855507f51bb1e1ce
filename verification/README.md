# Castellan

Castellan is a DNS-driven egress firewall for development containers. It acts as the container's
DNS resolver: every lookup is matched against an allow-list, and the addresses of allowed names
are injected into nftables sets as they resolve, so egress is permitted to exactly what was just
looked up.

- `src/` is the library, verified with Verus: the allow-list, the seed lists, the nftables
  scripts, the decisions of a DNS exchange and the order of the bootstrap. The modules that end in
  `_laws` state what holds of all inputs.
- `app/` is the program around it: the command line, sockets, files and processes.
- `tests/` runs the library on concrete values.

The regex, glob, JSON and IP-range engines are outside crates. What the proofs take from them
without proof stands in `src/matcher.rs`, `src/meta.rs` and `src/net.rs`, each item with a comment
that names the outside function. `src/text.rs` adds `String::push` of the standard library.
