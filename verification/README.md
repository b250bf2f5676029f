# blacknoir

A small local-network reconnaissance tool: it lists the machine's interfaces,
sweeps a /24 subnet with ARP requests to find live hosts, and probes TCP ports
of a host with SYN segments (with an optional TTL-based OS guess and a service
banner grab).

- `src/` is the verified library (Verus): address and port text parsing
  (`addr`, `ports`, `text`), frame layouts and the ARP encoder/decoder
  (`frame`), the SYN probe and reply classification (`probe`), the sweep plan,
  reply bookkeeping and hardware-address resolution (`discovery`), interface
  selection over the `dict` crate (`interfaces`) and the session commands (`cli`).
- `app/` is the program around it: clap parsing, the rustyline session, pnet
  datalink channels, sockets and printing.
- `tests/` exercises the library against pnet's and etherparse's own packet code.
