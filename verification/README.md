# iroh-lan

A peer-to-peer LAN. Nodes that know a network's name and password find each other,
agree on addresses in one private subnet, and carry each other's IPv4 packets.

- `src/` holds the rules of the network, written in Verus. The functions state what
  they do and are proved to do it (of a key made by chance, and of the time of the
  clock, there is nothing to state): how announcements merge and conflicts over addresses
  are settled (`mesh`, `claims`, `state`), which packets pass and how their checksums
  are set (`packet`, `tun`), how connections are judged and chosen (`connection`,
  `direct_connect`), and what goes on the wire (`wire`, `direct_message`). The
  modules `mesh_inv` and `mesh_laws` state what holds of the mesh as a whole.
- `tests/` runs the library on given values.
- `app/` is the program around it: the transport, the gossip, the device and the tasks
  between them.

What the library has from other crates (signatures, hashes, encodings, packet fields
and the clock) stands behind small functions with stated contracts in `keys`,
`hashes`, `wire`, `packet` and `state`.
