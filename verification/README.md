# sni_fragment

A verified library for the first message of a TLS connection, the ClientHello.

* `packet` builds ClientHello records that look like those of a browser: Chrome
  120, Edge 120, Firefox 120, Safari 17, or a built-in template.
* `sni` finds the server's host name in a record.
* `fragment` cuts a record into pieces around the host name.
* `forward` decides, step by step, how the first record of a client is read and
  sent on in pieces.
* `wire` has the big-endian integers that all of them use.

`laws`, `profile` and `ja3` hold no code that runs. They prove what holds between
the others: that the host name a record was built for is the one found in it,
that every browser profile has the JA3 fingerprint of its browser, and so on. The
pieces of a record, joined again, are always the record.

Everything under `src/` is verified with Verus, except for the random numbers,
which come from the `rand` crate (`packet::random`). `app/` holds the sockets, the
timers and the configuration types around the library.
