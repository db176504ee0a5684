# ants

A cluster of equal workers that hand work to each other. Any worker can take
a task; a busy worker reserves the node of its list that has been idle the
longest and hands the task over. Workers find each other by multicast, and a
task can be repeated on several workers until enough results agree.

`src/` is the library, verified with Verus: the node list (`nodes`), the
postbox where replies wait for their task (`postbox`), the worker's
reservations, answers and choice of nodes (`worker::model`), the consensus
count (`worker::consensus`), the broadcast messages (`worker::broadcast`),
the multicast messages, their wire format and checksum (`multicast::message`,
`multicast::codec`), a multicast agent's records (`multicast::agent`) and its
self-test (`multicast::system`), and the reading of the command line
(`config`). Clock readings and the outcomes of network calls are passed in.

`app/` is the program around it: the HTTP server, the RPC between workers,
the multicast sockets and the loops that drive the library.

`tests/` holds the tests of the library.
