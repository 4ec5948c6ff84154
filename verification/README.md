# sak

A Swiss-army knife for reading structured system state: JSON documents, Kubernetes clusters,
the Linux `/proc` files, Grafana Loki and LXD/Incus. Every command only reads, and writes one
row per finding, in an order that does not change from run to run.

`src/` is a library that Verus verifies. It holds what the commands decide and compute: the
parsers, the rows, the order, the limits, the messages. Each public function states what it
returns, and the `pub proof fn`s state what holds of several functions together.

- `text`, `number`, `order`, `gather`, `fields`: texts as sequences of characters, numbers,
  stable sorting, lists made item by item, maps in key order
- `value`, `path`, `format`: JSON values, the paths that lead into them, and their text
- `output`: rows, headers and limits
- `pattern`, `clock`: regular expressions and the time
- `json`, `k8s`, `linux`, `loki`, `lxc`: the commands

`app/` is the ordinary Rust around it: arguments, files, processes, HTTP and the cluster client.
It hands the library plain values and prints what comes back. `tests/` runs the library.
