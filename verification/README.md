# breathe

A resource-homeostasis substrate. Workloads and hosts are held inside a
utilization band by carving their limits and reservations in small steps; this
crate holds what decides which carve is written where, and proves it with Verus.

## Layout

| Module | What it holds |
|---|---|
| `dimension`, `layout`, `forma` | what a band addresses: dimensions, targets, where a limit lives and what changing it costs, the shapes that are provisioned |
| `gate` | whether a band may write: authored intents, the legacy chain, and the witness of a live gate |
| `provider`, `mock` | observing and assigning a limit as a machine that asks for one read or write at a time, and a cluster held in memory |
| `host`, `host_cluster` | a node's own levers: reports and unit properties read, ceilings kept |
| `jmx` | the beans of a JVM |
| `kube`, `managed_fields`, `pod_cgroup` | objects of the Kubernetes API read and patched |
| `request`, `manifest`, `marked_line` | reservations carved within a pod's class, and changes that last, written as single scalars at the marked lines of a manifest |
| `provision`, `sim` | one tick of a provisioned shape, and a simulated cloud |
| `nodewaste` | nodes that nothing useful holds |
| `operator` | what an operator's tools ask for and are answered |
| `json`, `text`, `text_map` | JSON values, texts, and maps keyed by text |

`app/` is the program around the library: the operator's server, the live
cluster, the live host and the bridge to a JVM. `tests/` runs the library.

## What is believed without proof

- `text`: `format!("{:?}", ..)` of a text, `String::push`, `std::str::from_utf8`
- `json`: `serde_json::to_string` of a text
- `request`: `blake3::hash`

Each stands under "outside functions" in its module, with what is claimed of it.
