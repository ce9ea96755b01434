# mmtk

Garbage collection on Immix heaps, in verified Rust. The library holds the rules by which two
collectors work, with contracts that Verus proves:

- **LXR** counts references on an Immix heap. Increments promote young objects in place, decrements
  pass deaths on, and a trace from time to time finds the dead cycles that counts cannot.
- **Bactrian** copies a nursery into an Immix mature space, which it marks in cycles: a first pause
  takes a snapshot, a write barrier keeps it, slices within later pauses mark and sweep.

## Layout

| Path | What it holds |
| --- | --- |
| `src/args.rs` | settings, read from an environment that the caller hands in |
| `src/util/` | addresses, the metadata tables of the heap, counts, forwarding, queues |
| `src/policy/immix/` | lines, blocks, the Immix space, and the packets that prepare and sweep it |
| `src/plan/lxr/` | the plan LXR: increments and decrements, roots, its barrier, its pauses |
| `src/plan/concurrent/` | what concurrent plans have in common, and the plan Bactrian |
| `app/` | the process: its environment, clock budgets, quanta on a worker, and printing |
| `tests/` | the library on concrete heaps |

## Reading the contracts

The metadata of the heap is one value, `HeapMetadata`, whose view `MetadataView` is a record of
sequences: a byte per object, line, block or chunk. Each space and plan has a view of its own.
Contracts relate the views before and after a call; what holds across calls is stated in the proof
functions whose names start with `law_`.

What the library takes from other crates stands in `src/util/queue.rs`, `src/util/deque.rs`,
`src/util/atomic_code.rs` and `src/util/clock.rs`, each with what is taken for granted of it.
