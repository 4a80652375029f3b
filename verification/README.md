# FlareDB

FlareDB runs Apache Beam pipelines. A client submits a pipeline; the instance fuses its
transforms into stages, lets a worker process execute them bundle by bundle, and keeps the
collections between the stages in tables.

The decisions of the instance are a library, written and proved in Verus: every function of it
states what it does in `requires` and `ensures`, and what holds of several of them together is
stated as a public proof function next to them.

## Layout

- `src/` is the library.
  - `coders`: the wire forms of elements, their round trips, and which coder an id stands for.
  - `fusion`: from a pipeline to stages, the expansion of splittable transforms, and the removal
    of second producers and dangling inputs.
  - `engine`: the graph of the stages and its schedule, what a worker is told, and the executions
    of stages as state machines.
  - `store`: records, columns, the layouts of tables, and the conversion between them.
  - `jobservice`, `worker`, `state`, `io`: jobs, staging sessions, worker processes, the state
    file and table uploads.
  - `transforms`: what the runner executes itself.
  - `utils`: paths, errors and the estimation of batch sizes.
  - `shared`, `named`, `model`, `environment`, `text`: maps, the parts of a pipeline, where they run,
    and texts.
- `tests/` runs the library on examples.
- `app/` is the program around it: gRPC services, processes, files, tables, and the floating-point
  part of the estimation of batch sizes.

## What is trusted

Calls into outside crates (petgraph, dashmap, indexmap, prost, uuid, rand) stand behind small
functions marked `external_body`, whose comments say what is believed of them; so do the clock and
the `Debug` texts of std. A name without a definition, such as that of a decoded message, stands
for what such a call returns.

## Numbers with a fraction

The library holds them as their 64 bits. It compares and writes them by these and leaves
arithmetic on them to the program.
