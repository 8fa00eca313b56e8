# logic_builder

A verified core for a logic-circuit editor and simulator.

Circuits are built from NAND gates, saved circuits of a library, and external nodes
whose outputs come from outside. The library, in `src/`, is checked by Verus:

- `name_map`: a map from names to values with unique names.
- `script`: circuit descriptions (`CircutLangScript`, `GraphDesc`).
- `compile`: turns a description into a `Simulation`, giving one wire to each output
  port, compiling saved circuits once and reporting circular dependencies. Its contract
  is the recursive specification `compile_result`.
- `simulation`: wires, gates and the tick (`sim_tick`); external nodes are asked in
  order (`external_calls`) and their answers handed to `run_one_tick`.
- `runtime`: a compiled circuit being run.
- `editor`: the editor's canvas and library of saved gates, with saving, refreshing of
  instances, deletion and the proved properties of these operations (`properties`).

`app/` holds what Verus does not see: the serde forms of the data, the library file,
scripts read with bincode, and the user closures of external nodes.
