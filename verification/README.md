# etdl_compiler

The validation and analysis core of a compiler for ETDL (Event Tree
Definition Language) documents, verified with Verus.

A document is modelled as plain values (`src/model.rs`). Each check returns
diagnostics whose codes and messages are stated exactly by its contract:

- `validate`, `event_rules`, `event_graph`, `refs`: language version,
  supplements, references, event-tree rules, cycles, reachability and
  terminal paths;
- `fault_rules`, `fault_structure`, `gate_order`, `fault_tree`, `rows`:
  fault-tree rules and structure, gate evaluation order, minimal cut sets;
- `typeck`, `ecel`: type checking of ECEL conditions;
- `safety`, `security`, `performance`, `diagnostics`, `live_reliability`,
  `tree_event`, `reliability`: the supplements;
- `stdlib`, `libraries`, `expansion`: library resolution and expansion;
- `graph`, `plugin`, `plugin_store`, `targets`, `extension`: the document
  graph, the plugin host's ABI and record, targets and the extension registry;
- `laws`: properties of the library as a whole, proved.

`app/` is the `etdl` command line: reading YAML files into the model,
finding library and artifact files, and printing results.
