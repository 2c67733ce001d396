# arcdps_example_plugin

An arcdps plugin window that exercises the imgui bindings arcdps exposes,
split in two:

- `src/` — the verified library (Verus):
  - `text.rs`: decimal rendering of integers and the widget labels built on it;
  - `order.rs`: three-way comparison of integers and of text (lexicographic by
    character, the order `str` uses), with its order laws;
  - `table.rs`: the table's rows, their order by column and direction, and a
    stable insertion sort proved sorted, a rearrangement, stable and unique;
  - `state.rs`: the persistent widget state (all but its floating-point values),
    its initial value, "Reset state", selection, drag-and-drop and clipboard
    updates, and the state's well-formedness.
- `app/` — the plugin itself: drawing every widget through `arcdps::imgui`, the
  floating-point widget values, and the global state behind a mutex.
- `tests/` — tests of the library on concrete values.
