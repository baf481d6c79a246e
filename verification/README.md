# open_duck_playground

Reference motions, a reference-motion viewer and a training runner for the
Open Duck robot, with the integer and indexing logic stated in contracts and proved.

- `src/` is the verified library:
  - `order_key`: integer keys that order the bit patterns of doubles
    totally (NaN largest, `-0.0 == +0.0`), with the proof that they follow
    the numeric order.
  - `record_order`: the stable key order in which motion records are
    processed, and the proof that it is unique.
  - `motion_index`: the checks a set of motion records must pass (the first
    faulty record in key order decides the error), the `dx x dy x dtheta`
    lookup grid and its coefficient table.
  - `viewer`: keyboard commands, the command a key selects and the pose
    sequencer that decides, tick by tick, which pose the viewer shows.
  - `runner`: the runner's configuration, errors, sinks and the names of
    the checkpoint files it writes, with the local timestamp written from
    the clock's reading.
  - `renumbering`: the same records in another input order are accepted
    alike and give the same grid, renumbered.
  - `filters`: the state and update of the low-pass action filter.
- `app/` holds what works on floating-point numbers, JSON, files and the
  environment: the filter's blend, polynomial sampling, the viewer
  and runner types, and the optional MuJoCo front end.
- `tests/` exercises the library on concrete values.
