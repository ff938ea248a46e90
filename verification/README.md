# house_builder

The logic of a voxel house builder, verified with Verus.

- `src/text.rs`: Unicode white space and control characters, trimming.
- `src/color.rs`: hexadecimal colour codes (reading, writing, normal form), the list of
  recent colours, and the colour picker's state changes.
- `src/savefile.rs`: save file records, writing blocks and reading them back (older files
  included), save file names and the listing of saved houses.
- `src/flow.rs`: screens and modes, the menus' decisions, typing a new house's name.
- `src/editing.rs`: HUD windows, building shortcuts, mouse clicks, block shapes.

`app/` is the Bevy game around the library: rendering, input, egui windows, physics and
geometry on `f32`, JSON serialization and file access.
