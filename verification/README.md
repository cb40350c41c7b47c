# egui_fractals

A designer for line-segment fractals: an initiator line and generator lines
define how every painted line spawns children, level after level.

- `src/` is the verified library (Verus):
  - `depth`: the greatest depth that keeps one frame under the line budget, and
    which levels are painted;
  - `generation`: the transformations of a design and the lines painted, level
    by level, generic over the line and transformation types;
  - `palette`: line colours and the roles of design lines;
  - `design`: design lines and their edits (dragging handles in the free, tree
    and loop styles, drawing new lines, arranging lines as a tree or a loop);
  - `interaction`: decisions on keys and pointer (depth keys, design view,
    picking up, reversing and removing lines);
  - `animation`: bookkeeping of the animation cycles.
- `app/` is the egui/eframe application around it: widgets, input gathering,
  floating point geometry and painting.
- `tests/` exercises the library on concrete values.
