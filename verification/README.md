# rooft

The logic of a small roof-design editor, verified with Verus.

A roof stands on a *base*: a slab whose outline is drawn corner by corner
with moves that alternate between the x and the z axis, so that every corner
is a right angle. The library

- draws outlines with a typed builder (`builder`), keeping every move at
  least `MIN_DISTANCE` long (`geometry`) and the nodes linked into a ring
  with the turn at each corner (`nodes`);
- triangulates the slab (`mesh`): six vertices per node, the side walls
  with their outward normals, and the top and bottom faces by ear clipping
  (`clip`), the rule of which is stated step by step; what the clipping
  makes is stated in `faces`: triangles on three different corners whose
  areas add up to the outline's;
- offers three preset outlines (`shape`);
- holds the editing rules (`edit`): picking a node and an axis, entering a
  coordinate with the mouse or the keyboard, keeping it clear of the nodes
  around, saving or undoing the move, and keeping every edge on an axis;
- and the small state rules of the interface (`actions`, `camera`, `ui`).

Coordinates are whole millimetres (`i32`). The application around the
library, with its window, rendering and input, is under `app/`.
