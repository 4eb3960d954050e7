# sparrow

The decisions of a strip-packing optimizer, verified with Verus.

- `src/optimizer`: the course of an optimization, the left-bottom-fill construction of an initial placement, the
  fixed obstacles of a warm start, and the least width that a strip needs.
- `src/eval`: the collision loss of a candidate placement, hazard by hazard and over all of them.
- `src/tui`: the dashboard's loop, its keys, the signals that stop an optimization, and what is shown of it.
- `src/layout.rs`, `src/scalar.rs`, `src/equality.rs`, `src/text.rs`: what these are stated over.

Widths, areas and losses are of a number type that the caller chooses. Contracts speak of its operators as relations,
so they hold of rounding types. A law that needs more of the numbers says so in its premises: that comparisons go by a
number behind each value, that results do not shrink as operands grow, or that they are exact.

`app/` drives the library with the geometry of `jagua-rs`, threads, a terminal and files. The search for places, the
quantification of collisions, the two phases and the look of the dashboard are traits there.
