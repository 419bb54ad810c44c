# remsol

Guided electromagnetic modes of 1D planar multilayer (slab waveguide) stacks.

- `src/` is the verified library: the enums that configure the solver, the
  structure (`MultiLayer<L>`) and the rules that build it from layers and PEC
  wall markers, the layout of the transfer- and scattering-matrix walks across
  the stack (`assembly`), the solver's decisions (`solver`), placing per-layer
  data on the plotting grid (`grid`) and root de-duplication (`roots`).
- `app/` holds the floating-point numerics (complex wavevectors, matrices,
  mode searches, field reconstruction), the Python module and the command
  line, built on the library.
- `tests/` exercises the library.
