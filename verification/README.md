# bezier_rust

An interactive editor for Bezier curves and closed quadratic splines.

- `src/` is the verified library:
  - `color`: reads `RRGGBB` hex colours, with white as the fallback;
  - `editor`: the control-point editor (grab, add, drag, release, toggles);
  - `raster`: scan-line filling of a closed spline into a grid of cells, with
    the winding rule, and the list of cells to draw;
  - `glyph`: turns a font glyph's outline into control points.
- `app/` holds the window, input, drawing, font loading and the floating-point
  geometry (curve sampling, root finding, hit tests). Run it with `bezier`
  (default), `spline` or `glyph` as its first argument.
- `tests/` exercises the library on concrete values.
