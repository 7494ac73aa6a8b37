# tableau

Inspection of a simplex solver's tableau: snapshots of a solver's system,
what can be read off them, and how they are shown as text. The solver keeps its
rows in dictionary form, `basic = constant + sum(cells[j] * nonbasic_j)`; a
snapshot lays them out as a tableau, with basis symbols on the left, their
costs beside them, the coefficients in the centre and the basic feasible
solution on the right.

Everything in `src/` is proved by Verus, down to the arithmetic: numbers are
binary64 bit patterns with verified rounding, so what a rendering shows is a
function of the solver's state alone.

| modules | what they hold |
|---|---|
| `scale`, `rounding`, `double`, `arith`, `integral`, `exact` | binary64 numbers: the scale of magnitudes, rounding to nearest, arithmetic, integers, and where rounding is exact |
| `digits`, `decimal`, `shortest`, `text` | numbers and other pieces as text |
| `table`, `symbol`, `order` | finite maps, solver symbols, and their display order |
| `options`, `format`, `shown`, `rational` | how numbers and strengths are shown |
| `tableau`, `snapshot` | snapshots: analysis, and how they are taken |
| `grid`, `render`, `trace` | snapshots and recordings as text |
| `laws`, `text_laws`, `words`, `sum_laws` | what holds of every snapshot and every recording |

`app/` holds the conversions from and to `f64` and the formatting traits.
`tests/` drives the library with a small solver and compares its arithmetic and
its texts with the machine's.
