# kernel

The geometry kernel of a browser-based parametric CAD system: a
boundary-representation (B-rep) half-edge structure, the Euler operators
(`mvfs`, `mev`, `mef`) that build it one valid step at a time, polygon-soup
and operator-built cubes, and fan tessellation for display. The library is
written in Verus: every function carries a contract and is proved.

## Layout

| Path                | What it is                                                        |
| ------------------- | ----------------------------------------------------------------- |
| `src/topology.rs`   | Half-edge arenas, loop walking, polygon soup (`from_polygons`).    |
| `src/euler.rs`      | `mvfs`, `mev`, `mef`, `find_in_face`, `validate`.                  |
| `src/laws.rs`       | What the operators preserve: validity, `V - E + F = 2`, closure,   |
|                     | the loops `mev` and `mef` leave, and any sequence of steps.        |
| `src/soup.rs`       | What `from_polygons` builds: face loops, twins, closure.           |
| `src/primitives.rs` | The polygon cube and the Euler-operator cube, and that they match. |
| `src/cube_build.rs` | The intermediate states of the Euler-operator cube.                |
| `src/tessellate.rs` | Shell to flat-shaded triangle mesh.                                |
| `app/`              | `f64` points, Newell normals and the WebAssembly entry points.     |
| `tests/`            | Scenario tests of the library.                                     |

The shell is generic over its point type: the verified connectivity never
looks inside a position. Floating-point work (the vector type, cube corner
coordinates, face normals) lives in `app/`, which hands the library corner
positions and the coordinate and normal functions that tessellation calls.
