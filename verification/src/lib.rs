//! A boundary-representation kernel: half-edge topology, the Euler operators
//! that build it, primitive solids, and fan tessellation for display.
//!
//! Module map:
//!   - `topology`   - the half-edge connectivity structure (the shell)
//!   - `euler`      - the Euler operators and the structural check
//!   - `laws`       - what the operators preserve
//!   - `soup`       - what `from_polygons` builds from polygon soup
//!   - `primitives` - constructors for basic solids
//!   - `cube_build` - the intermediate states of the Euler-built cube
//!   - `tessellate` - shell to triangle mesh
pub mod cube_build;
pub mod euler;
pub mod laws;
pub mod primitives;
pub mod soup;
pub mod tessellate;
pub mod topology;
