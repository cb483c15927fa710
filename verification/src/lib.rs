//! Rank-1 constraint systems over the BLS12-381 scalar field, and two
//! arithmetic relations flattened into them.
//!
//! A relation is written once, as a [`circuit::Circuit`], against a
//! [`system::ConstraintSystem`]: it allocates variables, private or public,
//! and enforces constraints `a * b = c` between linear combinations of them.
//! The same code runs in a setup pass, which records the structure alone, and
//! in a witness pass, which records the value of every variable as well.
//! A proving backend replays what was recorded; [`driver`] holds the passes
//! it needs.
//!
//! The two relations are [`multiply::MultiplyDemo`], a single constraint, and
//! [`cube::CubeDemo`], a cubic polynomial that takes a chain of temporaries.

pub mod circuit;
pub mod cube;
pub mod driver;
pub mod error;
pub mod field;
pub mod lc;
pub mod multiply;
pub mod system;
pub mod variable;
