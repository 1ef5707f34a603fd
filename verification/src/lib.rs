pub mod advec;
pub mod backend;
pub mod checks;
pub mod fft;
pub mod fields;
pub mod flat;
pub mod grid;
pub mod legin;
pub mod nlon_inference;
pub mod parallel;
pub mod shapes;
pub mod size;
pub mod spectral;
pub mod stacks;
pub mod tables;
pub mod vector_checks;
pub mod workspace;
pub mod gaussian_stored_scalar;
pub mod geo2math;
pub mod geodesic;
pub mod gaussian_stored_vector;
pub mod plan_laws;
