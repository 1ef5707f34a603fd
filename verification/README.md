# spherepack

Integer bookkeeping of a spherical-harmonic toolkit, proved with Verus.

The transforms of the toolkit (scalar and vector analysis and synthesis on
regular and Gaussian grids, the operators built on them, the real FFT) do
their arithmetic in floating point. Everything around that arithmetic is
integer logic: the argument checks each routine makes before it touches data
and the error code each refusal gives, the lengths of the saved tables and of
the scratch arrays, the number of longitudes recovered from a saved table, the
layout of packed spectral coefficients, the index maps between array layouts,
the factorisation of the FFT length, and the split of wavenumbers among
threads. That logic lives in `src/`, each public function with a contract
over spec functions, together with the laws that relate the functions.

Layout:

- `src/tables.rs`, `src/workspace.rs`, `src/advec.rs`: table and scratch lengths.
- `src/nlon_inference.rs`: recovering `nlon` from a saved table's length.
- `src/checks.rs`, `src/vector_checks.rs`, `src/fields.rs`, `src/shapes.rs`:
  argument checks of the scalar and vector routines and of the array shapes.
- `src/spectral.rs`, `src/stacks.rs`, `src/flat.rs`: packed spectral layouts and
  stacked fields.
- `src/gaussian_stored_scalar.rs`, `src/gaussian_stored_vector.rs`,
  `src/legin.rs`: indices into the stored Legendre tables.
- `src/geo2math.rs`, `src/geodesic.rs`, `src/grid.rs`: grid layouts.
- `src/fft.rs`: FFT length factorisation, pass plans and routes.
- `src/parallel.rs`, `src/backend.rs`: work split among threads and backend names.
- `app/`: unverified Python bindings of a few functions (layout
  conversions, the spectral Laplacian and its inverse, smoothing, spectral
  interpolation, the FFT table) built on the library; the spherical-harmonic
  transforms, the FFTs themselves and the operator object are not included.
