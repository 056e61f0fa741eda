// Integer logic of a Monte Carlo path tracer: configuration checks, the depth cap of
// the radiance estimator, how rows are split among render tasks and gathered back in
// order, and the ASCII pixel-map encoding of the result.
pub mod config;
pub mod integrator;
pub mod ppm;
pub mod tiling;
