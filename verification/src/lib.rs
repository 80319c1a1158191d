pub mod allocation;
pub mod boxed_slice2d;
pub mod candidate;
pub mod data;
pub mod genetic;
pub mod rng;
pub mod util;
