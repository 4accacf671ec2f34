pub mod percent;
pub mod quicksort;
pub mod sampler;
pub mod vectors;
