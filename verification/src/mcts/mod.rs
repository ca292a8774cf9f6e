//! Monte-Carlo tree search offloading.

pub mod gpu_rollouts;
