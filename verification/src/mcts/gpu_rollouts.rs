//! Parallel rollout dispatch for Monte-Carlo tree search.
//!
//! Rollouts of a flattened tree are handed to a GPU stream. Each dispatch
//! takes the next stream number from an atomic counter. No device context
//! is available, so a non-empty batch is refused with
//! [`CudaError::ContextAllocationFailed`]; an empty batch needs no device
//! and yields no values.

use vstd::prelude::*;
use std::sync::atomic::{AtomicUsize, Ordering};
use crate::scalar::Float32;

verus! {

/// Dispatches rollouts onto GPU streams, numbering the streams it uses.
pub struct GpuMctsOffloader {
    cu_stream_id: AtomicUsize,
}

/// Failures of the device runtime.
#[derive(Debug)]
pub enum CudaError {
    /// The device is not ready.
    DeviceNotReady,
    /// No device context could be allocated.
    ContextAllocationFailed,
    /// The kernel could not be launched.
    KernelLaunchFailed,
}

impl GpuMctsOffloader {
    /// An offloader whose stream counter starts at zero.
    pub fn new() -> (r: Self) {
        GpuMctsOffloader { cu_stream_id: AtomicUsize::new(0) }
    }

    /// Dispatch one rollout per serialized node. The stream counter is
    /// advanced on every call.
    ///
    /// # Errors
    ///
    /// [`CudaError::ContextAllocationFailed`] for a non-empty batch: no
    /// device context can be allocated.
    pub fn dispatch_warp_rollouts(&self, serialized_nodes: &[u32]) -> (r: std::result::Result<Vec<Float32>, CudaError>)
        ensures
            match r {
                Ok(v) => serialized_nodes@.len() == 0 && v@.len() == 0,
                Err(e) => serialized_nodes@.len() > 0 && e is ContextAllocationFailed,
            },
    {
        let _stream = self.cu_stream_id.fetch_add(1, Ordering::SeqCst);
        if serialized_nodes.len() == 0 {
            return Ok(Vec::new());
        }
        Err(CudaError::ContextAllocationFailed)
    }
}

} // verus!
