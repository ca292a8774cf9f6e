//! Error types for `mlgraph`.
//!
//! Every error is actionable: the message tells you what went wrong and how
//! to fix it.

use vstd::prelude::*;
use crate::text::{dec_text, push_dec};

verus! {

/// All errors that can occur in the graph optimizer.
#[derive(Debug)]
#[non_exhaustive]
pub enum Error {
    /// An operation received inputs with incompatible shapes.
    ShapeMismatch {
        /// The operation that detected the mismatch.
        op_name: String,
        /// What went wrong.
        reason: String,
    },
    /// A tensor or node referenced by ID does not exist in the graph.
    UnknownId {
        /// What kind of thing was missing ("node" or "tensor").
        kind: &'static str,
        /// The numeric id that was not found.
        id: u32,
    },
    /// A graph construction or optimization step was invalid.
    InvalidGraph {
        /// What went wrong.
        reason: String,
    },
    /// A fusion pattern could not be applied.
    FusionFailed {
        /// The fusion pattern that failed.
        pattern_name: String,
        /// What went wrong.
        reason: String,
    },
}

/// Convenience result type.
pub type Result<T> = std::result::Result<T, Error>;

/// A string holding exactly the text of `s`.
pub fn owned(s: &str) -> (r: String)
    ensures
        r@ == s@,
{
    let mut r = String::new();
    r.append(s);
    r
}

impl Error {
    /// The human-readable message of this error.
    pub open spec fn spec_message(&self) -> Seq<char> {
        match self {
            Error::ShapeMismatch { op_name, reason } =>
                "shape mismatch in '"@ + op_name@ + "': "@ + reason@
                    + ". Fix: verify the tensor shapes flowing into this operation."@,
            Error::UnknownId { kind, id } =>
                "reference to unknown "@ + kind@ + " id "@ + dec_text(*id as nat)
                    + ". Fix: ensure the id was returned by a previous graph operation."@,
            Error::InvalidGraph { reason } => "invalid graph operation: "@ + reason@,
            Error::FusionFailed { pattern_name, reason } =>
                "fusion '"@ + pattern_name@ + "' failed: "@ + reason@
                    + ". Fix: ensure the subgraph matches the expected pattern."@,
        }
    }

    /// Render the message of this error.
    pub fn message(&self) -> (r: String)
        ensures
            r@ == self.spec_message(),
    {
        let mut m = String::new();
        match self {
            Error::ShapeMismatch { op_name, reason } => {
                m.append("shape mismatch in '");
                m.append(op_name.as_str());
                m.append("': ");
                m.append(reason.as_str());
                m.append(". Fix: verify the tensor shapes flowing into this operation.");
            },
            Error::UnknownId { kind, id } => {
                m.append("reference to unknown ");
                m.append(kind);
                m.append(" id ");
                push_dec(&mut m, *id as u64);
                m.append(". Fix: ensure the id was returned by a previous graph operation.");
            },
            Error::InvalidGraph { reason } => {
                m.append("invalid graph operation: ");
                m.append(reason.as_str());
            },
            Error::FusionFailed { pattern_name, reason } => {
                m.append("fusion '");
                m.append(pattern_name.as_str());
                m.append("' failed: ");
                m.append(reason.as_str());
                m.append(". Fix: ensure the subgraph matches the expected pattern.");
            },
        }
        proof {
            assert(m@ =~= self.spec_message());
        }
        m
    }
}

} // verus!
