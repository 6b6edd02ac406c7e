//! Typed failures returned by position-setting operations.

use vstd::prelude::*;

verus! {

/// Spec-level image of a [`JointError`], with each `String` abstracted to its
/// character sequence.
pub ghost enum JointErrorView {
    OutOfLimits { joint_name: Seq<char>, position: i64, min: i64, max: i64 },
    SetToFixed { joint_name: Seq<char> },
    Mimic { from: Seq<char>, to: Seq<char>, message: Seq<char> },
}

/// An error raised while setting a joint position.
///
/// Every failure is returned to the immediate caller; nothing in this crate
/// panics or retries.
#[derive(Debug, Clone)]
pub enum JointError {
    /// The requested position lies outside the joint's inclusive limit range.
    OutOfLimitError { joint_name: String, position: i64, min: i64, max: i64 },
    /// The joint's type admits no position degree of freedom.
    SetToFixedError { joint_name: String },
    /// A mimic child was reached whose mimic law is missing.
    MimicError { from: String, to: String, message: String },
}

impl View for JointError {
    type V = JointErrorView;

    open spec fn view(&self) -> JointErrorView {
        match self {
            JointError::OutOfLimitError { joint_name, position, min, max } => (
                JointErrorView::OutOfLimits {
                    joint_name: joint_name@,
                    position: *position,
                    min: *min,
                    max: *max,
                }
            ),
            JointError::SetToFixedError { joint_name } => (
                JointErrorView::SetToFixed { joint_name: joint_name@ }
            ),
            JointError::MimicError { from, to, message } => (
                JointErrorView::Mimic { from: from@, to: to@, message: message@ }
            ),
        }
    }
}

} // verus!
