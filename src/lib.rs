use vstd::prelude::*;

pub use engine::State;

pub mod engine;
pub mod op;
pub mod recon;
pub mod request;
pub mod segment;
pub mod vector;

verus! {

/// One user can have multiple sessions; each session is a single opened editor.
pub type SessionId = u16;

/// After compaction all segments move to this session id; it marks tombstones.
pub const NO_OWNER: SessionId = 0;

pub type TextSize = usize;

pub type TextPosition = usize;

/// Tie-break between two concurrent inserts at the same position.
#[derive(PartialEq, Eq, Structural, Clone, Copy, Debug)]
pub enum ConcurrentOrder {
    This,
    Other,
}

/// Failures that the engine reports instead of corrupting its state.
#[derive(PartialEq, Eq, Structural, Clone, Copy, Debug)]
pub enum ErrorKind {
    /// The request's vector is not causally before the current vector, or its own
    /// counter is not its user's current count.
    OutOfOrderRequest,
    /// A translation target that the log cannot reach.
    UnreachableTarget,
    /// A request whose own counter lies behind its user's current one.
    StaleRequest,
    /// An undo or redo without a partner of the right kind.
    MalformedUndoRedo,
    /// A reversible and a non-reversible delete were to be merged.
    MergeKindMismatch,
    /// A slice range past the end of the buffer.
    SliceOutOfRange,
    /// A splice range past the end of the buffer.
    SpliceOutOfRange,
    /// A non-reversible delete where its bytes are needed.
    NotReversible,
    /// Two inserts at one position and no order between them.
    MissingOrder,
    /// A position or length past the largest `usize`.
    PositionOverflow,
}

} // verus!
