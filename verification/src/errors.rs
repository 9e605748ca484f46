use vstd::prelude::*;

verus! {

/// Failures of operations on a single frame's attribute or object table.
#[derive(Clone, Copy, Debug, PartialEq, Eq, Structural)]
pub enum FrameError {
    /// An object with the same id is already owned by the frame.
    ObjectIdCollision,
    /// The object addressed by id is not owned by the frame.
    ObjectNotFound,
    /// A parent id names no object of the frame.
    ParentNotFound,
    /// Setting the parent would close a parentage cycle.
    CyclicParent,
    /// A track box was given without a track id, or a track id without a box.
    TrackInfoMismatch,
}

/// Failures of the pipeline operations. Every failing operation leaves the
/// pipeline unchanged, except `apply_updates`, which keeps the updates it
/// already applied.
#[derive(Clone, Copy, Debug, PartialEq, Eq, Structural)]
pub enum PipelineError {
    /// No stage of that name exists.
    StageNotFound,
    /// A stage of that name already exists.
    DuplicateStage,
    /// Source and destination stage types do not fit the operation.
    StageTypeMismatch,
    /// No payload under that id in the stage.
    PayloadNotFound,
    /// The payload under that id is a frame where a batch was needed, or
    /// the other way round.
    PayloadKindMismatch,
    /// A frame id names no frame inside the batch, or no frame payload in
    /// the destination stage.
    FrameNotFound,
    /// A deferred update could not be applied to its frame.
    UpdateFailed(FrameError),
}

/// Failures of the persistent queue's transition logic.
#[derive(Clone, Copy, Debug, PartialEq, Eq, Structural)]
pub enum QueueError {
    /// The queue already holds `max_elements` items.
    QueueFull,
    /// A persisted index cell did not hold exactly sixteen bytes, or
    /// held an index outside the ring.
    BadIndexCell,
    /// The ring size or the element bound is unusable.
    BadConfiguration,
}

/// Failures of the user-function registry.
#[derive(Clone, Copy, Debug, PartialEq, Eq, Structural)]
pub enum UdfError {
    /// The symbol is not among the functions this build carries.
    UnknownSymbol,
    /// No function is registered under the name.
    NotRegistered,
    /// The registered function has another kind than the call site needs.
    KindMismatch,
}

} // verus!
