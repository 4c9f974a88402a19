use vstd::prelude::*;

verus! {

/// Everything a checkpoint-queue operation can fail with.
#[derive(Clone, Copy, Debug, PartialEq, Eq, Structural)]
pub enum Error {
    /// A logical index outside the window the queue currently holds.
    IndexOutOfBounds,
    /// The estimated fee exceeds the value the batch carries.
    InsufficientFee,
    /// A signature batch ran out before every pending slot was served.
    NotEnoughSignatures,
    /// A signature batch had entries left over after the last slot.
    ExcessSignatures,
    /// An input's collector rejected a supplied signature.
    InvalidSignature,
    /// The operation needs a checkpoint in a different phase.
    WrongCheckpointStatus,
    /// Appending would push the checkpoint past its input or output cap.
    CheckpointFull,
    /// A sum or product no longer fits the word it is kept in.
    Overflow,
    /// An extended public key could not be decoded or child-derived.
    Bip32Derivation,
}

} // verus!
