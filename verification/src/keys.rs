//! Identity tokens used to partition hooks and stored values.
//!
//! A [`TypeKey`] stands for the runtime identity of one concrete attachment
//! type: two keys are equal exactly when they denote the same type. The
//! registry selects hooks by it and the render context partitions its storage
//! by it. Stored values are further keyed by a [`StoreKey`], which is either
//! the tag of a caller-supplied value or the reserved counter slot, so a
//! caller can never collide with the counter that the context keeps for a
//! hook.

use vstd::prelude::*;

verus! {

/// The identity of one concrete attachment type.
///
/// The two trace attachment types rendered by the built-in hooks have keys of
/// their own; every other type is identified by a caller-assigned token,
/// distinct tokens denoting distinct types.
#[derive(Clone, Copy, Debug, PartialEq, Eq, Hash, Structural)]
pub enum TypeKey {
    /// The diagnostic-chain node type itself; the fallback hook runs under it.
    Frame,
    /// A captured stack backtrace.
    Backtrace,
    /// A captured span trace.
    SpanTrace,
    /// Any other concrete type, under a caller-assigned token.
    User(u64),
}

/// The tag of a stored value: which variant of `Value` it is.
///
/// Storage keeps at most one value per tag per owner key, mirroring a
/// dictionary keyed by the value's concrete type.
#[derive(Clone, Copy, Debug, PartialEq, Eq, Hash, Structural)]
pub enum ValueTag {
    /// A signed integer.
    Int,
    /// An unsigned integer.
    Nat,
    /// A boolean.
    Flag,
    /// A text value.
    Text,
    /// A captured trace: rendered text plus a frame count.
    Trace,
}

/// The second-level storage key: a caller value slot, or the reserved slot of
/// the counter that only the increment and decrement operations reach.
#[derive(Clone, Copy, Debug, PartialEq, Eq, Hash, Structural)]
pub enum StoreKey {
    /// The private per-owner counter.
    Counter,
    /// A caller value of the given tag.
    Tagged(ValueTag),
}

} // verus!
