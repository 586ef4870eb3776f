//! The closed set of values that hooks store and that attachments carry.
//!
//! Hook storage and chain attachments are type-erased: a slot holds "some
//! value of some concrete type". Without runtime reflection the erased value
//! is a closed variant, and the variant tag plays the role of the value's
//! type identity: storage keeps at most one value per tag per owner, and two
//! values of different tags never alias.

use vstd::prelude::*;
use vstd::string::*;

use crate::keys::{TypeKey, ValueTag};
use crate::text::{dec_int, dec_nat, i64_to_string, u64_to_string};

verus! {

/// A type-erased value: one of the closed set of shapes that hooks exchange.
#[derive(Debug, PartialEq)]
pub enum Value {
    /// A signed integer.
    Int(i64),
    /// An unsigned integer.
    Nat(u64),
    /// A boolean.
    Flag(bool),
    /// A text value.
    Text(String),
    /// A captured trace: its rendered text and how many frames it holds.
    Trace {
        /// The trace rendered as text, one frame per line.
        rendered: String,
        /// The number of frames the capture recorded.
        frames: u64,
    },
}

/// The mathematical shape of a [`Value`]: text is a sequence of characters.
pub enum ValueModel {
    /// A signed integer.
    Int(i64),
    /// An unsigned integer.
    Nat(u64),
    /// A boolean.
    Flag(bool),
    /// A text value.
    Text(Seq<char>),
    /// A captured trace.
    Trace {
        /// The trace rendered as text.
        rendered: Seq<char>,
        /// The number of frames the capture recorded.
        frames: u64,
    },
}

impl View for Value {
    type V = ValueModel;

    open spec fn view(&self) -> ValueModel {
        match self {
            Value::Int(i) => ValueModel::Int(*i),
            Value::Nat(n) => ValueModel::Nat(*n),
            Value::Flag(b) => ValueModel::Flag(*b),
            Value::Text(s) => ValueModel::Text(s@),
            Value::Trace { rendered, frames } => ValueModel::Trace {
                rendered: rendered@,
                frames: *frames,
            },
        }
    }
}

impl DeepView for Value {
    type V = ValueModel;

    open spec fn deep_view(&self) -> ValueModel {
        self.view()
    }
}

impl ValueModel {
    /// The tag of this value, its type identity within the closed set.
    pub open spec fn tag(self) -> ValueTag {
        match self {
            ValueModel::Int(_) => ValueTag::Int,
            ValueModel::Nat(_) => ValueTag::Nat,
            ValueModel::Flag(_) => ValueTag::Flag,
            ValueModel::Text(_) => ValueTag::Text,
            ValueModel::Trace { .. } => ValueTag::Trace,
        }
    }
}

/// The tag of a value, its type identity within the closed set.
pub fn value_tag(v: &Value) -> (t: ValueTag)
    ensures
        t == v@.tag(),
{
    match v {
        Value::Int(_) => ValueTag::Int,
        Value::Nat(_) => ValueTag::Nat,
        Value::Flag(_) => ValueTag::Flag,
        Value::Text(_) => ValueTag::Text,
        Value::Trace { .. } => ValueTag::Trace,
    }
}

/// The text that [`value_text`] renders for a value: integers in decimal,
/// booleans as `true` or `false`, text and traces as their own text.
pub open spec fn value_text_spec(v: ValueModel) -> Seq<char> {
    match v {
        ValueModel::Int(i) => dec_int(i as int),
        ValueModel::Nat(n) => dec_nat(n as nat),
        ValueModel::Flag(b) => if b {
            "true"@
        } else {
            "false"@
        },
        ValueModel::Text(s) => s,
        ValueModel::Trace { rendered, .. } => rendered,
    }
}

/// Renders a value as a single piece of text.
pub fn value_text(v: &Value) -> (s: String)
    ensures
        s@ == value_text_spec(v@),
{
    match v {
        Value::Int(i) => i64_to_string(*i),
        Value::Nat(n) => u64_to_string(*n),
        Value::Flag(b) => if *b {
            String::from_str("true")
        } else {
            String::from_str("false")
        },
        Value::Text(s) => String::from_str(s.as_str()),
        Value::Trace { rendered, .. } => String::from_str(rendered.as_str()),
    }
}

/// One node of a diagnostic chain, as the dispatch engine sees it: the
/// identity of the attachment's concrete type, and the attachment itself.
#[derive(Debug)]
pub struct Frame {
    /// The identity of the attachment's concrete type.
    pub key: TypeKey,
    /// The attachment carried by this node.
    pub value: Value,
}

/// The mathematical shape of a [`Frame`].
pub struct FrameModel {
    /// The identity of the attachment's concrete type.
    pub key: TypeKey,
    /// The attachment carried by this node.
    pub value: ValueModel,
}

impl View for Frame {
    type V = FrameModel;

    open spec fn view(&self) -> FrameModel {
        FrameModel { key: self.key, value: self.value@ }
    }
}

impl DeepView for Frame {
    type V = FrameModel;

    open spec fn deep_view(&self) -> FrameModel {
        self.view()
    }
}

} // verus!
