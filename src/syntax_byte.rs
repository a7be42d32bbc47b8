use vstd::prelude::*;

verus! {

/// The syntactic class of one input byte, used to group bytes for display.
/// It carries no decoding semantics.
#[derive(Clone, Copy, Debug, PartialEq, Eq, Structural)]
pub enum SyntaxClass {
    Amf0NumberMarker,
    Amf0Number,
    Amf0BoolMarker,
    Amf0BoolTrue,
    Amf0BoolFalse,
    Amf0StringMarker,
    Amf0String,
    Amf0ObjectMarker,
    /// A key of an AMF0 object, with the nesting depth at which it was read.
    Amf0ObjectKey(u64),
    Amf0Null,
    Amf0TypedObjectMarker,
    /// The class name of an AMF0 typed object, with its nesting depth.
    Amf0TypedObjectName(u64),
    Amf0SwitchMarker,
    Amf0Unknown,
    Amf3Null,
    Amf3False,
    Amf3True,
    Amf3Integer,
    Amf3String,
    Amf3Array,
    Amf3Object,
    Amf3Unknown,
    Error,
}

/// One consumed input byte, the id of the value that owns it, and its class.
#[derive(Clone, Copy, Debug, PartialEq, Eq, Structural)]
pub struct SyntaxByte {
    pub value: u8,
    pub object_id: isize,
    pub color: SyntaxClass,
}

} // verus!
