//! Decoder for the Action Message Format (AMF0 and AMF3).
//!
//! A decode pass turns a byte buffer into a graph of typed values indexed by
//! id, and a parallel stream that annotates every consumed byte with the value
//! that owns it and the syntactic class it belongs to.
pub mod amf3_object;
pub mod amf_highlight;
pub mod laws;
pub mod model;
pub mod object_info;
pub mod object_properties;
pub mod object_type;
pub mod syntax_byte;
pub mod text;

pub use amf3_object::AmfObject;
pub use amf_highlight::AMFReader;

pub use object_info::ObjectInfo;
pub use object_properties::{GenericProperties, ObjectProperties, TypeProperties};
pub use object_type::ObjectType;
pub use syntax_byte::{SyntaxByte, SyntaxClass};
