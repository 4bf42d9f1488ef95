//! Serialization of an element tree into XML text.
//!
//! The tree is handed over as the events of a walk: the start of an element
//! with its attributes, its children, its end. The serializer decides which
//! prefix stands for each namespace, which namespace declarations are
//! written and which are left out, and it refuses what could not be read
//! back as it was.

pub mod content;
pub mod element;
pub mod error;
pub mod escape;
pub mod names;
pub mod prefix_map;
pub mod serialize;
pub mod tag;
pub mod text;
pub mod util;

pub use error::SerializeError;
pub use names::{is_void_element, Attribute, EqStr, LocalName, Namespace, Prefix, QualName};
pub use prefix_map::NamespacePrefixMap;
pub use serialize::{serialize, Event, SerializeOpts, TraversalScope, XmlSerializer};
