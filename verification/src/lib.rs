//! A binding compiler for an embedded script virtual machine.
//!
//! Host methods are described by signature shapes; the classifier turns each
//! shape into a binding descriptor, the collector gathers the descriptors of a
//! declaration site (accumulating every diagnostic), and the dispatch layer
//! registers the validated descriptors in a symbolic table and threads dynamic
//! arguments into host calls. A typed-index arena backs the entities whose
//! properties the generated accessors expose.

pub mod bindings;
pub mod dispatch;
pub mod entity;
pub mod invoke;
pub mod signature;
