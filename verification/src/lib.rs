//! Key paths: reusable descriptions of where a field lies within a container
//! type, resolved against live instances without re-deriving the field's byte
//! offset at each access site.
//!
//! A [`KeyPath`] carries a byte offset together with runtime identifiers for
//! its container type and its field type. Paths are built from declared
//! [`layout::TypeLayout`] descriptions, composed end-to-end with
//! [`KeyPath::append`], and applied to byte images of instances through the
//! [`KeyEnter`] trait.

mod key_enter;
mod key_path;
pub mod layout;

pub use key_enter::lemma_composed_resolution;
pub use key_enter::lemma_copy_resolves_identically;
pub use key_enter::lemma_key_then_enter;
pub use key_enter::lemma_write_then_read;
pub use key_enter::Instance;
pub use key_enter::KeyEnter;
pub use key_path::key;
pub use key_path::KeyPath;
pub use key_path::KeyPathError;
pub use key_path::lemma_append_associative;
