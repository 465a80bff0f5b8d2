//! Moves diagnostic messages from a localization resource into the
//! declarations that use them.
//!
//! The resource file is parsed into entries (`parser`), the entries are
//! gathered into a store with a root entry of every top-level slug
//! (`store`), the declarations of a source file are read as plain
//! descriptions (`syntax`), linked to the declarations that embed them and
//! resolved slug by slug (`visitor`), and the source text is patched with the
//! resolved literals (`rewrite`).
pub mod text;
pub mod entry;
pub mod parser;
pub mod store;
pub mod rewrite;
pub mod visitor;
pub mod order;
pub mod syntax;
pub mod serialize;
pub mod paths;
pub mod laws;

pub use entry::Entry;
pub use parser::{append_to_string, ParseError, Parser};
pub use rewrite::{replace_attr_name, replace_slug};
pub use serialize::serialize_entries;
pub use syntax::{get_diag_type, get_ty_path, AttrInfo, FieldInfo, ItemInfo, ItemKind, TypeShape, VariantInfo};
pub use visitor::{ErrorStruct, SynVisitor};
