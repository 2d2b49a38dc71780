//! An index over a vault of notes: the folder tree, the notes with their tags
//! and front-matter properties, and a small query language over tags.
//!
//! The index is built entry by entry, in the order a walk of the vault's
//! directories meets them: `VaultIndex::with_root`, then `add_folder`,
//! `add_note` and `add_file` under the tree index of the folder that holds
//! each entry. Notes and files are then found by name or by relative path,
//! and `VaultIndex::query` answers `LIST FROM` queries over tags.

mod chars;
pub mod dataview;
pub mod front_matter;
pub mod order;
pub mod query;
pub mod slots;
pub mod tags;
pub mod tree;
pub mod vault;

pub use dataview::{EvalError, ListItem, QueryOutput, QueryStruct, QueryStructType, Table, to_view};
pub use front_matter::{Number, Property, YamlNode};
pub use query::{DataSource, Expr};
pub use tree::{ItemType, Tree, TreeNode};
pub use vault::{EntryKind, FileItem, FolderItem, NoteItem, VaultIndex, VaultItem};
