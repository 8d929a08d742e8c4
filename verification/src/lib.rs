//! Schema-guided semantic models for Bethesda plugin records: decoded and owned field
//! values, their encoding with record schemas, exact field addresses and the edits made
//! through them, custom decoder registries, and analysis and cleaning results.
pub mod address;
pub mod after_load;
pub mod after_set;
pub mod analysis;
pub mod apply;
pub mod assignment;
pub mod bytes;
pub mod changes;
pub mod cleaning;
pub mod container;
pub mod context;
pub mod convert;
pub mod decoded;
pub mod decoder;
pub mod default_callbacks;
pub mod defaults;
pub mod editing;
pub mod editor;
pub mod editor_address;
pub mod editor_union;
pub mod encode;
pub mod expression;
pub mod external;
pub mod layout;
pub mod local;
pub mod metadata;
pub mod model;
pub mod mutation;
pub mod nested;
pub mod nested_edit;
pub mod parsed_edit;
pub mod presentation;
pub mod record_editor;
pub mod schema;
pub mod scoped;
pub mod text;
pub mod tree;
pub mod value;
