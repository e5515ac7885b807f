//! Translation of machine-readable checker diagnostics into the
//! diagnostic model of an editor-facing protocol: span resolution
//! through macro expansion chains, classification of child diagnostics,
//! and aggregation into one protocol diagnostic per primary span.

pub mod checker;
pub mod codegen;
pub mod lsp;
pub mod spans;
pub mod text;
pub mod to_proto;
pub mod uri;
