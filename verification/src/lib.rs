//! alt-markdown: a strict superset of CommonMark with a curated set of
//! components, rendered to safe HTML with a static fallback for every component.
//!
//! The syntax tree ([`ast`]) is produced by the parser ([`parser`]), rendered by
//! [`render`], written back by [`serializer`], and read for an AI edit policy by
//! [`policy`]. The entry points are in [`api`].

pub mod ast;
pub mod text;
pub mod attrs;
pub mod registry;
pub mod cm;
pub mod decode;
pub mod segment;
pub mod directive;
pub mod ext;
pub mod parser;
pub mod html;
pub mod prepass;
pub mod sanitize;
pub mod render;
pub mod inert;
pub mod policy;
pub mod serializer;
pub mod api;
pub mod splice;
pub mod title;

pub use api::{normalise, parse, render, to_source, CoreError, ParseError};
pub use ast::{
    Alignment, AstError, Attrs, Block, Component, ComponentBody, Document, Inline, List,
    ListItem, Span, Table,
};
pub use attrs::parse_attrs;
pub use cm::{render_html, MAX_NESTING_DEPTH};
pub use decode::parse_commonmark_blocks;
pub use parser::{CommonMarkParser, Parser};
pub use policy::{extract_policy, AiPolicy, Permission};
pub use render::render_document;
pub use sanitize::{sanitize, SanitizeError};
pub use serializer::{MarkdownSerializer, Serializer};
pub use splice::{check_request, check_target, include_sources, splice_includes, IncludeError, MAX_INCLUDE_DEPTH};
pub use title::{document_title, escape_title};
pub use prepass::slugify;
