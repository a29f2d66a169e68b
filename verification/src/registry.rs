//! The standard-library component registry: which names are components, and
//! whether each is written as a colon directive or as a fenced block.
use vstd::prelude::*;
use crate::text::str_eq;

verus! {

/// How a component is written.
#[derive(Debug, Clone, Copy, PartialEq, Eq)]
pub enum Kind {
    /// A container directive `:::name ... :::`.
    Directive,
    /// A fenced block whose info string starts with the name.
    Fence,
}

/// The registered components and their syntax.
pub open spec fn registry(name: Seq<char>) -> Option<Kind> {
    if name == "chart"@ || name == "math"@ || name == "diagram"@ || name == "table"@
        || name == "bib"@ {
        Some(Kind::Fence)
    } else if name == "callout"@ || name == "tabs"@ || name == "tab"@ || name == "accordion"@
        || name == "columns"@ || name == "column"@ || name == "embed"@ || name == "sandbox"@
        || name == "toc"@ || name == "figure"@ || name == "references"@ || name == "include"@
        || name == "ai-policy"@ {
        Some(Kind::Directive)
    } else {
        None
    }
}

/// Look a component name up in the registry.
pub fn lookup(name: &str) -> (r: Option<Kind>)
    ensures
        r == registry(name@),
{
    if str_eq(name, "chart") || str_eq(name, "math") || str_eq(name, "diagram") || str_eq(
        name,
        "table",
    ) || str_eq(name, "bib") {
        Some(Kind::Fence)
    } else if str_eq(name, "callout") || str_eq(name, "tabs") || str_eq(name, "tab") || str_eq(
        name,
        "accordion",
    ) || str_eq(name, "columns") || str_eq(name, "column") || str_eq(name, "embed") || str_eq(
        name,
        "sandbox",
    ) || str_eq(name, "toc") || str_eq(name, "figure") || str_eq(name, "references") || str_eq(
        name,
        "include",
    ) || str_eq(name, "ai-policy") {
        Some(Kind::Directive)
    } else {
        None
    }
}

} // verus!
