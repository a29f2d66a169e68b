//! The entry points the command-line tool and the browser bindings depend on:
//! parse source to a [`Document`], render it to component-aware HTML, and
//! serialise it back to normalised source.
use vstd::prelude::*;
use crate::ast::{AstError, BlockV, Document};
use crate::decode::err_v;
use crate::parser::{parse_spec, CommonMarkParser};
use crate::inert::{lex, opens_element, Lex};
use crate::render::{render_document, render_v};
use crate::serializer::{to_source_v, MarkdownSerializer};

verus! {

/// Errors that can arise while parsing alt-markdown source.
#[derive(Debug, PartialEq, Eq)]
pub enum ParseError {
    /// The parser could not construct a valid syntax tree.
    Ast(AstError),
}

impl ParseError {
    /// The human-readable description of the error.
    pub fn message(&self) -> (r: String)
        ensures
            r@ == self.msg(),
    {
        match self {
            ParseError::Ast(e) => {
                let mut r = String::new();
                r.append("AST construction failed: ");
                let m = e.message();
                r.append(m.as_str());
                r
            },
        }
    }

    /// The description that [`ParseError::message`] returns.
    pub open spec fn msg(&self) -> Seq<char> {
        match self {
            ParseError::Ast(e) => "AST construction failed: "@ + e.msg(),
        }
    }
}

/// Errors surfaced by the alt-markdown core.
#[derive(Debug, PartialEq, Eq)]
pub enum CoreError {
    /// Parsing failed.
    Parse(ParseError),
}

impl CoreError {
    /// The human-readable description of the error: that of the parse error.
    pub fn message(&self) -> (r: String)
        ensures
            r@ == self.msg(),
    {
        match self {
            CoreError::Parse(e) => e.message(),
        }
    }

    pub open spec fn msg(&self) -> Seq<char> {
        match self {
            CoreError::Parse(e) => e.msg(),
        }
    }
}

/// The syntax-tree message a core error carries.
pub open spec fn core_err_v(e: CoreError) -> Seq<char> {
    match e {
        CoreError::Parse(ParseError::Ast(a)) => err_v(a),
    }
}

/// Parse alt-markdown `source` into a [`Document`].
pub fn parse(source: &str) -> (r: Result<Document, CoreError>)
    ensures
        match r {
            Ok(d) => parse_spec(source@) == Ok::<Seq<BlockV>, Seq<char>>(d@),
            Err(e) => parse_spec(source@) == Err::<Seq<BlockV>, Seq<char>>(core_err_v(e)),
        },
{
    match CommonMarkParser::new().parse_source(source) {
        Ok(d) => Ok(d),
        Err(e) => Err(CoreError::Parse(ParseError::Ast(e))),
    }
}

/// Render alt-markdown `source` to component-aware HTML: parse it, then render
/// components as `alt-<name>` custom elements wrapping their static fallback.
/// The HTML opens no `script` or `iframe` element and begins no event-handler
/// attribute.
pub fn render(source: &str) -> (r: Result<String, CoreError>)
    ensures
        match r {
            Ok(h) => parse_spec(source@) is Ok && h@ == render_v(parse_spec(source@)->Ok_0),
            Err(e) => parse_spec(source@) == Err::<Seq<BlockV>, Seq<char>>(core_err_v(e)),
        },
        r matches Ok(h) ==> !opens_element(h@, "script"@) && !opens_element(h@, "iframe"@) && lex(
            h@,
            Lex::Text,
        ) == Some(Lex::Text),
{
    let d = parse(source)?;
    Ok(render_document(&d))
}

/// Serialise a [`Document`] back to alt-markdown source text. Normalising: the
/// output is not byte-identical to the original source.
pub fn to_source(document: &Document) -> (r: String)
    ensures
        r@ == to_source_v(document@),
{
    MarkdownSerializer::new().to_source(document)
}

/// Normalise alt-markdown `source`: parse it and serialise it back.
pub fn normalise(source: &str) -> (r: Result<String, CoreError>)
    ensures
        match r {
            Ok(s) => parse_spec(source@) is Ok && s@ == to_source_v(parse_spec(source@)->Ok_0),
            Err(e) => parse_spec(source@) == Err::<Seq<BlockV>, Seq<char>>(core_err_v(e)),
        },
{
    let d = parse(source)?;
    Ok(to_source(&d))
}

} // verus!
