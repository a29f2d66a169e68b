//! The alt-markdown parser: directives are split out of the source, each run of
//! plain markdown is parsed by the CommonMark engine, and the inline
//! extensions are read out of the text.
use vstd::prelude::*;
use crate::ast::{AstError, Block, BlockV, Document, blocks_v};
use crate::decode::err_v;
use crate::directive::{seg_blocks, segments_to_blocks, split_directives, split_spec};
use crate::ext::{ext_blocks_of, extend, notes_of_blocks};
use crate::text::strs_v;

verus! {

broadcast use crate::ast::group_views;

/// What parsing `source` gives: the directive split, the blocks of each segment,
/// then the inline extensions; or the first error met.
pub open spec fn parse_spec(source: Seq<char>) -> Result<Seq<BlockV>, Seq<char>> {
    match split_spec(source) {
        Err(m) => Err(m),
        Ok(segs) => match seg_blocks(segs) {
            Err(m) => Err(m),
            Ok(bs) => Ok(extend(bs)),
        },
    }
}

/// Produces an alt-markdown [`Document`] from source text.
pub trait Parser {
    /// Parse `source` into a [`Document`].
    fn parse(&self, source: &str) -> Result<Document, AstError>;
}

/// The CommonMark parser with the alt-markdown extensions.
#[derive(Debug, Clone, Copy)]
pub struct CommonMarkParser;

impl CommonMarkParser {
    /// Create a new parser.
    pub fn new() -> (p: Self) {
        CommonMarkParser
    }

    /// Parse `source` into a [`Document`].
    pub fn parse_source(&self, source: &str) -> (r: Result<Document, AstError>)
        ensures
            match r {
                Ok(d) => parse_spec(source@) == Ok::<Seq<BlockV>, Seq<char>>(d@),
                Err(e) => parse_spec(source@) == Err::<Seq<BlockV>, Seq<char>>(err_v(e)),
            },
    {
        let segs = split_directives(source)?;
        let blocks = segments_to_blocks(&segs)?;
        let mut names: Vec<String> = Vec::new();
        notes_of_blocks(&blocks, &mut names);
        assert(strs_v(names@) =~= crate::ext::notes_blocks(blocks_v(blocks@)));
        let blocks = ext_blocks_of(blocks, &names);
        Ok(Document { blocks })
    }
}

impl Parser for CommonMarkParser {
    fn parse(&self, source: &str) -> (r: Result<Document, AstError>)
        ensures
            match r {
                Ok(d) => parse_spec(source@) == Ok::<Seq<BlockV>, Seq<char>>(d@),
                Err(e) => parse_spec(source@) == Err::<Seq<BlockV>, Seq<char>>(err_v(e)),
            },
    {
        self.parse_source(source)
    }
}

} // verus!
