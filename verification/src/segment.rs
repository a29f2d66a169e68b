//! The segment tree the directive splitter builds: runs of plain markdown and
//! directives with their own segmented children.
use vstd::prelude::*;
use crate::ast::{Attrs, AttrsV};

verus! {

/// A run of plain markdown text, or a directive with its own segmented children.
#[derive(Debug, PartialEq, Eq)]
pub enum Segment {
    Text(String),
    Directive { name: String, attrs: Attrs, children: Vec<Segment> },
}

pub enum SegV {
    Text(Seq<char>),
    Directive { name: Seq<char>, attrs: AttrsV, children: Seq<SegV> },
}

pub open spec fn seg_v(s: Segment) -> SegV
    decreases s,
{
    match s {
        Segment::Text(t) => SegV::Text(t@),
        Segment::Directive { name, attrs, children } => SegV::Directive {
            name: name@,
            attrs: attrs@,
            children: segs_v(children@),
        },
    }
}

pub open spec fn segs_v(s: Seq<Segment>) -> Seq<SegV>
    decreases s,
{
    if s.len() == 0 {
        Seq::empty()
    } else {
        segs_v(s.drop_last()).push(seg_v(s.last()))
    }
}

pub broadcast proof fn lemma_segs_v(s: Seq<Segment>)
    ensures
        #[trigger] segs_v(s).len() == s.len(),
        forall|k: int| 0 <= k < s.len() ==> #[trigger] segs_v(s)[k] == seg_v(s[k]),
    decreases s.len(),
{
    if s.len() > 0 {
        lemma_segs_v(s.drop_last());
    }
}

} // verus!
