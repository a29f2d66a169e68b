//! Colon directives: splitting a source into runs of plain markdown and nested
//! `:::name{attrs} ... :::` containers, and turning that split into blocks.
//!
//! A directive opens with three or more colons and a name, and closes with a
//! line of the same number of colons, innermost first, so directives nest.
use vstd::prelude::*;
use crate::ast::{
    Attrs, AttrsV, AstError, Block, BlockV, BodyV, Component, ComponentBody, blocks_v,
};
use crate::attrs::{attrs_of, parse_attrs_in};
use crate::segment::{Segment, SegV, seg_v, segs_v};
use crate::cm::{MAX_NESTING_DEPTH, comrak_tree, gfm};
use crate::decode::{dec_document, err_v, parse_commonmark_blocks};
use crate::registry::{Kind, lookup, registry};
use crate::text::{
    char_is_alphabetic, char_is_alphanumeric, chars_of, line_bounds, lines, push_char,
    skip_ws, skip_ws_back, string_of, trim, trim_bounds, trim_end, trim_start, unicode_alphabetic,
    unicode_alphanumeric, lead_ws, trail_ws,
};

verus! {

broadcast use {crate::ast::group_views, crate::segment::lemma_segs_v};

/// The number of colons that start `s`.
pub open spec fn colon_run(s: Seq<char>) -> nat
    decreases s.len(),
{
    if s.len() > 0 && s[0] == ':' {
        1 + colon_run(s.drop_first())
    } else {
        0
    }
}

/// A character of a directive name: a letter or digit (for ASCII, `A-Z`,
/// `a-z`, `0-9`; beyond it, as `char::is_alphanumeric` decides), `-` or `_`.
pub open spec fn is_name_char(c: char) -> bool {
    if (c as u32) < 128 {
        crate::text::is_ascii_alnum(c) || c == '-' || c == '_'
    } else {
        unicode_alphanumeric(c)
    }
}

/// A letter that may start a directive name (for ASCII, `A-Z` and `a-z`;
/// beyond it, as `char::is_alphabetic` decides).
pub open spec fn is_name_start(c: char) -> bool {
    if (c as u32) < 128 {
        crate::text::is_ascii_alpha(c)
    } else {
        unicode_alphabetic(c)
    }
}

/// The length of the run of name characters that starts `s`.
pub open spec fn name_run(s: Seq<char>) -> nat
    decreases s.len(),
{
    if s.len() > 0 && is_name_char(s[0]) {
        1 + name_run(s.drop_first())
    } else {
        0
    }
}

/// A directive's opening line: three or more colons, a name that starts with a
/// letter and goes on with letters, digits, `-` and `_`, and an optional
/// attribute block. The result is the colon count, the name and the attributes.
pub open spec fn open_line(line: Seq<char>) -> Option<(nat, Seq<char>, AttrsV)> {
    let t = trim_end(line);
    let c = colon_run(t);
    if c < 3 {
        None
    } else {
        let rest = trim_start(t.skip(c as int));
        let name = rest.take(name_run(rest) as int);
        if name.len() == 0 || !is_name_start(name[0]) {
            None
        } else {
            Some((c, name, attrs_of(trim(rest.skip(name.len() as int)))))
        }
    }
}

/// A directive's closing line: three or more colons and nothing else. The
/// result is the colon count.
pub open spec fn close_line(line: Seq<char>) -> Option<nat> {
    let t = trim(line);
    if t.len() >= 3 && (forall|k: int| 0 <= k < t.len() ==> t[k] == ':') {
        Some(t.len())
    } else {
        None
    }
}

pub proof fn lemma_colon_exact(s: Seq<char>, n: int)
    requires
        0 <= n <= s.len(),
        forall|k: int| 0 <= k < n ==> #[trigger] s[k] == ':',
        n < s.len() ==> s[n] != ':',
    ensures
        colon_run(s) == n,
    decreases n,
{
    if n > 0 {
        assert forall|k: int| 0 <= k < n - 1 implies #[trigger] s.drop_first()[k] == ':' by {
            assert(s.drop_first()[k] == s[k + 1]);
        }
        if n < s.len() {
            assert(s.drop_first()[n - 1] == s[n]);
        }
        lemma_colon_exact(s.drop_first(), n - 1);
    }
}

pub proof fn lemma_name_exact(s: Seq<char>, n: int)
    requires
        0 <= n <= s.len(),
        forall|k: int| 0 <= k < n ==> is_name_char(#[trigger] s[k]),
        n < s.len() ==> !is_name_char(s[n]),
    ensures
        name_run(s) == n,
    decreases n,
{
    if n > 0 {
        assert forall|k: int| 0 <= k < n - 1 implies is_name_char(#[trigger] s.drop_first()[k]) by {
            assert(s.drop_first()[k] == s[k + 1]);
        }
        if n < s.len() {
            assert(s.drop_first()[n - 1] == s[n]);
        }
        lemma_name_exact(s.drop_first(), n - 1);
    }
}

/// Recognise a directive's opening line `s[from..to]`.
pub fn parse_open(s: &[char], from: usize, to: usize) -> (r: Option<(usize, String, Attrs)>)
    requires
        from <= to <= s@.len(),
    ensures
        match r {
            Some((c, name, attrs)) => open_line(s@.subrange(from as int, to as int)) == Some(
                (c as nat, name@, attrs@),
            ),
            None => open_line(s@.subrange(from as int, to as int)) is None,
        },
{
    let ghost line = s@.subrange(from as int, to as int);
    let b = skip_ws_back(s, from, to);
    let ghost t = s@.subrange(from as int, b as int);
    assert(trim_end(line) =~= t);
    let mut c = from;
    while c < b && s[c] == ':'
        invariant
            from <= c <= b <= to <= s@.len(),
            forall|k: int| from <= k < c ==> s@[k] == ':',
        decreases b - c,
    {
        c = c + 1;
    }
    proof {
        assert forall|k: int| 0 <= k < c - from implies #[trigger] t[k] == ':' by {
            assert(t[k] == s@[from + k]);
        }
        if c < b {
            assert(t[c - from] == s@[c as int]);
        }
        lemma_colon_exact(t, c - from);
    }
    if c - from < 3 {
        return None;
    }
    let r0 = skip_ws(s, c, b);
    let ghost rest = s@.subrange(r0 as int, b as int);
    assert(t.skip(c - from) =~= s@.subrange(c as int, b as int));
    assert(trim_start(t.skip(c - from)) =~= rest);
    let mut e = r0;
    while e < b && (char_is_alphanumeric(s[e]) || s[e] == '-' || s[e] == '_')
        invariant
            r0 <= e <= b <= s@.len(),
            forall|k: int| r0 <= k < e ==> is_name_char(#[trigger] s@[k]),
        decreases b - e,
    {
        e = e + 1;
    }
    proof {
        assert forall|k: int| 0 <= k < e - r0 implies is_name_char(#[trigger] rest[k]) by {
            assert(rest[k] == s@[r0 + k]);
        }
        if e < b {
            assert(rest[e - r0] == s@[e as int]);
        }
        lemma_name_exact(rest, e - r0);
        assert(rest.take(e - r0) =~= s@.subrange(r0 as int, e as int));
        assert(rest.skip(e - r0) =~= s@.subrange(e as int, b as int));
    }
    if e == r0 || !char_is_alphabetic(s[r0]) {
        return None;
    }
    let name = string_of(s, r0, e);
    let (x, y) = trim_bounds(s, e, b);
    let attrs = parse_attrs_in(s, x, y);
    Some((c - from, name, attrs))
}

/// Recognise a directive's closing line `s[from..to]`.
pub fn parse_close(s: &[char], from: usize, to: usize) -> (r: Option<usize>)
    requires
        from <= to <= s@.len(),
    ensures
        match r {
            Some(c) => close_line(s@.subrange(from as int, to as int)) == Some(c as nat),
            None => close_line(s@.subrange(from as int, to as int)) is None,
        },
{
    let (a, b) = trim_bounds(s, from, to);
    let ghost t = s@.subrange(a as int, b as int);
    if b - a < 3 {
        return None;
    }
    let mut k = a;
    while k < b
        invariant
            a <= k <= b <= s@.len(),
            t == s@.subrange(a as int, b as int),
            t == trim(s@.subrange(from as int, to as int)),
            forall|j: int| a <= j < k ==> s@[j] == ':',
        decreases b - k,
    {
        if s[k] != ':' {
            assert(t[k - a] != ':');
            assert(!(forall|j: int| 0 <= j < t.len() ==> t[j] == ':'));
            return None;
        }
        k = k + 1;
    }
    assert forall|j: int| 0 <= j < t.len() implies t[j] == ':' by {
        assert(t[j] == s@[a + j]);
    }
    Some(b - a)
}

/// A directive frame on the splitter's stack. The root frame has no colons.
pub struct Frame {
    pub name: String,
    pub attrs: Attrs,
    pub colons: usize,
    pub segments: Vec<Segment>,
    pub text: Vec<String>,
}

pub struct FrameV {
    pub name: Seq<char>,
    pub attrs: AttrsV,
    pub colons: nat,
    pub segments: Seq<SegV>,
    pub text: Seq<Seq<char>>,
}

pub open spec fn frame_v(f: Frame) -> FrameV {
    FrameV {
        name: f.name@,
        attrs: f.attrs@,
        colons: f.colons as nat,
        segments: segs_v(f.segments@),
        text: f.text@.map_values(|x: String| x@),
    }
}

pub open spec fn stack_v(s: Seq<Frame>) -> Seq<FrameV> {
    s.map_values(|f: Frame| frame_v(f))
}

pub open spec fn root_v() -> FrameV {
    FrameV {
        name: Seq::empty(),
        attrs: AttrsV::empty(),
        colons: 0,
        segments: Seq::empty(),
        text: Seq::empty(),
    }
}

/// Lines joined with `\n` between them.
pub open spec fn join_lines(t: Seq<Seq<char>>) -> Seq<char>
    decreases t.len(),
{
    if t.len() == 0 {
        Seq::empty()
    } else if t.len() == 1 {
        t[0]
    } else {
        join_lines(t.drop_last()) + seq!['\n'] + t.last()
    }
}

/// The frame with its pending text lines turned into one text segment.
pub open spec fn flush(f: FrameV) -> FrameV {
    if f.text.len() == 0 {
        f
    } else {
        FrameV {
            segments: f.segments.push(SegV::Text(join_lines(f.text))),
            text: Seq::empty(),
            ..f
        }
    }
}

/// The stack after the top directive closes into its parent.
pub open spec fn close_top(s: Seq<FrameV>) -> Seq<FrameV> {
    let f = flush(s.last());
    let p = s[s.len() - 2];
    s.drop_last().drop_last().push(
        FrameV {
            segments: p.segments.push(
                SegV::Directive { name: f.name, attrs: f.attrs, children: f.segments },
            ),
            ..p
        },
    )
}

/// One line of input. `None` is the depth error.
pub open spec fn split_step(st: Option<Seq<FrameV>>, line: Seq<char>) -> Option<Seq<FrameV>> {
    match st {
        None => None,
        Some(s) => if s.len() == 0 {
            Some(s)
        } else {
            match open_line(line) {
                Some((c, name, attrs)) => if s.len() > MAX_NESTING_DEPTH {
                    None
                } else {
                    Some(
                        s.update(s.len() - 1, flush(s.last())).push(
                            FrameV {
                                name,
                                attrs,
                                colons: c,
                                segments: Seq::empty(),
                                text: Seq::empty(),
                            },
                        ),
                    )
                },
                None => if close_line(line) is Some && s.len() >= 2 && s.last().colons == close_line(
                    line,
                )->0 {
                    Some(close_top(s))
                } else {
                    Some(s.update(s.len() - 1, FrameV { text: s.last().text.push(line), ..s.last() }))
                },
            }
        },
    }
}

pub open spec fn split_run(ls: Seq<Seq<char>>) -> Option<Seq<FrameV>>
    decreases ls.len(),
{
    if ls.len() == 0 {
        Some(seq![root_v()])
    } else {
        split_step(split_run(ls.drop_last()), ls.last())
    }
}

pub proof fn lemma_split_none(ls: Seq<Seq<char>>, j: int)
    requires
        0 <= j <= ls.len(),
        split_run(ls.take(j)) is None,
    ensures
        split_run(ls) is None,
    decreases ls.len() - j,
{
    if j < ls.len() {
        assert(ls.take(j + 1).drop_last() =~= ls.take(j));
        lemma_split_none(ls, j + 1);
    } else {
        assert(ls.take(j) =~= ls);
    }
}

/// The segments of `source`; an error when directives nest deeper than
/// [`MAX_NESTING_DEPTH`] or one is left unclosed.
pub open spec fn split_spec(source: Seq<char>) -> Result<Seq<SegV>, Seq<char>> {
    match split_run(lines(source)) {
        None => Err("directive nesting exceeds the maximum depth of 256"@),
        Some(s) => if s.len() != 1 {
            Err("unclosed directive"@)
        } else {
            Ok(flush(s[0]).segments)
        },
    }
}

/// Join the pending text lines of a frame into one text segment.
pub fn flush_text(f: &mut Frame)
    ensures
        frame_v(*final(f)) == flush(frame_v(*old(f))),
{
    if f.text.len() == 0 {
        assert(frame_v(*f).text =~= Seq::<Seq<char>>::empty());
        return;
    }
    let ghost tv = frame_v(*f).text;
    let mut joined = String::new();
    let mut i: usize = 0;
    while i < f.text.len()
        invariant
            i <= f.text@.len(),
            tv == f.text@.map_values(|x: String| x@),
            joined@ == join_lines(tv.take(i as int)),
        decreases f.text.len() - i,
    {
        if i > 0 {
            push_char(&mut joined, '\n');
        }
        joined.append(f.text[i].as_str());
        proof {
            if i > 0 {
                assert(tv.take(i + 1).drop_last() =~= tv.take(i as int));
            }
        }
        i = i + 1;
    }
    assert(tv.take(tv.len() as int) =~= tv);
    let ghost before = segs_v(f.segments@);
    f.segments.push(Segment::Text(joined));
    f.text = Vec::new();
    assert(segs_v(f.segments@) =~= before.push(SegV::Text(join_lines(tv))));
    assert(frame_v(*f).text =~= Seq::<Seq<char>>::empty());
}

/// Take one line `s[from..to]` into the splitter's stack. False when the line
/// opens a directive past the nesting limit.
pub fn split_line(stack: &mut Vec<Frame>, s: &[char], from: usize, to: usize) -> (ok: bool)
    requires
        old(stack)@.len() >= 1,
        from <= to <= s@.len(),
    ensures
        ok ==> split_step(Some(stack_v(old(stack)@)), s@.subrange(from as int, to as int)) == Some(
            stack_v(final(stack)@),
        ) && final(stack)@.len() >= 1,
        !ok ==> split_step(Some(stack_v(old(stack)@)), s@.subrange(from as int, to as int)) is None,
{
    let ghost line = s@.subrange(from as int, to as int);
    let ghost sv = stack_v(stack@);
    match parse_open(s, from, to) {
        Some((colons, name, attrs)) => {
            if stack.len() > MAX_NESTING_DEPTH {
                return false;
            }
            let mut top = stack.pop().unwrap();
            flush_text(&mut top);
            stack.push(top);
            let fresh = Frame { name, attrs, colons, segments: Vec::new(), text: Vec::new() };
            assert(frame_v(fresh).segments =~= Seq::<SegV>::empty());
            assert(frame_v(fresh).text =~= Seq::<Seq<char>>::empty());
            stack.push(fresh);
            assert(stack_v(stack@) =~= sv.update(sv.len() - 1, flush(sv.last())).push(
                frame_v(fresh),
            ));
        },
        None => {
            let close = parse_close(s, from, to);
            let n = stack.len();
            let closes = match close {
                Some(c) => n >= 2 && stack[n - 1].colons == c,
                None => false,
            };
            if closes {
                let mut f = stack.pop().unwrap();
                flush_text(&mut f);
                let seg = Segment::Directive { name: f.name, attrs: f.attrs, children: f.segments };
                let mut parent = stack.pop().unwrap();
                let ghost pv = frame_v(parent);
                parent.segments.push(seg);
                assert(segs_v(parent.segments@) =~= pv.segments.push(seg_v(seg)));
                stack.push(parent);
                assert(stack_v(stack@) =~= close_top(sv));
            } else {
                let text_line = string_of(s, from, to);
                let mut top = stack.pop().unwrap();
                let ghost tv = frame_v(top);
                top.text.push(text_line);
                assert(frame_v(top).text =~= tv.text.push(line));
                stack.push(top);
                assert(stack_v(stack@) =~= sv.update(
                    sv.len() - 1,
                    FrameV { text: sv.last().text.push(line), ..sv.last() },
                ));
            }
        },
    }
    true
}

/// Split `source` into a tree of text and directive segments. A directive is
/// closed by a colon run of the same length as its opener (innermost first), so
/// directives nest. An unclosed directive is an error, and so is nesting deeper
/// than [`MAX_NESTING_DEPTH`].
pub fn split_directives(source: &str) -> (r: Result<Vec<Segment>, AstError>)
    ensures
        match r {
            Ok(v) => split_spec(source@) == Ok::<Seq<SegV>, Seq<char>>(segs_v(v@)),
            Err(e) => split_spec(source@) == Err::<Seq<SegV>, Seq<char>>(err_v(e)),
        },
{
    let s = chars_of(source);
    let lb = line_bounds(&s);
    let ghost ls = lines(s@);
    let mut stack: Vec<Frame> = Vec::new();
    stack.push(
        Frame {
            name: String::new(),
            attrs: Attrs::new(),
            colons: 0,
            segments: Vec::new(),
            text: Vec::new(),
        },
    );
    proof {
        assert(frame_v(stack@[0]).text =~= Seq::<Seq<char>>::empty());
        assert(frame_v(stack@[0]) == root_v());
        assert(stack_v(stack@) =~= seq![root_v()]);
        assert(ls.take(0) =~= Seq::<Seq<char>>::empty());
    }
    let mut k: usize = 0;
    while k < lb.len()
        invariant
            k <= lb@.len(),
            lb@.len() == ls.len(),
            ls == lines(s@),
            s@ == source@,
            forall|i: int|
                0 <= i < lb@.len() ==> (#[trigger] lb@[i]).0 <= lb@[i].1 <= s@.len() && s@.subrange(
                    lb@[i].0 as int,
                    lb@[i].1 as int,
                ) == ls[i],
            stack@.len() >= 1,
            split_run(ls.take(k as int)) == Some(stack_v(stack@)),
        decreases lb.len() - k,
    {
        let (from, to) = lb[k];
        assert(s@.subrange(from as int, to as int) == ls[k as int]);
        assert(ls.take(k + 1).drop_last() =~= ls.take(k as int));
        assert(ls.take(k + 1).last() == ls[k as int]);
        let ghost before = stack_v(stack@);
        if !split_line(&mut stack, &s, from, to) {
            proof {
                assert(split_run(ls.take(k + 1)) == split_step(Some(before), ls[k as int]));
                assert(split_run(ls.take(k + 1)) is None);
                lemma_split_none(ls, k + 1);
            }
            let mut m = String::new();
            m.append("directive nesting exceeds the maximum depth of 256");
            assert(m@ =~= "directive nesting exceeds the maximum depth of 256"@);
            assert(split_spec(source@) == Err::<Seq<SegV>, Seq<char>>(m@));
            return Err(AstError::Malformed(m));
        }
        k = k + 1;
    }
    assert(ls.take(lb@.len() as int) =~= ls);
    if stack.len() != 1 {
        let mut m = String::new();
        m.append("unclosed directive");
        return Err(AstError::Malformed(m));
    }
    let mut root = stack.pop().unwrap();
    flush_text(&mut root);
    Ok(root.segments)
}

/// The blocks a segment list stands for: text runs parsed as CommonMark, and
/// each directive checked against the registry. An unknown name, or a fence
/// name used as a directive, is a defined error.
pub open spec fn seg_blocks(segs: Seq<SegV>) -> Result<Seq<BlockV>, Seq<char>>
    decreases segs,
{
    if segs.len() == 0 {
        Ok(Seq::empty())
    } else {
        let first: Result<Seq<BlockV>, Seq<char>> = match segs[0] {
            SegV::Text(t) => dec_document(comrak_tree(t, gfm())),
            SegV::Directive { name, attrs, children } => match registry(name) {
                None => Err("unknown directive: "@ + name),
                Some(Kind::Fence) => Err("'"@ + name + "' is not a directive"@),
                Some(Kind::Directive) => match seg_blocks(children) {
                    Ok(bs) => Ok(
                        seq![BlockV::Component { name, attrs, body: BodyV::Children(bs) }],
                    ),
                    Err(m) => Err(m),
                },
            },
        };
        match first {
            Err(m) => Err(m),
            Ok(x) => match seg_blocks(segs.drop_first()) {
                Ok(rest) => Ok(x + rest),
                Err(m) => Err(m),
            },
        }
    }
}

pub open spec fn prepend_all(acc: Seq<BlockV>, r: Result<Seq<BlockV>, Seq<char>>) -> Result<
    Seq<BlockV>,
    Seq<char>,
> {
    match r {
        Ok(bs) => Ok(acc + bs),
        Err(m) => Err(m),
    }
}

/// A copy of attributes.
pub fn copy_attrs(a: &Attrs) -> (r: Attrs)
    ensures
        r@ == a@,
{
    let id = match &a.id {
        Some(x) => Some(x.clone()),
        None => None,
    };
    let mut classes: Vec<String> = Vec::new();
    let mut i: usize = 0;
    while i < a.classes.len()
        invariant
            i <= a.classes@.len(),
            classes@.len() == i,
            forall|k: int| 0 <= k < i ==> (#[trigger] classes@[k])@ == a.classes@[k]@,
        decreases a.classes.len() - i,
    {
        classes.push(a.classes[i].clone());
        i = i + 1;
    }
    let mut pairs: Vec<(String, String)> = Vec::new();
    let mut j: usize = 0;
    while j < a.pairs.len()
        invariant
            j <= a.pairs@.len(),
            pairs@.len() == j,
            forall|k: int| 0 <= k < j ==> (#[trigger] pairs@[k]).0@ == a.pairs@[k].0@ && pairs@[k].1@ == a.pairs@[k].1@,
        decreases a.pairs.len() - j,
    {
        pairs.push((a.pairs[j].0.clone(), a.pairs[j].1.clone()));
        j = j + 1;
    }
    let r = Attrs { id, classes, pairs };
    assert(r@.classes =~= a@.classes);
    assert(r@.pairs =~= a@.pairs);
    r
}

/// Turn a segment tree into block nodes, validating directive names against the
/// registry. An unknown or non-directive name is a defined error, never silent.
pub fn segments_to_blocks(segs: &Vec<Segment>) -> (r: Result<Vec<Block>, AstError>)
    ensures
        match r {
            Ok(v) => seg_blocks(segs_v(segs@)) == Ok::<Seq<BlockV>, Seq<char>>(blocks_v(v@)),
            Err(e) => seg_blocks(segs_v(segs@)) == Err::<Seq<BlockV>, Seq<char>>(err_v(e)),
        },
    decreases segs@,
{
    let ghost sv = segs_v(segs@);
    let mut out: Vec<Block> = Vec::new();
    let mut i: usize = 0;
    proof {
        assert(sv.skip(0) =~= sv);
        match seg_blocks(sv) {
            Ok(bs) => {
                assert(Seq::<BlockV>::empty() + bs =~= bs);
            },
            Err(m) => {},
        }
        assert(blocks_v(out@) =~= Seq::<BlockV>::empty());
    }
    while i < segs.len()
        invariant
            i <= segs@.len(),
            sv == segs_v(segs@),
            seg_blocks(sv) == prepend_all(blocks_v(out@), seg_blocks(sv.skip(i as int))),
        decreases segs.len() - i,
    {
        let ghost acc = blocks_v(out@);
        let ghost rest = sv.skip(i as int);
        assert(rest[0] == seg_v(segs@[i as int]));
        assert(rest.drop_first() =~= sv.skip(i + 1));
        let ghost mut x: Seq<BlockV> = Seq::empty();
        match &segs[i] {
            Segment::Text(t) => {
                let mut bs = parse_commonmark_blocks(t.as_str())?;
                proof {
                    x = blocks_v(bs@);
                }
                let ghost bsv = bs@;
                out.append(&mut bs);
                assert(blocks_v(out@) =~= acc + x) by {
                    assert forall|k: int| 0 <= k < out@.len() implies #[trigger] blocks_v(out@)[k] == (acc + x)[k] by {
                        if k >= acc.len() {
                            assert(out@[k] == bsv[k - acc.len()]);
                        }
                    }
                }
            },
            Segment::Directive { name, attrs, children } => {
                match lookup(name.as_str()) {
                    None => {
                        let mut m = String::new();
                        m.append("unknown directive: ");
                        m.append(name.as_str());
                        return Err(AstError::Malformed(m));
                    },
                    Some(Kind::Fence) => {
                        let mut m = String::new();
                        m.append("'");
                        m.append(name.as_str());
                        m.append("' is not a directive");
                        return Err(AstError::Malformed(m));
                    },
                    Some(Kind::Directive) => {
                        let kids = segments_to_blocks(children)?;
                        let c = Component {
                            name: name.clone(),
                            attrs: copy_attrs(attrs),
                            body: ComponentBody::Children(kids),
                        };
                        let b = Block::Component(c);
                        proof {
                            x = seq![b@];
                        }
                        out.push(b);
                        assert(blocks_v(out@) =~= acc + x);
                    },
                }
            },
        }
        proof {
            match seg_blocks(sv.skip(i + 1)) {
                Ok(bs) => {
                    assert(acc + (x + bs) =~= (acc + x) + bs);
                },
                Err(m) => {},
            }
        }
        i = i + 1;
    }
    proof {
        assert(sv.skip(segs@.len() as int) =~= Seq::<SegV>::empty());
        assert(blocks_v(out@) + Seq::<BlockV>::empty() =~= blocks_v(out@));
    }
    Ok(out)
}

} // verus!
