//! Serialise an alt-markdown [`Document`] back to source text.
//!
//! This is the second half of the edit round-trip: parse to a syntax tree,
//! edit it, serialise it back. It is normalising, not byte-identical:
//! whitespace, fence widths and emphasis markers are regularised, and text is
//! escaped by the rules CommonMark's own formatter uses, so markdown-significant
//! characters in content come back as literals.
use vstd::prelude::*;
use crate::ast::{
    Alignment, Attrs, AttrsV, Block, BlockV, BodyV, Component, ComponentBody, Document, Inline,
    InlineV, ItemV, List, Table, blocks_v, cells_v, inline_v, inlines_v, items_v, rows_v,
};
use crate::html::{dec, push_dec};
use crate::directive::{
    close_line, close_top, flush, is_name_char, is_name_start, join_lines, open_line, root_v, split_run,
    split_spec, split_step, FrameV,
};
use crate::segment::SegV;
use crate::text::{
    chars_of, is_ascii_alpha, is_ascii_digit, is_ctrl, is_ws, push_char, push_chars, skip_ws_back,
    split_on, trim_end,
};

verus! {

broadcast use crate::ast::group_views;

/// `n` copies of `c`.
pub open spec fn rep(c: char, n: nat) -> Seq<char> {
    Seq::new(n, |i: int| c)
}

/// Append `n` copies of `c`.
pub fn push_rep(out: &mut String, c: char, n: usize)
    ensures
        final(out)@ == old(out)@ + rep(c, n as nat),
{
    let mut i: usize = 0;
    assert(old(out)@ + rep(c, 0) =~= old(out)@);
    while i < n
        invariant
            i <= n,
            out@ == old(out)@ + rep(c, i as nat),
        decreases n - i,
    {
        push_char(out, c);
        i = i + 1;
        assert(out@ =~= old(out)@ + rep(c, i as nat));
    }
}

/// The prefixed form of line `i` of a block of text: `first` before the first
/// line, `rest` before the others, and the prefix trimmed of trailing
/// whitespace on an empty line.
pub open spec fn prefixed(i: int, line: Seq<char>, first: Seq<char>, rest: Seq<char>) -> Seq<char> {
    let p = if i == 0 {
        first
    } else {
        rest
    };
    (if i > 0 {
        seq!['\n']
    } else {
        Seq::empty()
    }) + if line.len() == 0 {
        trim_end(p)
    } else {
        p + line
    }
}

pub open spec fn prefix_pieces(pieces: Seq<Seq<char>>, first: Seq<char>, rest: Seq<char>) -> Seq<char>
    decreases pieces.len(),
{
    if pieces.len() == 0 {
        Seq::empty()
    } else {
        prefix_pieces(pieces.drop_last(), first, rest) + prefixed(
            pieces.len() - 1,
            pieces.last(),
            first,
            rest,
        )
    }
}

/// `text` with its first line prefixed by `first` and every later line by `rest`.
pub open spec fn prefix_lines_v(text: Seq<char>, first: Seq<char>, rest: Seq<char>) -> Seq<char> {
    prefix_pieces(split_on(text, '\n'), first, rest)
}

/// Append line `i` of a block of text, `c[from..to]`, with its prefix.
fn push_prefixed(out: &mut String, c: &Vec<char>, from: usize, to: usize, i: usize, first: &Vec<char>, rest: &Vec<char>)
    requires
        from <= to <= c@.len(),
    ensures
        final(out)@ == old(out)@ + prefixed(i as int, c@.subrange(from as int, to as int), first@, rest@),
{
    if i > 0 {
        push_char(out, '\n');
    }
    let p = if i == 0 {
        first
    } else {
        rest
    };
    if from == to {
        let b = skip_ws_back(p, 0, p.len());
        assert(p@.subrange(0, p@.len() as int) =~= p@);
        push_chars(out, p, 0, b);
    } else {
        push_chars(out, p, 0, p.len());
        push_chars(out, c, from, to);
    }
    assert(p@.subrange(0, p@.len() as int) =~= p@);
    assert(out@ =~= old(out)@ + prefixed(i as int, c@.subrange(from as int, to as int), first@, rest@));
}

/// Prefix the first line of `text` with `first` and every later line with
/// `rest`; an empty line gets the prefix without its trailing whitespace.
pub fn prefix_lines(text: &str, first: &str, rest: &str) -> (r: String)
    ensures
        r@ == prefix_lines_v(text@, first@, rest@),
{
    let c = chars_of(text);
    let f = chars_of(first);
    let rs = chars_of(rest);
    let mut out = String::new();
    let ghost mut done: Seq<Seq<char>> = Seq::empty();
    let mut n: usize = 0;
    let mut cs: usize = 0;
    let mut j: usize = 0;
    assert(c@.take(0) =~= Seq::<char>::empty());
    assert(c@.subrange(0, 0) =~= Seq::<char>::empty());
    assert(split_on(Seq::<char>::empty(), '\n') =~= done.push(Seq::<char>::empty()));
    while j < c.len()
        invariant
            cs <= j <= c@.len(),
            c@ == text@,
            f@ == first@,
            rs@ == rest@,
            n == done.len(),
            n <= j,
            split_on(c@.take(j as int), '\n') == done.push(c@.subrange(cs as int, j as int)),
            out@ == prefix_pieces(done, first@, rest@),
        decreases c.len() - j,
    {
        assert(c@.take(j + 1).drop_last() =~= c@.take(j as int));
        assert(c@.take(j + 1).last() == c@[j as int]);
        if c[j] == '\n' {
            push_prefixed(&mut out, &c, cs, j, n, &f, &rs);
            proof {
                let x = c@.subrange(cs as int, j as int);
                assert(done.push(x).drop_last() =~= done);
                done = done.push(x);
            }
            n = n + 1;
            cs = j + 1;
            assert(c@.subrange(cs as int, cs as int) =~= Seq::<char>::empty());
        } else {
            assert(c@.subrange(cs as int, j + 1) =~= c@.subrange(cs as int, j as int).push(c@[j as int]));
            assert(done.push(c@.subrange(cs as int, j as int)).drop_last() =~= done);
        }
        j = j + 1;
    }
    assert(c@.take(c@.len() as int) =~= c@);
    push_prefixed(&mut out, &c, cs, c.len(), n, &f, &rs);
    proof {
        let x = c@.subrange(cs as int, c@.len() as int);
        assert(done.push(x).drop_last() =~= done);
    }
    out
}

/// The longest run of backticks in `s` and the run that ends it.
pub open spec fn tick_runs(s: Seq<char>) -> (nat, nat)
    decreases s.len(),
{
    if s.len() == 0 {
        (0, 0)
    } else {
        let (m, r) = tick_runs(s.drop_last());
        if s.last() == '`' {
            let r1 = r + 1;
            (if r1 > m {
                r1
            } else {
                m
            }, r1)
        } else {
            (m, 0)
        }
    }
}

pub open spec fn longest_tick_run(s: Seq<char>) -> nat {
    tick_runs(s).0
}

proof fn lemma_tick_runs(s: Seq<char>)
    ensures
        tick_runs(s).1 <= tick_runs(s).0 <= s.len(),
    decreases s.len(),
{
    if s.len() > 0 {
        lemma_tick_runs(s.drop_last());
    }
}

/// The longest run of backticks in `text`.
pub fn longest_backtick_run(text: &str) -> (r: usize)
    ensures
        r == longest_tick_run(text@),
        r <= text@.len(),
{
    let c = chars_of(text);
    let mut max: usize = 0;
    let mut run: usize = 0;
    let mut i: usize = 0;
    assert(c@.take(0) =~= Seq::<char>::empty());
    while i < c.len()
        invariant
            i <= c@.len(),
            c@ == text@,
            (max as nat, run as nat) == tick_runs(c@.take(i as int)),
        decreases c.len() - i,
    {
        assert(c@.take(i + 1).drop_last() =~= c@.take(i as int));
        proof {
            lemma_tick_runs(c@.take(i as int));
        }
        if c[i] == '`' {
            run = run + 1;
            if run > max {
                max = run;
            }
        } else {
            run = 0;
        }
        i = i + 1;
    }
    assert(c@.take(c@.len() as int) =~= c@);
    proof {
        lemma_tick_runs(c@);
    }
    max
}

/// A code fence: one backtick more than the longest run in the body, and at
/// least three.
pub open spec fn fence_of(body: Seq<char>) -> Seq<char> {
    rep('`', (if longest_tick_run(body) > 2 {
        longest_tick_run(body)
    } else {
        2
    }) + 1)
}

/// A fenced body ends with a line break.
pub open spec fn fenced_body(body: Seq<char>) -> Seq<char> {
    if body.len() == 0 || body.last() == '\n' {
        body
    } else {
        body.push('\n')
    }
}

/// A fenced block: the fence and its info string, the body, the fence again.
pub open spec fn fenced_v(head: Seq<char>, body: Seq<char>) -> Seq<char> {
    fence_of(body) + head + seq!['\n'] + fenced_body(body) + fence_of(body)
}

fn push_fenced(out: &mut String, head: &str, body: &str)
    ensures
        final(out)@ == old(out)@ + fenced_v(head@, body@),
{
    let run = longest_backtick_run(body);
    let n: usize = if run > 2 {
        run
    } else {
        2
    };
    push_rep(out, '`', n);
    push_char(out, '`');
    out.append(head);
    push_char(out, '\n');
    out.append(body);
    let c = chars_of(body);
    if c.len() > 0 && c[c.len() - 1] != '\n' {
        push_char(out, '\n');
    }
    push_rep(out, '`', n);
    push_char(out, '`');
    assert(rep('`', n as nat).push('`') =~= rep('`', n as nat + 1));
    assert(out@ =~= old(out)@ + fenced_v(head@, body@));
}

/// Inline code in a backtick fence longer than any run inside it, padded with
/// spaces when it starts or ends with a backtick, or starts and ends with a space.
pub open spec fn inline_code_v(code: Seq<char>) -> Seq<char> {
    let fence = rep('`', longest_tick_run(code) + 1);
    let pad = (code.len() > 0 && (code[0] == '`' || code.last() == '`')) || (code.len() > 0
        && code[0] == ' ' && code.last() == ' ');
    if pad {
        fence + seq![' '] + code + seq![' '] + fence
    } else {
        fence + code + fence
    }
}

fn push_inline_code(out: &mut String, code: &str)
    ensures
        final(out)@ == old(out)@ + inline_code_v(code@),
{
    let run = longest_backtick_run(code);
    let c = chars_of(code);
    let pad = (c.len() > 0 && (c[0] == '`' || c[c.len() - 1] == '`')) || (c.len() > 0 && c[0] == ' '
        && c[c.len() - 1] == ' ');
    push_rep(out, '`', run);
    push_char(out, '`');
    if pad {
        push_char(out, ' ');
    }
    out.append(code);
    if pad {
        push_char(out, ' ');
    }
    push_rep(out, '`', run);
    push_char(out, '`');
    assert(rep('`', run as nat).push('`') =~= rep('`', run as nat + 1));
    assert(out@ =~= old(out)@ + inline_code_v(code@));
}

/// Every occurrence of `c` in `s` replaced by `r`.
pub open spec fn replace_char(s: Seq<char>, c: char, r: Seq<char>) -> Seq<char>
    decreases s.len(),
{
    if s.len() == 0 {
        Seq::empty()
    } else {
        replace_char(s.drop_last(), c, r) + if s.last() == c {
            r
        } else {
            seq![s.last()]
        }
    }
}

fn push_replaced(out: &mut String, s: &str, c: char, r: &str)
    ensures
        final(out)@ == old(out)@ + replace_char(s@, c, r@),
{
    let v = chars_of(s);
    let mut i: usize = 0;
    assert(v@.take(0) =~= Seq::<char>::empty());
    assert(old(out)@ + Seq::<char>::empty() =~= old(out)@);
    while i < v.len()
        invariant
            i <= v@.len(),
            v@ == s@,
            out@ == old(out)@ + replace_char(v@.take(i as int), c, r@),
        decreases v.len() - i,
    {
        assert(v@.take(i + 1).drop_last() =~= v@.take(i as int));
        if v[i] == c {
            out.append(r);
        } else {
            push_char(out, v[i]);
        }
        assert(out@ =~= old(out)@ + replace_char(v@.take(i + 1), c, r@));
        i = i + 1;
    }
    assert(v@.take(v@.len() as int) =~= v@);
}

/// A link destination: in angle brackets (with `>` written `%3E`) when it holds
/// whitespace or a control character.
pub open spec fn url_v(url: Seq<char>) -> Seq<char> {
    if exists|k: int| 0 <= k < url.len() && (is_ws(#[trigger] url[k]) || is_ctrl(url[k])) {
        seq!['<'] + replace_char(url, '>', "%3E"@) + seq!['>']
    } else {
        url
    }
}

fn push_url(out: &mut String, url: &str)
    ensures
        final(out)@ == old(out)@ + url_v(url@),
{
    let c = chars_of(url);
    let mut i: usize = 0;
    let mut odd = false;
    while i < c.len()
        invariant
            i <= c@.len(),
            c@ == url@,
            odd == exists|k: int| 0 <= k < i && (is_ws(#[trigger] c@[k]) || is_ctrl(c@[k])),
        decreases c.len() - i,
    {
        if crate::text::is_whitespace(c[i]) || crate::text::is_control(c[i]) {
            odd = true;
        }
        i = i + 1;
    }
    if odd {
        push_char(out, '<');
        push_replaced(out, url, '>', "%3E");
        push_char(out, '>');
    } else {
        out.append(url);
    }
    assert(out@ =~= old(out)@ + url_v(url@));
}

/// Characters that always need a backslash in text.
pub open spec fn esc_always(c: char) -> bool {
    c == '*' || c == '_' || c == '[' || c == ']' || c == '#' || c == '<' || c == '>' || c == '\\'
        || c == '`' || c == '!'
}

/// The character after `t[k]`, or NUL at the end.
pub open spec fn next_at(t: Seq<char>, k: int) -> char {
    if k + 1 < t.len() {
        t[k + 1]
    } else {
        '\0'
    }
}

/// Whether `t[k]` is written with a backslash: markdown punctuation always;
/// `&` before a letter; `|` in a table; `-`, `+`, `=` at the start of a line
/// unless after a digit; `.` and `)` after a run of digits that starts the line
/// (`run`: every character since the line start is a digit) and before
/// whitespace or the end, where they would make an ordered-list marker.
pub open spec fn needs_esc(t: Seq<char>, k: int, begin: bool, run: bool, in_table: bool) -> bool {
    let c = t[k];
    let next = next_at(t, k);
    let after_digit = k > 0 && is_ascii_digit(t[k - 1]);
    esc_always(c) || (c == '&' && is_ascii_alpha(next)) || (in_table && c == '|') || (begin && (c
        == '-' || c == '+' || c == '=') && !after_digit) || (run && (c == '.' || c == ')')
        && after_digit && (next == '\0' || is_ws(next)))
}

/// The escaped form of the first `k` characters of `t`, whether a line starts
/// after them, and whether everything since the line start is a digit.
pub open spec fn esc_text_upto(t: Seq<char>, k: nat, begin: bool, in_table: bool) -> (Seq<char>, bool, bool)
    decreases k,
{
    if k == 0 {
        (Seq::empty(), begin, begin)
    } else {
        let (o, b, run) = esc_text_upto(t, (k - 1) as nat, begin, in_table);
        let c = t[k - 1];
        (o + (if needs_esc(t, k - 1, b, run, in_table) {
            seq!['\\']
        } else {
            Seq::empty()
        }) + seq![c], c == '\n', c == '\n' || (run && is_ascii_digit(c)))
    }
}

/// Text escaped so that it reads back as literal content, and whether a line
/// starts after it.
pub open spec fn esc_text(t: Seq<char>, begin: bool, in_table: bool) -> (Seq<char>, bool) {
    (esc_text_upto(t, t.len(), begin, in_table).0, esc_text_upto(t, t.len(), begin, in_table).1)
}

fn escape_text(text: &str, begin: &mut bool, in_table: bool, out: &mut String)
    ensures
        final(out)@ == old(out)@ + esc_text(text@, *old(begin), in_table).0,
        *final(begin) == esc_text(text@, *old(begin), in_table).1,
{
    let c = chars_of(text);
    let mut i: usize = 0;
    let mut run = *begin;
    assert(old(out)@ + Seq::<char>::empty() =~= old(out)@);
    while i < c.len()
        invariant
            i <= c@.len(),
            c@ == text@,
            out@ == old(out)@ + esc_text_upto(c@, i as nat, *old(begin), in_table).0,
            *begin == esc_text_upto(c@, i as nat, *old(begin), in_table).1,
            run == esc_text_upto(c@, i as nat, *old(begin), in_table).2,
        decreases c.len() - i,
    {
        let ch = c[i];
        let next = if i + 1 < c.len() {
            c[i + 1]
        } else {
            '\0'
        };
        let after_digit = i > 0 && '0' <= c[i - 1] && c[i - 1] <= '9';
        let b = *begin;
        let escape = (ch == '*' || ch == '_' || ch == '[' || ch == ']' || ch == '#' || ch == '<' || ch
            == '>' || ch == '\\' || ch == '`' || ch == '!') || (ch == '&' && (('a' <= next && next
            <= 'z') || ('A' <= next && next <= 'Z'))) || (in_table && ch == '|') || (b && (ch == '-'
            || ch == '+' || ch == '=') && !after_digit) || (run && (ch == '.' || ch == ')')
            && after_digit && (next == '\0' || crate::text::is_whitespace(next)));
        assert(escape == needs_esc(c@, i as int, b, run, in_table));
        let ghost o = out@;
        if escape {
            push_char(out, '\\');
        }
        push_char(out, ch);
        *begin = ch == '\n';
        run = ch == '\n' || (run && '0' <= ch && ch <= '9');
        assert(out@ =~= old(out)@ + esc_text_upto(c@, (i + 1) as nat, *old(begin), in_table).0);
        i = i + 1;
    }
}

/// A link title: ` "title"` with each `"` written `\"`; nothing when empty.
pub open spec fn title_v(t: Seq<char>) -> Seq<char> {
    if t.len() == 0 {
        Seq::empty()
    } else {
        " \""@ + replace_char(t, '"', "\\\""@) + "\""@
    }
}

pub open spec fn ser_inlines_st(s: Seq<InlineV>, begin: bool, tab: bool) -> (Seq<char>, bool)
    decreases s,
{
    if s.len() == 0 {
        (Seq::empty(), begin)
    } else {
        let (a, b1) = ser_inlines_st(s.drop_last(), begin, tab);
        let (c, b2) = ser_inline(s.last(), b1, tab);
        (a + c, b2)
    }
}

/// One inline as source text, and whether a line starts after it.
pub open spec fn ser_inline(i: InlineV, begin: bool, tab: bool) -> (Seq<char>, bool)
    decreases i,
{
    match i {
        InlineV::Text(t) => esc_text(t, begin, tab),
        InlineV::Emphasis(c) => ("*"@ + ser_inlines_st(c, false, tab).0 + "*"@, false),
        InlineV::Strong(c) => ("**"@ + ser_inlines_st(c, false, tab).0 + "**"@, false),
        InlineV::Strikethrough(c) => ("~~"@ + ser_inlines_st(c, false, tab).0 + "~~"@, false),
        InlineV::Code(code) => (inline_code_v(code), false),
        InlineV::Link { url, title, content } => (
            "["@ + ser_inlines_st(content, false, tab).0 + "]("@ + url_v(url) + title_v(title) + ")"@,
            false,
        ),
        InlineV::Image { url, title, alt } => (
            "!["@ + ser_inlines_st(alt, false, tab).0 + "]("@ + url_v(url) + title_v(title) + ")"@,
            false,
        ),
        InlineV::SoftBreak => ("\n"@, true),
        InlineV::HardBreak => ("\\\n"@, true),
        InlineV::HtmlInline(h) => (h, false),
        InlineV::FootnoteReference(n) => ("[^"@ + n + "]"@, false),
        InlineV::CrossRef(t) => ("[#"@ + t + "]"@, false),
        InlineV::Citation(k) => ("[@"@ + k + "]"@, false),
    }
}

fn push_title(out: &mut String, title: &String)
    ensures
        final(out)@ == old(out)@ + title_v(title@),
{
    if chars_of(title.as_str()).len() > 0 {
        out.append(" \"");
        push_replaced(out, title.as_str(), '"', "\\\"");
        out.append("\"");
    } else {
        assert(old(out)@ + Seq::<char>::empty() =~= old(out)@);
    }
}

fn serialize_inlines_into(inlines: &Vec<Inline>, begin: &mut bool, tab: bool, out: &mut String)
    ensures
        final(out)@ == old(out)@ + ser_inlines_st(inlines_v(inlines@), *old(begin), tab).0,
        *final(begin) == ser_inlines_st(inlines_v(inlines@), *old(begin), tab).1,
    decreases inlines@,
{
    let ghost iv = inlines_v(inlines@);
    let mut i: usize = 0;
    assert(iv.take(0) =~= Seq::<InlineV>::empty());
    assert(old(out)@ + Seq::<char>::empty() =~= old(out)@);
    while i < inlines.len()
        invariant
            i <= inlines@.len(),
            iv == inlines_v(inlines@),
            out@ == old(out)@ + ser_inlines_st(iv.take(i as int), *old(begin), tab).0,
            *begin == ser_inlines_st(iv.take(i as int), *old(begin), tab).1,
        decreases inlines.len() - i,
    {
        assert(iv.take(i + 1).drop_last() =~= iv.take(i as int));
        proof {
            crate::ast::lemma_inlines_v(inlines@);
        }
        assert(iv[i as int] == inline_v(inlines@[i as int]));
        serialize_inline(&inlines[i], begin, tab, out);
        assert(out@ =~= old(out)@ + ser_inlines_st(iv.take(i + 1), *old(begin), tab).0);
        i = i + 1;
    }
    assert(iv.take(iv.len() as int) =~= iv);
}

#[verifier::spinoff_prover]
fn serialize_inline(inline: &Inline, begin: &mut bool, tab: bool, out: &mut String)
    ensures
        final(out)@ == old(out)@ + ser_inline(inline@, *old(begin), tab).0,
        *final(begin) == ser_inline(inline@, *old(begin), tab).1,
    decreases inline,
{
    let ghost o = out@;
    match inline {
        Inline::Text(t) => escape_text(t.as_str(), begin, tab, out),
        Inline::Emphasis(c) => {
            out.append("*");
            let mut inner = false;
            serialize_inlines_into(c, &mut inner, tab, out);
            out.append("*");
            *begin = false;
            assert(out@ =~= o + ser_inline(inline@, *old(begin), tab).0);
        },
        Inline::Strong(c) => {
            out.append("**");
            let mut inner = false;
            serialize_inlines_into(c, &mut inner, tab, out);
            out.append("**");
            *begin = false;
            assert(out@ =~= o + ser_inline(inline@, *old(begin), tab).0);
        },
        Inline::Strikethrough(c) => {
            out.append("~~");
            let mut inner = false;
            serialize_inlines_into(c, &mut inner, tab, out);
            out.append("~~");
            *begin = false;
            assert(out@ =~= o + ser_inline(inline@, *old(begin), tab).0);
        },
        Inline::Code(code) => {
            push_inline_code(out, code.as_str());
            *begin = false;
            assert(out@ =~= o + ser_inline(inline@, *old(begin), tab).0);
        },
        Inline::Link { url, title, content } => {
            out.append("[");
            let mut inner = false;
            serialize_inlines_into(content, &mut inner, tab, out);
            out.append("](");
            push_url(out, url.as_str());
            push_title(out, title);
            out.append(")");
            *begin = false;
            assert(out@ =~= o + ser_inline(inline@, *old(begin), tab).0);
        },
        Inline::Image { url, title, alt } => {
            out.append("![");
            let mut inner = false;
            serialize_inlines_into(alt, &mut inner, tab, out);
            out.append("](");
            push_url(out, url.as_str());
            push_title(out, title);
            out.append(")");
            *begin = false;
            assert(out@ =~= o + ser_inline(inline@, *old(begin), tab).0);
        },
        Inline::SoftBreak => {
            out.append("\n");
            *begin = true;
            assert(out@ =~= o + ser_inline(inline@, *old(begin), tab).0);
        },
        Inline::HardBreak => {
            out.append("\\\n");
            *begin = true;
            assert(out@ =~= o + ser_inline(inline@, *old(begin), tab).0);
        },
        Inline::HtmlInline(h) => {
            out.append(h.as_str());
            *begin = false;
            assert(out@ =~= o + ser_inline(inline@, *old(begin), tab).0);
        },
        Inline::FootnoteReference { name } => {
            out.append("[^");
            out.append(name.as_str());
            out.append("]");
            *begin = false;
            assert(out@ =~= o + ser_inline(inline@, *old(begin), tab).0);
        },
        Inline::CrossRef { target } => {
            out.append("[#");
            out.append(target.as_str());
            out.append("]");
            *begin = false;
            assert(out@ =~= o + ser_inline(inline@, *old(begin), tab).0);
        },
        Inline::Citation { key } => {
            out.append("[@");
            out.append(key.as_str());
            out.append("]");
            *begin = false;
            assert(out@ =~= o + ser_inline(inline@, *old(begin), tab).0);
        },
    }
}

/// Parts joined with a separator.
pub open spec fn join_on(parts: Seq<Seq<char>>, sep: Seq<char>) -> Seq<char>
    decreases parts.len(),
{
    if parts.len() == 0 {
        Seq::empty()
    } else if parts.len() == 1 {
        parts[0]
    } else {
        join_on(parts.drop_last(), sep) + sep + parts.last()
    }
}

pub proof fn lemma_join_push(parts: Seq<Seq<char>>, x: Seq<char>, sep: Seq<char>)
    ensures
        join_on(parts.push(x), sep) == if parts.len() == 0 {
            x
        } else {
            join_on(parts, sep) + sep + x
        },
{
    assert(parts.push(x).drop_last() =~= parts);
}

/// Whether an attribute value is written in double quotes: when it is empty or
/// holds whitespace.
pub open spec fn needs_quote(v: Seq<char>) -> bool {
    v.len() == 0 || exists|k: int| 0 <= k < v.len() && is_ws(#[trigger] v[k])
}

pub open spec fn pair_src(k: Seq<char>, v: Seq<char>) -> Seq<char> {
    if needs_quote(v) {
        k + "=\""@ + v + "\""@
    } else {
        k + "="@ + v
    }
}

/// The attribute parts: `#id`, each `.class`, each `key=value`.
pub open spec fn attr_parts(a: AttrsV) -> Seq<Seq<char>> {
    (match a.id {
        Some(id) => seq!["#"@ + id],
        None => Seq::empty(),
    }) + a.classes.map_values(|c: Seq<char>| "."@ + c) + a.pairs.map_values(
        |p: (Seq<char>, Seq<char>)| pair_src(p.0, p.1),
    )
}

/// An attribute block `{#id .class key=value}`; nothing for empty attributes.
pub open spec fn attrs_src(a: AttrsV) -> Seq<char> {
    if attr_parts(a).len() == 0 {
        Seq::empty()
    } else {
        "{"@ + join_on(attr_parts(a), " "@) + "}"@
    }
}

/// Serialise a component's attributes as `{#id .class key=value}`.
pub fn serialize_attrs(attrs: &Attrs) -> (r: String)
    ensures
        r@ == attrs_src(attrs@),
{
    let ghost a = attrs@;
    let ghost parts = attr_parts(a);
    let mut joined = String::new();
    let mut any = false;
    let ghost mut done: Seq<Seq<char>> = Seq::empty();
    match &attrs.id {
        Some(id) => {
            joined.append("#");
            joined.append(id.as_str());
            proof {
                done = seq!["#"@ + id@];
            }
            any = true;
        },
        None => {},
    }
    assert(joined@ =~= join_on(done, " "@));
    let ghost ids = done;
    let mut i: usize = 0;
    while i < attrs.classes.len()
        invariant
            i <= attrs.classes@.len(),
            a == attrs@,
            done == ids + a.classes.take(i as int).map_values(|c: Seq<char>| "."@ + c),
            any == (done.len() > 0),
            joined@ == join_on(done, " "@),
        decreases attrs.classes.len() - i,
    {
        proof {
            lemma_join_push(done, "."@ + a.classes[i as int], " "@);
        }
        if any {
            joined.append(" ");
        }
        joined.append(".");
        joined.append(attrs.classes[i].as_str());
        proof {
            assert(a.classes[i as int] == attrs.classes@[i as int]@);
            done = done.push("."@ + a.classes[i as int]);
            assert(a.classes.take(i + 1).map_values(|c: Seq<char>| "."@ + c) =~= a.classes.take(
                i as int,
            ).map_values(|c: Seq<char>| "."@ + c).push("."@ + a.classes[i as int]));
        }
        assert(joined@ =~= join_on(done, " "@));
        any = true;
        i = i + 1;
    }
    assert(a.classes.take(a.classes.len() as int) =~= a.classes);
    let ghost mid = done;
    let mut j: usize = 0;
    while j < attrs.pairs.len()
        invariant
            j <= attrs.pairs@.len(),
            a == attrs@,
            done == mid + a.pairs.take(j as int).map_values(
                |p: (Seq<char>, Seq<char>)| pair_src(p.0, p.1),
            ),
            any == (done.len() > 0),
            joined@ == join_on(done, " "@),
        decreases attrs.pairs.len() - j,
    {
        let (k, v) = (&attrs.pairs[j].0, &attrs.pairs[j].1);
        assert(a.pairs[j as int] == (k@, v@));
        proof {
            lemma_join_push(done, pair_src(k@, v@), " "@);
        }
        if any {
            joined.append(" ");
        }
        let vc = chars_of(v.as_str());
        let mut ws = vc.len() == 0;
        let mut q: usize = 0;
        while q < vc.len()
            invariant
                q <= vc@.len(),
                vc@ == v@,
                ws == (vc@.len() == 0 || exists|m: int| 0 <= m < q && is_ws(#[trigger] vc@[m])),
            decreases vc.len() - q,
        {
            if crate::text::is_whitespace(vc[q]) {
                ws = true;
            }
            q = q + 1;
        }
        joined.append(k.as_str());
        if ws {
            joined.append("=\"");
            joined.append(v.as_str());
            joined.append("\"");
        } else {
            joined.append("=");
            joined.append(v.as_str());
        }
        proof {
            done = done.push(pair_src(k@, v@));
            assert(a.pairs.take(j + 1).map_values(|p: (Seq<char>, Seq<char>)| pair_src(p.0, p.1))
                =~= a.pairs.take(j as int).map_values(|p: (Seq<char>, Seq<char>)| pair_src(p.0, p.1)).push(
                pair_src(k@, v@),
            ));
        }
        assert(joined@ =~= join_on(done, " "@));
        any = true;
        j = j + 1;
    }
    assert(a.pairs.take(a.pairs.len() as int) =~= a.pairs);
    assert(done =~= parts);
    if !any {
        String::new()
    } else {
        let mut r = String::new();
        r.append("{");
        r.append(joined.as_str());
        r.append("}");
        r
    }
}

/// A table row: `| a | b |`.
pub open spec fn row_src(cells: Seq<Seq<char>>) -> Seq<char> {
    "| "@ + join_on(cells, " | "@) + " |"@
}

pub open spec fn delim_cell(aligns: Seq<Alignment>, i: int) -> Seq<char> {
    if 0 <= i < aligns.len() {
        match aligns[i] {
            Alignment::Left => ":---"@,
            Alignment::Center => ":---:"@,
            Alignment::Right => "---:"@,
            Alignment::Unaligned => "---"@,
        }
    } else {
        "---"@
    }
}

/// The delimiter row of a table with `n` columns.
pub open spec fn delim_src(aligns: Seq<Alignment>, n: nat) -> Seq<char> {
    row_src(Seq::new(n, |i: int| delim_cell(aligns, i)))
}

/// The source of each table cell.
pub open spec fn cells_src(cells: Seq<Seq<InlineV>>) -> Seq<Seq<char>> {
    cells.map_values(|c: Seq<InlineV>| ser_inlines_st(c, false, true).0)
}

pub open spec fn rows_src(rows: Seq<Seq<Seq<InlineV>>>) -> Seq<char>
    decreases rows.len(),
{
    if rows.len() == 0 {
        Seq::empty()
    } else {
        rows_src(rows.drop_last()) + "\n"@ + row_src(cells_src(rows.last()))
    }
}

/// A GFM table: the header row, the delimiter row, then the body rows.
pub open spec fn table_src(aligns: Seq<Alignment>, header: Seq<Seq<InlineV>>, rows: Seq<Seq<Seq<InlineV>>>) -> Seq<char> {
    row_src(cells_src(header)) + "\n"@ + delim_src(aligns, header.len()) + rows_src(rows)
}

fn push_row(out: &mut String, cells: &Vec<Vec<Inline>>)
    ensures
        final(out)@ == old(out)@ + row_src(cells_src(cells_v(cells@))),
{
    let ghost cv = cells_v(cells@);
    out.append("| ");
    let ghost start = out@;
    let mut i: usize = 0;
    assert(cv.take(0) =~= Seq::<Seq<InlineV>>::empty());
    assert(cells_src(cv.take(0)) =~= Seq::<Seq<char>>::empty());
    assert(start + Seq::<char>::empty() =~= start);
    while i < cells.len()
        invariant
            i <= cells@.len(),
            cv == cells_v(cells@),
            out@ == start + join_on(cells_src(cv.take(i as int)), " | "@),
        decreases cells.len() - i,
    {
        proof {
            crate::ast::lemma_cells_v(cells@);
            assert(cells_src(cv.take(i + 1)) =~= cells_src(cv.take(i as int)).push(
                ser_inlines_st(cv[i as int], false, true).0,
            ));
            lemma_join_push(
                cells_src(cv.take(i as int)),
                ser_inlines_st(cv[i as int], false, true).0,
                " | "@,
            );
        }
        if i > 0 {
            out.append(" | ");
        }
        let mut b = false;
        serialize_inlines_into(&cells[i], &mut b, true, out);
        assert(out@ =~= start + join_on(cells_src(cv.take(i + 1)), " | "@));
        i = i + 1;
    }
    assert(cv.take(cv.len() as int) =~= cv);
    out.append(" |");
}

fn push_delim_row(out: &mut String, aligns: &Vec<Alignment>, n: usize)
    ensures
        final(out)@ == old(out)@ + delim_src(aligns@, n as nat),
{
    let ghost cells = Seq::new(n as nat, |i: int| delim_cell(aligns@, i));
    out.append("| ");
    let ghost start = out@;
    let mut i: usize = 0;
    assert(cells.take(0) =~= Seq::<Seq<char>>::empty());
    assert(start + Seq::<char>::empty() =~= start);
    while i < n
        invariant
            i <= n,
            cells == Seq::new(n as nat, |i: int| delim_cell(aligns@, i)),
            out@ == start + join_on(cells.take(i as int), " | "@),
        decreases n - i,
    {
        proof {
            assert(cells.take(i + 1) =~= cells.take(i as int).push(cells[i as int]));
            lemma_join_push(cells.take(i as int), cells[i as int], " | "@);
        }
        if i > 0 {
            out.append(" | ");
        }
        if i < aligns.len() {
            match aligns[i] {
                Alignment::Left => out.append(":---"),
                Alignment::Center => out.append(":---:"),
                Alignment::Right => out.append("---:"),
                Alignment::Unaligned => out.append("---"),
            }
        } else {
            out.append("---");
        }
        assert(out@ =~= start + join_on(cells.take(i + 1), " | "@));
        i = i + 1;
    }
    assert(cells.take(n as int) =~= cells);
    out.append(" |");
}

fn serialize_table(table: &Table) -> (r: String)
    ensures
        r@ == table_src(table.alignments@, cells_v(table.header@), rows_v(table.rows@)),
{
    let mut out = String::new();
    push_row(&mut out, &table.header);
    out.append("\n");
    push_delim_row(&mut out, &table.alignments, table.header.len());
    let ghost start = out@;
    let ghost rv = rows_v(table.rows@);
    let mut i: usize = 0;
    assert(rv.take(0) =~= Seq::<Seq<Seq<InlineV>>>::empty());
    assert(start + Seq::<char>::empty() =~= start);
    while i < table.rows.len()
        invariant
            i <= table.rows@.len(),
            rv == rows_v(table.rows@),
            out@ == start + rows_src(rv.take(i as int)),
        decreases table.rows.len() - i,
    {
        assert(rv.take(i + 1).drop_last() =~= rv.take(i as int));
        proof {
            crate::ast::lemma_rows_v(table.rows@);
        }
        out.append("\n");
        push_row(&mut out, &table.rows[i]);
        assert(out@ =~= start + rows_src(rv.take(i + 1)));
        i = i + 1;
    }
    assert(rv.take(rv.len() as int) =~= rv);
    proof {
        crate::ast::lemma_cells_v(table.header@);
    }
    assert(out@ =~= table_src(table.alignments@, cells_v(table.header@), rv));
    out
}

/// `s` without its trailing line breaks.
pub open spec fn trim_newlines(s: Seq<char>) -> Seq<char>
    decreases s.len(),
{
    if s.len() > 0 && s.last() == '\n' {
        trim_newlines(s.drop_last())
    } else {
        s
    }
}

/// The number of item `k` of an ordered list starting at `start` (held within
/// the `u64` range).
pub open spec fn item_no(start: u32, k: int) -> nat {
    if start + k <= u64::MAX {
        (start + k) as nat
    } else {
        u64::MAX as nat
    }
}

/// The marker of list item `k`.
pub open spec fn marker(ordered: bool, start: u32, k: int, task: Option<bool>) -> Seq<char> {
    if ordered {
        dec(item_no(start, k)) + ". "@
    } else {
        match task {
            Some(true) => "- [x] "@,
            Some(false) => "- [ ] "@,
            None => "- "@,
        }
    }
}

pub open spec fn ser_blocks(bs: Seq<BlockV>) -> Seq<char>
    decreases bs,
{
    if bs.len() == 0 {
        Seq::empty()
    } else if bs.len() == 1 {
        ser_block(bs[0])
    } else {
        ser_blocks(bs.drop_last()) + "\n\n"@ + ser_block(bs.last())
    }
}

/// What separates list items: a line break in a tight list, a blank line in a
/// loose one.
pub open spec fn item_sep(tight: bool) -> Seq<char> {
    if tight {
        "\n"@
    } else {
        "\n\n"@
    }
}

/// The items of a list, one per line group (separated by a blank line in a
/// loose list), each prefixed by its marker and its continuation lines indented
/// to match.
pub open spec fn ser_items(items: Seq<ItemV>, ordered: bool, start: u32, tight: bool) -> Seq<char>
    decreases items,
{
    if items.len() == 0 {
        Seq::empty()
    } else {
        let k = items.len() - 1;
        let m = marker(ordered, start, k, items.last().task);
        let one = prefix_lines_v(ser_blocks(items.last().blocks), m, rep(' ', m.len()));
        if items.len() == 1 {
            one
        } else {
            ser_items(items.drop_last(), ordered, start, tight) + item_sep(tight) + one
        }
    }
}

pub open spec fn ser_block(b: BlockV) -> Seq<char>
    decreases b,
{
    match b {
        BlockV::Heading { level, content } => rep('#', crate::render::clamp_level(level) as nat) + " "@
            + ser_inlines_st(content, true, false).0,
        BlockV::Paragraph(c) => ser_inlines_st(c, true, false).0,
        BlockV::BlockQuote(c) => prefix_lines_v(ser_blocks(c), "> "@, "> "@),
        BlockV::List { ordered, start, tight, items } => ser_items(items, ordered, start, tight),
        BlockV::CodeBlock { info, literal } => fenced_v(info, literal),
        BlockV::ThematicBreak => "---"@,
        BlockV::Table { alignments, header, rows } => table_src(alignments, header, rows),
        BlockV::FootnoteDefinition { name, blocks } => prefix_lines_v(
            ser_blocks(blocks),
            "[^"@ + name + "]: "@,
            "    "@,
        ),
        BlockV::HtmlBlock(h) => trim_newlines(h),
        BlockV::Component { name, attrs, body } => match body {
            BodyV::Raw(r) => fenced_v(
                if attrs_src(attrs).len() == 0 {
                    name
                } else {
                    name + " "@ + attrs_src(attrs)
                },
                r,
            ),
            BodyV::Children(c) => {
                let head = ":::"@ + name + attrs_src(attrs);
                if ser_blocks(c).len() == 0 {
                    head + "\n:::"@
                } else {
                    head + "\n"@ + ser_blocks(c) + "\n:::"@
                }
            },
        },
    }
}

/// The source of a document: its blocks separated by blank lines, and a final
/// line break.
pub open spec fn to_source_v(doc: Seq<BlockV>) -> Seq<char> {
    ser_blocks(doc) + "\n"@
}

/// Serialise a block sequence, separated by blank lines.
pub fn serialize_blocks(blocks: &Vec<Block>) -> (r: String)
    ensures
        r@ == ser_blocks(blocks_v(blocks@)),
    decreases blocks@,
{
    let ghost bv = blocks_v(blocks@);
    let mut out = String::new();
    let mut i: usize = 0;
    assert(bv.take(0) =~= Seq::<BlockV>::empty());
    while i < blocks.len()
        invariant
            i <= blocks@.len(),
            bv == blocks_v(blocks@),
            out@ == ser_blocks(bv.take(i as int)),
        decreases blocks.len() - i,
    {
        proof {
            crate::ast::lemma_blocks_v(blocks@);
        }
        assert(bv.take(i + 1).drop_last() =~= bv.take(i as int));
        assert(bv[i as int] == blocks@[i as int]@);
        if i > 0 {
            out.append("\n\n");
        } else {
            assert(bv.take(1)[0] == bv[0]);
        }
        let one = serialize_block(&blocks[i]);
        out.append(one.as_str());
        assert(out@ =~= ser_blocks(bv.take(i + 1)));
        i = i + 1;
    }
    assert(bv.take(bv.len() as int) =~= bv);
    out
}

fn serialize_list(list: &List) -> (r: String)
    ensures
        r@ == ser_items(items_v(list.items@), list.ordered, list.start, list.tight),
    decreases list,
{
    let ghost iv = items_v(list.items@);
    let mut out = String::new();
    let mut i: usize = 0;
    let mut no: u64 = list.start as u64;
    assert(iv.take(0) =~= Seq::<ItemV>::empty());
    while i < list.items.len()
        invariant
            i <= list.items@.len(),
            iv == items_v(list.items@),
            out@ == ser_items(iv.take(i as int), list.ordered, list.start, list.tight),
            no == item_no(list.start, i as int),
        decreases list.items.len() - i,
    {
        proof {
            crate::ast::lemma_items_v(list.items@);
        }
        assert(iv.take(i + 1).drop_last() =~= iv.take(i as int));
        let item = &list.items[i];
        let mut m = String::new();
        if list.ordered {
            push_dec(&mut m, no);
            m.append(". ");
        } else {
            match item.task {
                Some(true) => m.append("- [x] "),
                Some(false) => m.append("- [ ] "),
                None => m.append("- "),
            }
        }
        assert(m@ == marker(list.ordered, list.start, i as int, item.task));
        let width = chars_of(m.as_str()).len();
        let mut indent = String::new();
        push_rep(&mut indent, ' ', width);
        assert(indent@ =~= rep(' ', m@.len()));
        let body = serialize_blocks(&item.blocks);
        let one = prefix_lines(body.as_str(), m.as_str(), indent.as_str());
        if i > 0 {
            if list.tight {
                out.append("\n");
            } else {
                out.append("\n\n");
            }
        }
        out.append(one.as_str());
        assert(out@ =~= ser_items(iv.take(i + 1), list.ordered, list.start, list.tight));
        if no < u64::MAX {
            no = no + 1;
        }
        i = i + 1;
    }
    assert(iv.take(iv.len() as int) =~= iv);
    out
}

fn serialize_component(c: &Component) -> (r: String)
    ensures
        r@ == ser_block(BlockV::Component { name: c.name@, attrs: c.attrs@, body: crate::render::body_v(c.body) }),
    decreases c,
{
    let attrs = serialize_attrs(&c.attrs);
    match &c.body {
        ComponentBody::Raw(body) => {
            let mut head = c.name.clone();
            if chars_of(attrs.as_str()).len() > 0 {
                head.append(" ");
                head.append(attrs.as_str());
            }
            let mut out = String::new();
            push_fenced(&mut out, head.as_str(), body.as_str());
            out
        },
        ComponentBody::Children(blocks) => {
            let mut out = String::new();
            out.append(":::");
            out.append(c.name.as_str());
            out.append(attrs.as_str());
            let inner = serialize_blocks(blocks);
            if chars_of(inner.as_str()).len() == 0 {
                out.append("\n:::");
            } else {
                out.append("\n");
                out.append(inner.as_str());
                out.append("\n:::");
            }
            out
        },
    }
}

fn serialize_block(block: &Block) -> (r: String)
    ensures
        r@ == ser_block(block@),
    decreases block,
{
    match block {
        Block::Heading { level, content } => {
            let mut out = String::new();
            let l = if *level < 1 {
                1u8
            } else if *level > 6 {
                6u8
            } else {
                *level
            };
            push_rep(&mut out, '#', l as usize);
            out.append(" ");
            let mut b = true;
            serialize_inlines_into(content, &mut b, false, &mut out);
            assert(out@ =~= ser_block(block@));
            out
        },
        Block::Paragraph(c) => {
            let mut out = String::new();
            let mut b = true;
            serialize_inlines_into(c, &mut b, false, &mut out);
            assert(out@ =~= ser_block(block@));
            out
        },
        Block::BlockQuote(c) => {
            let inner = serialize_blocks(c);
            prefix_lines(inner.as_str(), "> ", "> ")
        },
        Block::List(l) => serialize_list(l),
        Block::CodeBlock { info, literal } => {
            let mut out = String::new();
            push_fenced(&mut out, info.as_str(), literal.as_str());
            assert(out@ =~= ser_block(block@));
            out
        },
        Block::ThematicBreak => {
            let mut out = String::new();
            out.append("---");
            out
        },
        Block::Table(t) => serialize_table(t),
        Block::FootnoteDefinition { name, blocks } => {
            let inner = serialize_blocks(blocks);
            let mut first = String::new();
            first.append("[^");
            first.append(name.as_str());
            first.append("]: ");
            prefix_lines(inner.as_str(), first.as_str(), "    ")
        },
        Block::HtmlBlock(h) => {
            let c = chars_of(h.as_str());
            let mut e = c.len();
            assert(c@.take(c@.len() as int) =~= c@);
            while e > 0 && c[e - 1] == '\n'
                invariant
                    e <= c@.len(),
                    trim_newlines(c@) == trim_newlines(c@.take(e as int)),
                decreases e,
            {
                assert(c@.take(e as int).drop_last() =~= c@.take(e - 1));
                e = e - 1;
            }
            string_of_prefix(&c, e)
        },
        Block::Component(comp) => serialize_component(comp),
    }
}

fn string_of_prefix(c: &Vec<char>, e: usize) -> (r: String)
    requires
        e <= c@.len(),
        e == 0 || c@[e - 1] != '\n',
    ensures
        r@ == trim_newlines(c@.take(e as int)),
{
    let mut out = String::new();
    push_chars(&mut out, c, 0, e);
    assert(c@.subrange(0, e as int) =~= c@.take(e as int));
    assert(out@ =~= c@.take(e as int));
    if e > 0 {
        assert(c@.take(e as int).last() == c@[e - 1]);
    }
    out
}

/// The normalising alt-markdown serializer.
#[derive(Debug, Default, Clone, Copy)]
pub struct MarkdownSerializer;

impl MarkdownSerializer {
    /// Create a new serializer.
    pub fn new() -> (s: Self) {
        MarkdownSerializer
    }

    /// Render `document` to source text.
    pub fn to_source(&self, document: &Document) -> (r: String)
        ensures
            r@ == to_source_v(document@),
    {
        let mut out = serialize_blocks(&document.blocks);
        out.append("\n");
        out
    }
}

/// Renders a [`Document`] back to source text.
pub trait Serializer {
    /// Render `document` to source text. Normalising: whitespace, fence widths
    /// and markers are regularised, so the output is not byte-identical to the
    /// source that was parsed.
    fn to_source(&self, document: &Document) -> String;
}

impl Serializer for MarkdownSerializer {
    fn to_source(&self, document: &Document) -> (r: String)
        ensures
            r@ == to_source_v(document@),
    {
        MarkdownSerializer::to_source(self, document)
    }
}

/// A character the attribute tokenizer keeps as it is: no whitespace, no quote.
pub open spec fn plain_char(c: char) -> bool {
    !is_ws(c) && c != '"' && c != '\''
}

pub open spec fn plain_text(s: Seq<char>) -> bool {
    forall|k: int| 0 <= k < s.len() ==> #[trigger] plain_char(s[k])
}

pub open spec fn unquoted(s: Seq<char>) -> bool {
    forall|k: int| 0 <= k < s.len() ==> #[trigger] s[k] != '"' && s[k] != '\''
}

pub open spec fn no_eq(s: Seq<char>) -> bool {
    forall|k: int| 0 <= k < s.len() ==> #[trigger] s[k] != '='
}

/// Attributes that their serialised form reads back as: the id, the classes
/// and the keys hold no whitespace and no quote, a key holds no `=` and does
/// not start with `#` or `.`, and a value holds no quote.
pub open spec fn attrs_writable(a: AttrsV) -> bool {
    &&& (a.id matches Some(id) ==> plain_text(id))
    &&& forall|i: int| 0 <= i < a.classes.len() ==> plain_text(#[trigger] a.classes[i])
    &&& forall|i: int|
        0 <= i < a.pairs.len() ==> {
            let (k, v) = #[trigger] a.pairs[i];
            plain_text(k) && no_eq(k) && (k.len() > 0 ==> k[0] != '#' && k[0] != '.') && unquoted(v)
        }
}

/// The token the tokenizer reads from each attribute part.
pub open spec fn attr_tokens(a: AttrsV) -> Seq<Seq<char>> {
    (match a.id {
        Some(id) => seq!["#"@ + id],
        None => Seq::empty(),
    }) + a.classes.map_values(|c: Seq<char>| "."@ + c) + a.pairs.map_values(
        |p: (Seq<char>, Seq<char>)| p.0 + "="@ + p.1,
    )
}

proof fn lemma_tok_concat(st: crate::attrs::TokState, a: Seq<char>, b: Seq<char>)
    ensures
        crate::attrs::tok_run(st, a + b) == crate::attrs::tok_run(crate::attrs::tok_run(st, a), b),
    decreases a.len(),
{
    if a.len() > 0 {
        assert((a + b)[0] == a[0]);
        assert((a + b).drop_first() =~= a.drop_first() + b);
        lemma_tok_concat(crate::attrs::tok_step(st, a[0]), a.drop_first(), b);
    } else {
        assert(a + b =~= b);
    }
}

proof fn lemma_tok_plain(st: crate::attrs::TokState, s: Seq<char>)
    requires
        st.quote.is_none(),
        plain_text(s),
    ensures
        crate::attrs::tok_run(st, s) == (crate::attrs::TokState { current: st.current + s, ..st }),
    decreases s.len(),
{
    if s.len() > 0 {
        assert(plain_char(s[0]));
        let d = s.drop_first();
        assert forall|k: int| 0 <= k < d.len() implies #[trigger] plain_char(d[k]) by {
            assert(d[k] == s[k + 1]);
            assert(plain_char(s[k + 1]));
        }
        lemma_tok_plain(crate::attrs::tok_step(st, s[0]), d);
        assert(st.current.push(s[0]) + d =~= st.current + s);
    } else {
        assert(st.current + s =~= st.current);
    }
}

proof fn lemma_tok_in_quotes(st: crate::attrs::TokState, s: Seq<char>)
    requires
        st.quote == Some('"'),
        unquoted(s),
    ensures
        crate::attrs::tok_run(st, s) == (crate::attrs::TokState { current: st.current + s, ..st }),
    decreases s.len(),
{
    if s.len() > 0 {
        assert(s[0] != '"');
        let d = s.drop_first();
        assert forall|k: int| 0 <= k < d.len() implies #[trigger] d[k] != '"' && d[k] != '\'' by {
            assert(d[k] == s[k + 1]);
        }
        lemma_tok_in_quotes(crate::attrs::tok_step(st, s[0]), d);
        assert(st.current.push(s[0]) + d =~= st.current + s);
    } else {
        assert(st.current + s =~= st.current);
    }
}

proof fn lemma_tok_one(st: crate::attrs::TokState, c: char)
    ensures
        crate::attrs::tok_run(st, seq![c]) == crate::attrs::tok_step(st, c),
{
    crate::attrs::lemma_tok_run_push(st, Seq::empty(), c);
    assert(Seq::<char>::empty().push(c) =~= seq![c]);
    assert(crate::attrs::tok_run(st, Seq::<char>::empty()) == st);
}

proof fn lemma_plain_concat(a: Seq<char>, b: Seq<char>)
    requires
        plain_text(a),
        plain_text(b),
    ensures
        plain_text(a + b),
{
    assert forall|k: int| 0 <= k < (a + b).len() implies #[trigger] plain_char((a + b)[k]) by {
        if k < a.len() {
            assert((a + b)[k] == a[k]);
        } else {
            assert((a + b)[k] == b[k - a.len()]);
        }
    }
}

/// Reading one attribute part from a state between tokens leaves its token
/// as the current one.
proof fn lemma_part_token(a: AttrsV, i: int, st: crate::attrs::TokState)
    requires
        attrs_writable(a),
        0 <= i < attr_parts(a).len(),
        st.quote.is_none(),
        st.current.len() == 0,
    ensures
        attr_parts(a).len() == attr_tokens(a).len(),
        crate::attrs::tok_run(st, attr_parts(a)[i]) == (crate::attrs::TokState {
            current: attr_tokens(a)[i],
            ..st
        }),
        attr_tokens(a)[i].len() > 0,
{
    reveal_strlit("#");
    reveal_strlit(".");
    reveal_strlit("=");
    reveal_strlit("=\"");
    reveal_strlit("\"");
    let nid: int = if a.id is Some { 1 } else { 0 };
    let nc = a.classes.len() as int;
    let parts = attr_parts(a);
    let toks = attr_tokens(a);
    assert(parts.len() == toks.len());
    let e = Seq::<char>::empty();
    if i < nid {
        let id = a.id->0;
        assert(parts[i] == "#"@ + id);
        assert(toks[i] == "#"@ + id);
        lemma_plain_concat("#"@, id);
        lemma_tok_plain(st, "#"@ + id);
        assert(e + ("#"@ + id) =~= "#"@ + id);
    } else if i < nid + nc {
        let c = a.classes[i - nid];
        assert(plain_text(c));
        assert(parts[i] == "."@ + c);
        assert(toks[i] == "."@ + c);
        lemma_plain_concat("."@, c);
        lemma_tok_plain(st, "."@ + c);
        assert(e + ("."@ + c) =~= "."@ + c);
    } else {
        let j = i - nid - nc;
        let (k, v) = a.pairs[j];
        assert(plain_text(k) && unquoted(v));
        assert(parts[i] == pair_src(k, v));
        assert(toks[i] == k + "="@ + v);
        lemma_plain_concat(k, "="@);
        if needs_quote(v) {
            let q = (k + "="@).push('"');
            assert(pair_src(k, v) =~= q + (v + seq!['"']));
            lemma_tok_concat(st, q, v + seq!['"']);
            lemma_tok_concat(st, k + "="@, seq!['"']);
            assert(q =~= (k + "="@) + seq!['"']);
            lemma_tok_plain(st, k + "="@);
            let s1 = crate::attrs::tok_run(st, k + "="@);
            lemma_tok_one(s1, '"');
            let s2 = crate::attrs::tok_step(s1, '"');
            lemma_tok_concat(s2, v, seq!['"']);
            lemma_tok_in_quotes(s2, v);
            let s3 = crate::attrs::tok_run(s2, v);
            lemma_tok_one(s3, '"');
            assert(e + (k + "="@) + v =~= k + "="@ + v);
        } else {
            assert(forall|m: int| 0 <= m < v.len() ==> !is_ws(#[trigger] v[m]));
            assert(plain_text(v)) by {
                assert forall|m: int| 0 <= m < v.len() implies #[trigger] plain_char(v[m]) by {
                    assert(!is_ws(v[m]));
                }
            }
            lemma_plain_concat(k + "="@, v);
            assert(pair_src(k, v) == k + "="@ + v);
            lemma_tok_plain(st, k + "="@ + v);
            assert(e + (k + "="@ + v) =~= k + "="@ + v);
        }
        assert(toks[i][k.len() as int] == '=');
    }
}

/// Reading the joined parts leaves every token but the last read and the last
/// one current.
proof fn lemma_join_tokens(a: AttrsV, n: int)
    requires
        attrs_writable(a),
        1 <= n <= attr_parts(a).len(),
    ensures
        crate::attrs::tok_run(crate::attrs::tok_init(), join_on(attr_parts(a).take(n), " "@))
            == (crate::attrs::TokState {
            tokens: attr_tokens(a).take(n - 1),
            current: attr_tokens(a)[n - 1],
            quote: None,
        }),
    decreases n,
{
    let parts = attr_parts(a);
    let toks = attr_tokens(a);
    let init = crate::attrs::tok_init();
    if n == 1 {
        assert(parts.take(1).len() == 1);
        assert(join_on(parts.take(1), " "@) == parts[0]);
        lemma_part_token(a, 0, init);
        assert(toks.take(0) =~= Seq::<Seq<char>>::empty());
    } else {
        reveal_strlit(" ");
        lemma_join_tokens(a, n - 1);
        assert(parts.take(n).drop_last() =~= parts.take(n - 1));
        let prev = join_on(parts.take(n - 1), " "@);
        assert(join_on(parts.take(n), " "@) == prev + " "@ + parts[n - 1]);
        lemma_tok_concat(init, prev + " "@, parts[n - 1]);
        lemma_tok_concat(init, prev, " "@);
        let s1 = crate::attrs::tok_run(init, prev);
        lemma_part_token(a, n - 2, init);
        assert(" "@ =~= seq![' ']);
        lemma_tok_one(s1, ' ');
        let s2 = crate::attrs::tok_step(s1, ' ');
        assert(s2 == (crate::attrs::TokState { tokens: toks.take(n - 2).push(toks[n - 2]), current: Seq::empty(), quote: None }));
        assert(toks.take(n - 2).push(toks[n - 2]) =~= toks.take(n - 1));
        lemma_part_token(a, n - 1, s2);
    }
}

proof fn lemma_eq_at(t: Seq<char>, j: int)
    requires
        0 <= j < t.len(),
        t[j] == '=',
        forall|m: int| 0 <= m < j ==> #[trigger] t[m] != '=',
    ensures
        crate::attrs::eq_index(t) == j,
{
    crate::attrs::lemma_eq_index(t);
    let e = crate::attrs::eq_index(t);
    if e < j {
        assert(t[e] == '=');
    }
    if e > j {
        assert(t[j] != '=');
    }
}

/// Applying the first `m` tokens builds the first `m` parts of the attributes.
proof fn lemma_apply_prefix(a: AttrsV, m: int)
    requires
        attrs_writable(a),
        0 <= m <= attr_tokens(a).len(),
    ensures
        ({
            let nid: int = if a.id is Some { 1 } else { 0 };
            let nc = a.classes.len() as int;
            crate::attrs::apply_tokens(AttrsV::empty(), attr_tokens(a).take(m)) == AttrsV {
                id: if m >= nid { a.id } else { None },
                classes: a.classes.take(if m - nid < 0 { 0 } else if m - nid > nc { nc } else { m - nid }),
                pairs: a.pairs.take(if m - nid - nc < 0 { 0 } else { m - nid - nc }),
            }
        }),
    decreases m,
{
    reveal_strlit("#");
    reveal_strlit(".");
    reveal_strlit("=");
    let nid: int = if a.id is Some { 1 } else { 0 };
    let nc = a.classes.len() as int;
    let toks = attr_tokens(a);
    if m == 0 {
        assert(toks.take(0) =~= Seq::<Seq<char>>::empty());
        assert(a.classes.take(0) =~= Seq::<Seq<char>>::empty());
        assert(a.pairs.take(0) =~= Seq::<(Seq<char>, Seq<char>)>::empty());
    } else {
        lemma_apply_prefix(a, m - 1);
        assert(toks.take(m).drop_last() =~= toks.take(m - 1));
        let t = toks[m - 1];
        let i = m - 1;
        if i < nid {
            assert(t == "#"@ + a.id->0);
            assert(t[0] == '#');
            assert(t.drop_first() =~= a.id->0);
        } else if i < nid + nc {
            let c = a.classes[i - nid];
            assert(t == "."@ + c);
            assert(t[0] == '.');
            assert(t.drop_first() =~= c);
            assert(a.classes.take(i - nid + 1) =~= a.classes.take(i - nid).push(c));
        } else {
            let j = i - nid - nc;
            let (k, v) = a.pairs[j];
            assert(t == k + "="@ + v);
            assert(t[k.len() as int] == '=');
            assert forall|q: int| 0 <= q < k.len() implies #[trigger] t[q] != '=' by {
                assert(t[q] == k[q]);
            }
            lemma_eq_at(t, k.len() as int);
            if k.len() > 0 {
                assert(t[0] == k[0]);
            }
            assert(t.take(k.len() as int) =~= k);
            assert(t.skip(k.len() as int + 1) =~= v);
            assert(a.pairs.take(j + 1) =~= a.pairs.take(j).push((k, v)));
        }
    }
}

/// Serialised attributes read back as the same attributes: parsing the
/// attribute block that the serializer writes gives back the id, the classes
/// and the pairs, in order.
pub proof fn law_attrs_round_trip(a: AttrsV)
    requires
        attrs_writable(a),
    ensures
        crate::attrs::attrs_of(attrs_src(a)) == a,
{
    reveal_strlit("{");
    reveal_strlit("}");
    let parts = attr_parts(a);
    let toks = attr_tokens(a);
    let n = parts.len() as int;
    assert(parts.len() == toks.len());
    let nid: int = if a.id is Some { 1 } else { 0 };
    assert(toks.len() == nid + a.classes.len() + a.pairs.len());
    if n == 0 {
        let e = Seq::<char>::empty();
        crate::text::lemma_trim_bounds(e);
        assert(crate::attrs::attr_body(e) =~= e);
        assert(crate::attrs::tok_run(crate::attrs::tok_init(), e) == crate::attrs::tok_init());
        assert(crate::attrs::tokens(e) =~= Seq::<Seq<char>>::empty());
        assert(a.classes =~= Seq::<Seq<char>>::empty());
        assert(a.pairs =~= Seq::<(Seq<char>, Seq<char>)>::empty());
    } else {
        let inner = join_on(parts, " "@);
        let src = "{"@ + inner + "}"@;
        assert(attrs_src(a) == src);
        crate::text::lemma_trim_bounds(src);
        assert(src[0] == '{');
        assert(src.last() == '}');
        assert(crate::text::lead_ws(src) == 0);
        assert(crate::text::trail_ws(src) == 0);
        assert(crate::text::trim(src) =~= src);
        assert(src.subrange(1, src.len() - 1) =~= inner);
        assert(crate::attrs::attr_body(src) == inner);
        lemma_join_tokens(a, n);
        assert(parts.take(n) =~= parts);
        lemma_part_token(a, n - 1, crate::attrs::tok_init());
        assert(crate::attrs::tokens(inner) =~= toks.take(n - 1).push(toks[n - 1]));
        assert(toks.take(n - 1).push(toks[n - 1]) =~= toks);
        lemma_apply_prefix(a, n);
        assert(toks.take(n) =~= toks);
        assert(a.classes.take(a.classes.len() as int) =~= a.classes);
        assert(a.pairs.take(a.pairs.len() as int) =~= a.pairs);
    }
}


/// `s` holds no line break.
pub open spec fn one_line(s: Seq<char>) -> bool {
    forall|k: int| 0 <= k < s.len() ==> #[trigger] s[k] != '\n'
}

proof fn lemma_one_line_add(x: Seq<char>, y: Seq<char>)
    requires
        one_line(x),
        one_line(y),
    ensures
        one_line(x + y),
{
    assert forall|k: int| 0 <= k < (x + y).len() implies #[trigger] (x + y)[k] != '\n' by {
        if k < x.len() {
            assert((x + y)[k] == x[k]);
        } else {
            assert((x + y)[k] == y[k - x.len()]);
        }
    }
}

proof fn lemma_join_one_line(parts: Seq<Seq<char>>, sep: Seq<char>)
    requires
        forall|j: int| 0 <= j < parts.len() ==> one_line(#[trigger] parts[j]),
        one_line(sep),
    ensures
        one_line(join_on(parts, sep)),
    decreases parts.len(),
{
    if parts.len() > 1 {
        lemma_join_one_line(parts.drop_last(), sep);
        lemma_one_line_add(join_on(parts.drop_last(), sep), sep);
        lemma_one_line_add(join_on(parts.drop_last(), sep) + sep, parts.last());
    }
}

/// A name that the directive reader reads back whole: it starts with a letter,
/// goes on with letters, digits, `-` and `_`, and holds no whitespace.
pub open spec fn fence_name(name: Seq<char>) -> bool {
    &&& name.len() > 0
    &&& is_name_start(name[0])
    &&& forall|k: int| 0 <= k < name.len() ==> is_name_char(#[trigger] name[k]) && !is_ws(name[k])
}

/// The opening line the serializer writes for a container directive.
pub open spec fn fence_head(name: Seq<char>, a: AttrsV) -> Seq<char> {
    ":::"@ + name + attrs_src(a)
}

/// No attribute value holds a line break.
pub open spec fn values_one_line(a: AttrsV) -> bool {
    forall|i: int| 0 <= i < a.pairs.len() ==> one_line(#[trigger] a.pairs[i].1)
}

proof fn lemma_attrs_src_one_line(a: AttrsV)
    requires
        attrs_writable(a),
        values_one_line(a),
    ensures
        one_line(attrs_src(a)),
{
    reveal_strlit("{");
    reveal_strlit("}");
    reveal_strlit("#");
    reveal_strlit(".");
    reveal_strlit("=");
    reveal_strlit("=\"");
    reveal_strlit("\"");
    reveal_strlit(" ");
    let parts = attr_parts(a);
    assert forall|j: int| 0 <= j < parts.len() implies one_line(#[trigger] parts[j]) by {
        let nid: int = if a.id is Some { 1 } else { 0 };
        let nc = a.classes.len() as int;
        if j < nid {
            let id = a.id->0;
            assert(parts[j] == "#"@ + id);
            assert forall|k: int| 0 <= k < id.len() implies #[trigger] id[k] != '\n' by {
                assert(plain_char(id[k]));
            }
            lemma_one_line_add("#"@, id);
        } else if j < nid + nc {
            let c = a.classes[j - nid];
            assert(parts[j] == "."@ + c);
            assert(plain_text(c));
            assert forall|k: int| 0 <= k < c.len() implies #[trigger] c[k] != '\n' by {
                assert(plain_char(c[k]));
            }
            lemma_one_line_add("."@, c);
        } else {
            let (k, v) = a.pairs[j - nid - nc];
            assert(parts[j] == pair_src(k, v));
            assert(plain_text(k) && one_line(v));
            assert forall|m: int| 0 <= m < k.len() implies #[trigger] k[m] != '\n' by {
                assert(plain_char(k[m]));
            }
            lemma_one_line_add(k, "=\""@);
            lemma_one_line_add(k + "=\""@, v);
            lemma_one_line_add(k + "=\""@ + v, "\""@);
            lemma_one_line_add(k, "="@);
            lemma_one_line_add(k + "="@, v);
        }
    }
    if parts.len() > 0 {
        lemma_join_one_line(parts, " "@);
        lemma_one_line_add("{"@, join_on(parts, " "@));
        lemma_one_line_add("{"@ + join_on(parts, " "@), "}"@);
    }
}

/// The opening line the serializer writes for a container directive reads
/// back, through the directive reader, as three colons, the same name and the
/// same attributes; the closing line `:::` reads back as a close of three
/// colons and opens nothing.
#[verifier::spinoff_prover]
#[verifier::rlimit(50)]
pub proof fn law_fence_head_reads_back(name: Seq<char>, a: AttrsV)
    requires
        fence_name(name),
        attrs_writable(a),
    ensures
        open_line(fence_head(name, a)) == Some((3nat, name, a)),
        close_line(":::"@) == Some(3nat),
        open_line(":::"@) is None,
{
    reveal_strlit(":::");
    reveal_strlit("{");
    reveal_strlit("}");
    let src = attrs_src(a);
    let h = fence_head(name, a);
    assert(h.len() > 3);
    if src.len() == 0 {
        assert(h.last() == name.last());
        assert(!is_ws(name[name.len() - 1]));
    } else {
        assert(src.last() == '}');
        assert(h.last() == src.last());
    }
    assert(crate::text::trail_ws(h) == 0);
    assert(crate::text::trim_end(h) =~= h);
    assert(h[3] == name[0]);
    crate::directive::lemma_colon_exact(h, 3);
    let rest = name + src;
    assert(h.skip(3) =~= rest);
    assert(rest[0] == name[0]);
    assert(crate::text::lead_ws(rest) == 0);
    assert(crate::text::trim_start(h.skip(3)) =~= rest);
    assert forall|k: int| 0 <= k < name.len() implies is_name_char(#[trigger] rest[k]) by {
        assert(rest[k] == name[k]);
    }
    if src.len() > 0 {
        assert(rest[name.len() as int] == src[0]);
        assert(src[0] == '{');
    }
    crate::directive::lemma_name_exact(rest, name.len() as int);
    assert(rest.take(name.len() as int) =~= name);
    assert(rest.skip(name.len() as int) =~= src);
    if src.len() > 0 {
        assert(crate::text::lead_ws(src) == 0);
        assert(crate::text::trim_start(src) =~= src);
        assert(crate::text::trail_ws(src) == 0);
        assert(crate::text::trim_end(src) =~= src);
    } else {
        assert(crate::text::trim(src) =~= src);
    }
    law_attrs_round_trip(a);
    lemma_close_fence();
}

proof fn lemma_close_fence()
    ensures
        close_line(":::"@) == Some(3nat),
        open_line(":::"@) is None,
{
    reveal_strlit(":::");
    let c = ":::"@;
    assert(crate::text::lead_ws(c) == 0);
    assert(crate::text::trail_ws(c) == 0);
    assert(crate::text::trim_start(c) =~= c);
    assert(crate::text::trim_end(c) =~= c);
    assert(crate::text::trim(c) =~= c);
    crate::directive::lemma_colon_exact(c, 3);
    assert(c.skip(3) =~= Seq::<char>::empty());
    assert(crate::text::lead_ws(c.skip(3)) == 0);
    assert(crate::text::trim_start(c.skip(3)) =~= Seq::<char>::empty());
    assert(crate::directive::name_run(crate::text::trim_start(c.skip(3))) == 0);
}

/// The first line break of `x + "\n" + y`, when `x` holds none, ends `x`.
proof fn lemma_lines_cons(x: Seq<char>, y: Seq<char>)
    requires
        x.len() > 0,
        one_line(x),
        x.last() != '\r',
    ensures
        crate::text::lines(x + "\n"@ + y) == seq![x] + crate::text::lines(y),
{
    reveal_strlit("\n");
    let s = x + "\n"@ + y;
    crate::text::lemma_nl_index(s);
    let k = crate::text::nl_index(s);
    assert(s[x.len() as int] == '\n');
    if k > x.len() {
        assert(s[x.len() as int] != '\n');
    }
    if k < x.len() {
        assert(s[k] == x[k]);
    }
    assert(k == x.len());
    assert(s[k - 1] == x.last());
    assert(crate::text::line_body(s) =~= x);
    assert(s.skip(k + 1) =~= y);
}

/// Breaking `b + "\n" + z` into lines breaks `b` and `z` apart, when `b` does
/// not end in a line break or a carriage return.
proof fn lemma_lines_append(b: Seq<char>, z: Seq<char>)
    requires
        b.len() > 0,
        b.last() != '\n',
        b.last() != '\r',
    ensures
        crate::text::lines(b + "\n"@ + z) == crate::text::lines(b) + crate::text::lines(z),
    decreases b.len(),
{
    reveal_strlit("\n");
    crate::text::lemma_nl_index(b);
    let k = crate::text::nl_index(b);
    if k >= b.len() {
        assert(one_line(b));
        lemma_lines_cons(b, z);
        assert(crate::text::line_body(b) =~= b);
    } else {
        let s = b + "\n"@ + z;
        crate::text::lemma_nl_index(s);
        let ks = crate::text::nl_index(s);
        assert(s[k] == b[k]);
        if ks > k {
            assert(s[k] != '\n');
        }
        if ks < k {
            assert(s[ks] == b[ks]);
        }
        assert(ks == k);
        assert(k < b.len() - 1);
        if k > 0 {
            assert(s[k - 1] == b[k - 1]);
        }
        assert(s.take(k) =~= b.take(k));
        if k > 0 {
            assert(s.take(k - 1) =~= b.take(k - 1));
        }
        assert(crate::text::line_body(s) == crate::text::line_body(b));
        let r = b.skip(k + 1);
        assert(s.skip(k + 1) =~= r + "\n"@ + z);
        assert(r.last() == b.last());
        lemma_lines_append(r, z);
        assert(crate::text::lines(s) =~= seq![crate::text::line_body(b)] + (crate::text::lines(r)
            + crate::text::lines(z)));
    }
}

/// The frame of an open directive holding `text` so far.
pub open spec fn open_frame(name: Seq<char>, a: AttrsV, text: Seq<Seq<char>>) -> FrameV {
    FrameV { name, attrs: a, colons: 3, segments: Seq::empty(), text }
}

proof fn lemma_split_body(h: Seq<char>, ls: Seq<Seq<char>>, name: Seq<char>, a: AttrsV, j: int)
    requires
        open_line(h) == Some((3nat, name, a)),
        0 <= j <= ls.len(),
        forall|i: int| 0 <= i < ls.len() ==> open_line(#[trigger] ls[i]) is None && close_line(ls[i]) is None,
    ensures
        split_run(seq![h] + ls.take(j)) == Some(seq![root_v(), open_frame(name, a, ls.take(j))]),
    decreases j,
{
    if j == 0 {
        assert(seq![h] + ls.take(0) =~= seq![h]);
        assert(seq![h].drop_last() =~= Seq::<Seq<char>>::empty());
        assert(split_run(Seq::<Seq<char>>::empty()) == Some(seq![root_v()]));
        assert(seq![h].last() == h);
        assert(flush(root_v()) == root_v());
        assert(ls.take(0) =~= Seq::<Seq<char>>::empty());
        assert(seq![root_v()].len() <= crate::cm::MAX_NESTING_DEPTH);
        assert(seq![root_v()].update(0, flush(root_v())).push(open_frame(name, a, Seq::empty())) =~= seq![
            root_v(),
            open_frame(name, a, ls.take(0)),
        ]);
    } else {
        lemma_split_body(h, ls, name, a, j - 1);
        let p = seq![h] + ls.take(j);
        assert(p.drop_last() =~= seq![h] + ls.take(j - 1));
        assert(p.last() == ls[j - 1]);
        let s = seq![root_v(), open_frame(name, a, ls.take(j - 1))];
        assert(ls.take(j - 1).push(ls[j - 1]) =~= ls.take(j));
        assert(s.update(1, FrameV { text: s.last().text.push(ls[j - 1]), ..s.last() }) =~= seq![
            root_v(),
            open_frame(name, a, ls.take(j)),
        ]);
    }
}

/// The children of a directive read from text lines `ls`: one text run, or
/// nothing when there are no lines.
pub open spec fn text_run(ls: Seq<Seq<char>>) -> Seq<SegV> {
    if ls.len() == 0 {
        Seq::empty()
    } else {
        seq![SegV::Text(join_lines(ls))]
    }
}

/// The lines of a container directive as the serializer writes it: its
/// opening line, the lines of its children, and the closing `:::`.
proof fn lemma_fence_lines(name: Seq<char>, a: AttrsV, c: Seq<BlockV>)
    requires
        fence_name(name),
        attrs_writable(a),
        values_one_line(a),
        ser_blocks(c).len() > 0 ==> ser_blocks(c).last() != '\n' && ser_blocks(c).last() != '\r',
    ensures
        crate::text::lines(ser_block(BlockV::Component { name, attrs: a, body: BodyV::Children(c) }))
            == seq![fence_head(name, a)] + crate::text::lines(ser_blocks(c)) + seq![":::"@],
{
    reveal_strlit(":::");
    reveal_strlit("\n");
    reveal_strlit("\n:::");
    reveal_strlit("{");
    reveal_strlit("}");
    lemma_attrs_src_one_line(a);
    let h = fence_head(name, a);
    let b = ser_blocks(c);
    let ls = crate::text::lines(b);
    assert forall|k: int| 0 <= k < name.len() implies #[trigger] name[k] != '\n' by {
        assert(!is_ws(name[k]));
    }
    lemma_one_line_add(":::"@, name);
    lemma_one_line_add(":::"@ + name, attrs_src(a));
    assert(h.last() != '\r') by {
        if attrs_src(a).len() == 0 {
            assert(h.last() == name.last());
            assert(!is_ws(name[name.len() - 1]));
        } else {
            assert(attrs_src(a).last() == '}');
            assert(h.last() == attrs_src(a).last());
        }
    }
    let src = ser_block(BlockV::Component { name, attrs: a, body: BodyV::Children(c) });
    let close = ":::"@;
    assert(crate::text::lines(close) =~= seq![close]) by {
        crate::text::lemma_nl_index(close);
        let k = crate::text::nl_index(close);
        if k < 3 {
            assert(close[k] == ':');
        }
        assert(crate::text::line_body(close) =~= close);
    }
    if b.len() == 0 {
        assert(src =~= h + "\n"@ + close);
        lemma_lines_cons(h, close);
        assert(ls.len() == 0);
        assert(crate::text::lines(src) =~= seq![h] + ls + seq![close]);
    } else {
        assert(src =~= h + "\n"@ + (b + "\n"@ + close));
        lemma_lines_cons(h, b + "\n"@ + close);
        lemma_lines_append(b, close);
        assert(crate::text::lines(src) =~= seq![h] + ls + seq![close]);
    }
}

/// Reading the opening line, plain text lines and the closing `:::` leaves
/// the root holding one directive.
proof fn lemma_split_fence(h: Seq<char>, ls: Seq<Seq<char>>, name: Seq<char>, a: AttrsV)
    requires
        open_line(h) == Some((3nat, name, a)),
        forall|i: int| 0 <= i < ls.len() ==> open_line(#[trigger] ls[i]) is None && close_line(ls[i]) is None,
    ensures
        split_run(seq![h] + ls + seq![":::"@]) == Some(
            seq![
                FrameV {
                    segments: seq![SegV::Directive { name, attrs: a, children: text_run(ls) }],
                    ..root_v()
                },
            ],
        ),
{
    lemma_close_fence();
    let all = seq![h] + ls + seq![":::"@];
    lemma_split_body(h, ls, name, a, ls.len() as int);
    assert(ls.take(ls.len() as int) =~= ls);
    assert(all.drop_last() =~= seq![h] + ls.take(ls.len() as int));
    assert(all.last() == ":::"@);
    let st = seq![root_v(), open_frame(name, a, ls)];
    let f = flush(open_frame(name, a, ls));
    assert(f.segments =~= text_run(ls));
    assert(close_top(st) =~= seq![
        FrameV {
            segments: seq![SegV::Directive { name, attrs: a, children: text_run(ls) }],
            ..root_v()
        },
    ]);
}

/// A container directive as the serializer writes it reads back, through the
/// directive reader, as that one directive, with the same name and the same
/// attributes, holding its serialised children as one run of text: provided
/// its name reads back whole, no attribute value holds a line break, the
/// serialised children end in neither a line break nor a carriage return, and
/// none of their lines opens or closes a directive.
pub proof fn law_directive_reads_back(name: Seq<char>, a: AttrsV, c: Seq<BlockV>)
    requires
        fence_name(name),
        attrs_writable(a),
        values_one_line(a),
        ser_blocks(c).len() > 0 ==> ser_blocks(c).last() != '\n' && ser_blocks(c).last() != '\r',
        forall|i: int|
            0 <= i < crate::text::lines(ser_blocks(c)).len() ==> open_line(
                #[trigger] crate::text::lines(ser_blocks(c))[i],
            ) is None && close_line(crate::text::lines(ser_blocks(c))[i]) is None,
    ensures
        split_spec(ser_block(BlockV::Component { name, attrs: a, body: BodyV::Children(c) })) == Ok::<
            Seq<SegV>,
            Seq<char>,
        >(seq![SegV::Directive { name, attrs: a, children: text_run(crate::text::lines(ser_blocks(c))) }]),
{
    law_fence_head_reads_back(name, a);
    lemma_fence_lines(name, a, c);
    lemma_split_fence(fence_head(name, a), crate::text::lines(ser_blocks(c)), name, a);
    let top = FrameV {
        segments: seq![
            SegV::Directive { name, attrs: a, children: text_run(crate::text::lines(ser_blocks(c))) },
        ],
        ..root_v()
    };
    assert(flush(top) == top);
}


/// Each inline kind is written back in its own markdown form, wherever it
/// stands: emphasis between `*`, strong emphasis between `**`, strikethrough
/// between `~~`, a hard line break as a backslash before the line break (so it
/// cannot read back as a soft break, which is a bare line break), a link as
/// `[text](destination)`, an image as `![alt](destination)`, and the
/// extensions as `[^name]`, `[#label]` and `[@key]`.
pub proof fn law_inline_forms(
    c: Seq<InlineV>,
    t: Seq<char>,
    url: Seq<char>,
    title: Seq<char>,
    begin: bool,
    tab: bool,
)
    ensures
        ser_inline(InlineV::HardBreak, begin, tab) == ("\\\n"@, true),
        ser_inline(InlineV::SoftBreak, begin, tab) == ("\n"@, true),
        ser_inline(InlineV::HardBreak, begin, tab).0 != ser_inline(InlineV::SoftBreak, begin, tab).0,
        ser_inline(InlineV::HardBreak, begin, tab).0.last() == '\n',
        ser_inline(InlineV::HardBreak, begin, tab).0[0] == '\\',
        ser_inline(InlineV::Emphasis(c), begin, tab).0 == "*"@ + ser_inlines_st(c, false, tab).0 + "*"@,
        ser_inline(InlineV::Strong(c), begin, tab).0 == "**"@ + ser_inlines_st(c, false, tab).0 + "**"@,
        ser_inline(InlineV::Strikethrough(c), begin, tab).0 == "~~"@ + ser_inlines_st(c, false, tab).0 + "~~"@,
        ser_inline(InlineV::Link { url, title, content: c }, begin, tab).0 == "["@ + ser_inlines_st(c, false, tab).0
            + "]("@ + url_v(url) + title_v(title) + ")"@,
        ser_inline(InlineV::Image { url, title, alt: c }, begin, tab).0 == "!["@ + ser_inlines_st(c, false, tab).0
            + "]("@ + url_v(url) + title_v(title) + ")"@,
        ser_inline(InlineV::FootnoteReference(t), begin, tab).0 == "[^"@ + t + "]"@,
        ser_inline(InlineV::CrossRef(t), begin, tab).0 == "[#"@ + t + "]"@,
        ser_inline(InlineV::Citation(t), begin, tab).0 == "[@"@ + t + "]"@,
        ser_inline(InlineV::Code(t), begin, tab).0 == inline_code_v(t),
{
    reveal_strlit("\\\n");
    reveal_strlit("\n");
    assert("\\\n"@.len() == 2);
    assert("\n"@.len() == 1);
}

/// Writing two inline runs one after the other writes the first, then the
/// second from where the first left off.
pub proof fn law_inlines_written_in_order(s: Seq<InlineV>, u: Seq<InlineV>, begin: bool, tab: bool)
    ensures
        ser_inlines_st(s + u, begin, tab) == (
            ser_inlines_st(s, begin, tab).0 + ser_inlines_st(u, ser_inlines_st(s, begin, tab).1, tab).0,
            ser_inlines_st(u, ser_inlines_st(s, begin, tab).1, tab).1,
        ),
    decreases u.len(),
{
    let b1 = ser_inlines_st(s, begin, tab).1;
    if u.len() == 0 {
        assert(s + u =~= s);
        assert(ser_inlines_st(s, begin, tab).0 + Seq::<char>::empty() =~= ser_inlines_st(s, begin, tab).0);
    } else {
        law_inlines_written_in_order(s, u.drop_last(), begin, tab);
        assert((s + u).drop_last() =~= s + u.drop_last());
        assert((s + u).last() == u.last());
        let a = ser_inlines_st(u.drop_last(), b1, tab);
        let l = ser_inline(u.last(), a.1, tab);
        assert(ser_inlines_st(s + u, begin, tab).0 =~= ser_inlines_st(s, begin, tab).0 + (a.0 + l.0));
    }
}


/// Each block kind is written back in its own markdown form: a heading as its
/// level in `#` marks, a space and its text; a thematic break as `---`; a block
/// quote with every line behind `> `; a code block fenced; a list item behind
/// `- `, `- [x] `, `- [ ] ` or its number and `. `; a document as its blocks
/// separated by blank lines, and a final line break.
pub proof fn law_block_forms(level: u8, c: Seq<InlineV>, bs: Seq<BlockV>, b: BlockV, info: Seq<char>, literal: Seq<char>, start: u32, k: int)
    ensures
        ser_block(BlockV::Heading { level, content: c }) == rep('#', crate::render::clamp_level(level) as nat) + " "@
            + ser_inlines_st(c, true, false).0,
        rep('#', 2).len() == 2,
        ser_block(BlockV::ThematicBreak) == "---"@,
        ser_block(BlockV::BlockQuote(bs)) == prefix_lines_v(ser_blocks(bs), "> "@, "> "@),
        ser_block(BlockV::CodeBlock { info, literal }) == fenced_v(info, literal),
        ser_block(BlockV::Paragraph(c)) == ser_inlines_st(c, true, false).0,
        marker(false, start, k, None) == "- "@,
        marker(false, start, k, Some(true)) == "- [x] "@,
        marker(false, start, k, Some(false)) == "- [ ] "@,
        marker(true, start, k, None) == dec(item_no(start, k)) + ". "@,
        bs.len() > 0 ==> ser_blocks(bs.push(b)) == ser_blocks(bs) + "\n\n"@ + ser_block(b),
        ser_blocks(seq![b]) == ser_block(b),
        to_source_v(bs) == ser_blocks(bs) + "\n"@,
{
    assert(bs.push(b).drop_last() =~= bs);
    assert(rep('#', 2).len() == 2) by {
        assert(rep('#', 2) == rep('#', 1).push('#'));
        assert(rep('#', 1) == rep('#', 0).push('#'));
    }
}

} // verus!
