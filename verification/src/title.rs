//! The title of a standalone HTML export: the text of the first level-1
//! ATX heading line, escaped for the `<title>` element.
use vstd::prelude::*;
use crate::text::{chars_of, line_bounds, lines, push_char, skip_ws, string_of, trim, trim_bounds, trim_start};

verus! {

/// `s` without its trailing `#` characters.
pub open spec fn trim_hashes(s: Seq<char>) -> Seq<char>
    decreases s.len(),
{
    if s.len() > 0 && s.last() == '#' {
        trim_hashes(s.drop_last())
    } else {
        s
    }
}

/// The title a line gives: after leading whitespace and `# `, the rest
/// trimmed, stripped of closing `#`s and trimmed again; `None` when the line is
/// no level-1 heading or the title is empty.
pub open spec fn line_title(line: Seq<char>) -> Option<Seq<char>> {
    let t = trim_start(line);
    if t.len() >= 2 && t[0] == '#' && t[1] == ' ' {
        let title = trim(trim_hashes(trim(t.skip(2))));
        if title.len() > 0 {
            Some(title)
        } else {
            None
        }
    } else {
        None
    }
}

pub open spec fn first_title(ls: Seq<Seq<char>>) -> Option<Seq<char>>
    decreases ls.len(),
{
    if ls.len() == 0 {
        None
    } else {
        match line_title(ls[0]) {
            Some(t) => Some(t),
            None => first_title(ls.drop_first()),
        }
    }
}

/// A document's title: the first level-1 heading line's text, or
/// `alt-markdown document`.
pub open spec fn title_v(source: Seq<char>) -> Seq<char> {
    match first_title(lines(source)) {
        Some(t) => t,
        None => "alt-markdown document"@,
    }
}

/// Derive a document title from the first level-1 heading, falling back to a
/// generic name.
pub fn document_title(source: &str) -> (r: String)
    ensures
        r@ == title_v(source@),
{
    let c = chars_of(source);
    let lb = line_bounds(&c);
    let ghost ls = lines(c@);
    let mut i: usize = 0;
    assert(ls.skip(0) =~= ls);
    while i < lb.len()
        invariant
            i <= lb@.len(),
            c@ == source@,
            ls == lines(c@),
            lb@.len() == ls.len(),
            forall|k: int|
                0 <= k < lb@.len() ==> (#[trigger] lb@[k]).0 <= lb@[k].1 <= c@.len() && c@.subrange(
                    lb@[k].0 as int,
                    lb@[k].1 as int,
                ) == ls[k],
            first_title(ls) == first_title(ls.skip(i as int)),
        decreases lb.len() - i,
    {
        assert(ls.skip(i as int).drop_first() =~= ls.skip(i + 1));
        assert(ls.skip(i as int)[0] == ls[i as int]);
        let (s0, e0) = lb[i];
        let ghost line = ls[i as int];
        let a = skip_ws(&c, s0, e0);
        assert(c@.subrange(a as int, e0 as int) =~= trim_start(line));
        if e0 - a >= 2 && c[a] == '#' && c[a + 1] == ' ' {
            let (x, y) = trim_bounds(&c, a + 2, e0);
            assert(c@.subrange(a + 2, e0 as int) =~= trim_start(line).skip(2));
            let mut z = y;
            while z > x && c[z - 1] == '#'
                invariant
                    x <= z <= y,
                    y <= c@.len(),
                    trim_hashes(c@.subrange(x as int, y as int)) == trim_hashes(c@.subrange(x as int, z as int)),
                decreases z,
            {
                assert(c@.subrange(x as int, z as int).drop_last() =~= c@.subrange(x as int, z - 1));
                z = z - 1;
            }
            assert(trim_hashes(c@.subrange(x as int, z as int)) == c@.subrange(x as int, z as int));
            let (u, w) = trim_bounds(&c, x, z);
            if u < w {
                return string_of(&c, u, w);
            }
        }
        i = i + 1;
    }
    let mut r = String::new();
    r.append("alt-markdown document");
    r
}

/// Text with `&`, `<` and `>` written as entities.
pub open spec fn esc_title(s: Seq<char>) -> Seq<char>
    decreases s.len(),
{
    if s.len() == 0 {
        Seq::empty()
    } else {
        esc_title(s.drop_last()) + if s.last() == '&' {
            "&amp;"@
        } else if s.last() == '<' {
            "&lt;"@
        } else if s.last() == '>' {
            "&gt;"@
        } else {
            seq![s.last()]
        }
    }
}

/// Escape text for the `<title>` element.
pub fn escape_title(text: &str) -> (r: String)
    ensures
        r@ == esc_title(text@),
{
    let c = chars_of(text);
    let mut r = String::new();
    let mut i: usize = 0;
    assert(c@.take(0) =~= Seq::<char>::empty());
    while i < c.len()
        invariant
            i <= c@.len(),
            c@ == text@,
            r@ == esc_title(c@.take(i as int)),
        decreases c.len() - i,
    {
        assert(c@.take(i + 1).drop_last() =~= c@.take(i as int));
        if c[i] == '&' {
            r.append("&amp;");
        } else if c[i] == '<' {
            r.append("&lt;");
        } else if c[i] == '>' {
            r.append("&gt;");
        } else {
            push_char(&mut r, c[i]);
        }
        assert(r@ =~= esc_title(c@.take(i + 1)));
        i = i + 1;
    }
    assert(c@.take(c@.len() as int) =~= c@);
    r
}


/// A line `# T` (a level-1 ATX heading) gives the title `T`, trimmed and
/// without closing `#`s; a line that does not start, after whitespace, with
/// `#` and a space gives none; and the first line that gives a title is the
/// document's title, whatever follows.
pub proof fn law_title_lines(t: Seq<char>, l: Seq<char>, ls: Seq<Seq<char>>)
    ensures
        (t.len() > 0 && crate::text::lead_ws(t) == 0 && crate::text::trail_ws(t) == 0 && t.last() != '#')
            ==> line_title("# "@ + t) == Some(t),
        (trim_start(l).len() < 2 || trim_start(l)[0] != '#' || trim_start(l)[1] != ' ') ==> line_title(l) is None,
        line_title(l) is Some ==> first_title(seq![l] + ls) == line_title(l),
        line_title(l) is None ==> first_title(seq![l] + ls) == first_title(ls),
{
    reveal_strlit("# ");
    let s = "# "@ + t;
    if t.len() > 0 && crate::text::lead_ws(t) == 0 && crate::text::trail_ws(t) == 0 && t.last() != '#' {
        assert(crate::text::lead_ws(s) == 0);
        assert(trim_start(s) =~= s);
        assert(s.skip(2) =~= t);
        assert(trim_start(t) =~= t);
        assert(crate::text::trim_end(t) =~= t);
        assert(trim(t) =~= t);
        assert(trim_hashes(t) == t);
    }
    assert((seq![l] + ls)[0] == l);
    assert((seq![l] + ls).drop_first() =~= ls);
}

} // verus!
