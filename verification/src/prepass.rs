//! The walk over a document that comes before rendering: every heading gets a
//! unique anchor slug and a label, every `:::figure` is counted per kind and
//! labelled with its number, `[@key]` citations are listed in order of first
//! appearance, and `bib` fences are read into bibliography entries.
use vstd::prelude::*;
use crate::ast::{
    first_value, AttrsV, Attrs, Block, BlockV, BodyV, ComponentBody, Inline, InlineV, ItemV,
    blocks_v, cells_v, inline_v, inlines_v, items_v, rows_v,
};
use crate::html::dec;
use crate::text::{
    strs_v, chars_of, char_is_alphanumeric, char_to_lowercase, is_ascii_alnum, is_ascii_alpha, lines,
    lower, push_char, str_eq, string_of, trim, trim_bounds, line_bounds, unicode_alphanumeric, unicode_lower,
};

verus! {

broadcast use crate::ast::group_views;

/// Whether `char::is_alphanumeric` holds of `c`: for ASCII, a letter or a digit.
pub open spec fn slug_char(c: char) -> bool {
    if (c as u32) < 128 {
        is_ascii_alnum(c)
    } else {
        unicode_alphanumeric(c)
    }
}

/// The lowercase of `c` as `char::to_lowercase` gives it: the ASCII lowercase
/// for an ASCII character, the Unicode mapping otherwise.
pub open spec fn case_fold(c: char) -> Seq<char> {
    if (c as u32) < 128 {
        seq![lower(c)]
    } else {
        unicode_lower(c)
    }
}

/// The slug built so far from `t`, and whether a separator is pending.
pub open spec fn slug_fold(t: Seq<char>) -> (Seq<char>, bool)
    decreases t.len(),
{
    if t.len() == 0 {
        (Seq::empty(), false)
    } else {
        let (s, pending) = slug_fold(t.drop_last());
        let c = t.last();
        if slug_char(c) {
            let s1 = if pending && s.len() > 0 {
                s.push('-')
            } else {
                s
            };
            (s1 + case_fold(c), false)
        } else {
            (s, true)
        }
    }
}

/// Heading text as an anchor slug: alphanumerics kept, in their Unicode
/// lowercase,
/// every run of other characters between them collapsed to one hyphen, and
/// `section` when nothing is left.
pub open spec fn slugify_v(t: Seq<char>) -> Seq<char> {
    if slug_fold(t).0.len() == 0 {
        "section"@
    } else {
        slug_fold(t).0
    }
}

/// Reduce heading text to a URL-friendly anchor slug.
pub fn slugify(text: &str) -> (r: String)
    ensures
        r@ == slugify_v(text@),
{
    let c = chars_of(text);
    let mut slug = String::new();
    let mut filled: bool = false;
    let mut pending: bool = false;
    let mut i: usize = 0;
    assert(c@.take(0) =~= Seq::<char>::empty());
    while i < c.len()
        invariant
            i <= c@.len(),
            c@ == text@,
            (slug@, pending) == slug_fold(c@.take(i as int)),
            filled == (slug@.len() > 0),
        decreases c.len() - i,
    {
        let ch = c[i];
        assert(c@.take(i + 1).drop_last() =~= c@.take(i as int));
        let a = char_is_alphanumeric(ch);
        if a {
            if pending && filled {
                push_char(&mut slug, '-');
            }
            pending = false;
            let lc = char_to_lowercase(ch);
            assert(lc@ == case_fold(ch));
            slug.append(lc.as_str());
            filled = true;
        } else {
            pending = true;
        }
        i = i + 1;
    }
    assert(c@.take(c@.len() as int) =~= c@);
    if !filled {
        slug.append("section");
    }
    slug
}

/// The lowercase mapping of `c` is one or more characters, none of them a hyphen.
pub open spec fn lowers_plainly(c: char) -> bool {
    case_fold(c).len() > 0 && !case_fold(c).contains('-')
}

proof fn lemma_slug_fold(t: Seq<char>)
    requires
        forall|i: int| 0 <= i < t.len() && slug_char(t[i]) && (t[i] as u32) >= 128 ==> lowers_plainly(#[trigger] t[i]),
    ensures
        slug_fold(t).0.len() > 0 ==> slug_fold(t).0[0] != '-' && slug_fold(t).0.last() != '-',
        forall|k: int|
            0 <= k < slug_fold(t).0.len() - 1 ==> !(#[trigger] slug_fold(t).0[k] == '-' && slug_fold(
                t,
            ).0[k + 1] == '-'),
    decreases t.len(),
{
    if t.len() > 0 {
        let u = t.drop_last();
        assert forall|i: int| 0 <= i < u.len() && slug_char(u[i]) && (u[i] as u32) >= 128 implies lowers_plainly(#[trigger] u[i]) by {
            assert(u[i] == t[i]);
        }
        lemma_slug_fold(u);
        let (s, pending) = slug_fold(u);
        let c = t.last();
        if slug_char(c) {
            if (c as u32) < 128 {
                assert(crate::text::is_ascii_alnum(c));
                assert(lower(c) != '-');
                assert(case_fold(c) =~= seq![lower(c)]);
                assert(!case_fold(c).contains('-')) by {
                    if case_fold(c).contains('-') {
                        let j = choose|j: int| 0 <= j < case_fold(c).len() && case_fold(c)[j] == '-';
                        assert(j == 0);
                    }
                }
            } else {
                assert(lowers_plainly(t[t.len() - 1]));
            }
            let l = case_fold(c);
            assert forall|j: int| 0 <= j < l.len() implies l[j] != '-' by {
                if l[j] == '-' {
                    assert(l.contains('-'));
                }
            }
            let s1 = if pending && s.len() > 0 {
                s.push('-')
            } else {
                s
            };
            let r = s1 + l;
            assert forall|k: int| 0 <= k < r.len() - 1 implies !(#[trigger] r[k] == '-' && r[k + 1] == '-') by {
                if k + 1 < s.len() {
                    assert(r[k] == s[k] && r[k + 1] == s[k + 1]);
                } else if k + 1 == s.len() {
                    assert(r[k] == s[k]);
                } else if k + 1 >= s1.len() {
                    assert(r[k + 1] == l[k + 1 - s1.len()]);
                }
            }
            if s.len() > 0 {
                assert(r[0] == s[0]);
            } else {
                assert(r[0] == l[0]);
            }
            assert(r.last() == l[l.len() - 1]);
        }
    }
}

/// A slug is never empty, never starts or ends with a hyphen, and never holds
/// two hyphens in a row, provided the Unicode lowercase mapping of each
/// non-ASCII alphanumeric character of the text is one or more characters other
/// than a hyphen.
pub proof fn law_slug_shape(t: Seq<char>)
    requires
        forall|i: int| 0 <= i < t.len() && slug_char(t[i]) && (t[i] as u32) >= 128 ==> lowers_plainly(#[trigger] t[i]),
    ensures
        slugify_v(t).len() > 0,
        slugify_v(t)[0] != '-',
        slugify_v(t).last() != '-',
        forall|k: int| 0 <= k < slugify_v(t).len() - 1 ==> !(#[trigger] slugify_v(t)[k] == '-' && slugify_v(
            t,
        )[k + 1] == '-'),
{
    lemma_slug_fold(t);
    reveal_strlit("section");
}

/// The anchor that try `k` proposes for `base`: `base` itself, then `base-1`,
/// `base-2`, ...
pub open spec fn candidate(base: Seq<char>, k: nat) -> Seq<char> {
    if k == 0 {
        base
    } else {
        base + "-"@ + dec(k)
    }
}

/// The first try from `k` on, within `fuel` tries, whose candidate has not been
/// issued (`k + fuel` when every one of them has been).
pub open spec fn first_free(base: Seq<char>, issued: Seq<Seq<char>>, k: nat, fuel: nat) -> nat
    decreases fuel,
{
    if fuel == 0 || !issued.contains(candidate(base, k)) {
        k
    } else {
        first_free(base, issued, k + 1, (fuel - 1) as nat)
    }
}

/// The anchor for a heading whose slug is `base`, given the anchors already
/// issued: `base` when it is free, otherwise `base-k` for the least `k >= 1`
/// for which that is free.
pub open spec fn unique_slug_v(base: Seq<char>, issued: Seq<Seq<char>>) -> Seq<char> {
    candidate(base, first_free(base, issued, 0, issued.len() + 1))
}

/// Different tries propose different anchors.
pub proof fn lemma_candidates_differ(base: Seq<char>, i: nat, j: nat)
    requires
        i != j,
    ensures
        candidate(base, i) != candidate(base, j),
{
    reveal_strlit("-");
    crate::html::lemma_dec_len(i);
    crate::html::lemma_dec_len(j);
    if i > 0 && j > 0 {
        let a = candidate(base, i);
        let b = candidate(base, j);
        if a == b {
            assert(dec(i) =~= a.skip(base.len() as int + 1));
            assert(dec(j) =~= b.skip(base.len() as int + 1));
            crate::html::lemma_dec_injective(i, j);
        }
    } else if i == 0 {
        assert(candidate(base, j).len() > base.len());
    } else {
        assert(candidate(base, i).len() > base.len());
    }
}

proof fn lemma_first_free(base: Seq<char>, issued: Seq<Seq<char>>, k: nat, fuel: nat)
    ensures
        k <= first_free(base, issued, k, fuel) <= k + fuel,
        first_free(base, issued, k, fuel) < k + fuel ==> !issued.contains(
            candidate(base, first_free(base, issued, k, fuel)),
        ),
        forall|m: nat| k <= m < first_free(base, issued, k, fuel) ==> issued.contains(#[trigger] candidate(base, m)),
    decreases fuel,
{
    if fuel > 0 && issued.contains(candidate(base, k)) {
        lemma_first_free(base, issued, k + 1, (fuel - 1) as nat);
    }
}

/// Among the first `issued.len() + 1` tries one is free: the anchor chosen has
/// not been issued before.
pub proof fn lemma_unique_slug_fresh(base: Seq<char>, issued: Seq<Seq<char>>)
    ensures
        first_free(base, issued, 0, issued.len() + 1) <= issued.len(),
        !issued.contains(unique_slug_v(base, issued)),
{
    let n = issued.len();
    lemma_first_free(base, issued, 0, n + 1);
    let r = first_free(base, issued, 0, n + 1);
    if r == n + 1 {
        let xs = Seq::new(n + 1, |m: int| candidate(base, m as nat));
        assert forall|a: int, b: int| 0 <= a < xs.len() && 0 <= b < xs.len() && a != b implies xs[a]
            != xs[b] by {
            lemma_candidates_differ(base, a as nat, b as nat);
        }
        assert(xs.no_duplicates());
        xs.unique_seq_to_set();
        issued.lemma_cardinality_of_set();
        assert forall|x: Seq<char>| xs.to_set().contains(x) implies issued.to_set().contains(x) by {
            let m = choose|m: int| 0 <= m < xs.len() && xs[m] == x;
            assert(issued.contains(candidate(base, m as nat)));
        }
        vstd::set_lib::lemma_len_subset(xs.to_set(), issued.to_set());
    }
}

/// Disambiguate `base` against the anchors already issued in this document.
pub fn unique_slug(base: &String, issued: &Vec<String>) -> (r: String)
    ensures
        r@ == unique_slug_v(base@, strs_v(issued@)),
{
    let ghost iv = strs_v(issued@);
    let n = issued.len();
    let mut k: usize = 0;
    let mut cand = base.clone();
    proof {
        lemma_unique_slug_fresh(base@, iv);
    }
    while k < n && contains_str(issued, &cand)
        invariant
            k <= n,
            n == issued@.len(),
            iv == strs_v(issued@),
            iv.len() == n,
            cand@ == candidate(base@, k as nat),
            first_free(base@, iv, 0, (n + 1) as nat) == first_free(base@, iv, k as nat, (n + 1 - k) as nat),
            first_free(base@, iv, 0, (n + 1) as nat) <= n,
        decreases n - k,
    {
        k = k + 1;
        cand = base.clone();
        cand.append("-");
        crate::html::push_dec(&mut cand, k as u64);
    }
    proof {
        lemma_first_free(base@, iv, k as nat, (n + 1 - k) as nat);
    }
    cand
}

/// The plain text of an inline sequence, as heading labels and image alt text
/// use it.
pub open spec fn text_inlines(s: Seq<InlineV>) -> Seq<char>
    decreases s,
{
    if s.len() == 0 {
        Seq::empty()
    } else {
        text_inlines(s.drop_last()) + text_inline(s.last())
    }
}

pub open spec fn text_inline(i: InlineV) -> Seq<char>
    decreases i,
{
    match i {
        InlineV::Text(v) => v,
        InlineV::Code(v) => v,
        InlineV::Emphasis(c) => text_inlines(c),
        InlineV::Strong(c) => text_inlines(c),
        InlineV::Link { content, .. } => text_inlines(content),
        InlineV::Image { alt, .. } => text_inlines(alt),
        InlineV::CrossRef(t) => t,
        InlineV::Citation(k) => k,
        InlineV::SoftBreak => seq![' '],
        InlineV::HardBreak => seq![' '],
        _ => Seq::empty(),
    }
}

/// Append the plain text of `inlines` to `out`.
pub fn push_inline_text(out: &mut String, inlines: &Vec<Inline>)
    ensures
        final(out)@ == old(out)@ + text_inlines(inlines_v(inlines@)),
    decreases inlines@,
{
    let ghost iv = inlines_v(inlines@);
    let mut i: usize = 0;
    assert(iv.take(0) =~= Seq::<InlineV>::empty());
    assert(old(out)@ + Seq::<char>::empty() =~= old(out)@);
    while i < inlines.len()
        invariant
            i <= inlines@.len(),
            iv == inlines_v(inlines@),
            out@ == old(out)@ + text_inlines(iv.take(i as int)),
        decreases inlines.len() - i,
    {
        let ghost before = out@;
        assert(iv.take(i + 1).drop_last() =~= iv.take(i as int));
        proof {
            crate::ast::lemma_inlines_v(inlines@);
        }
        assert(iv[i as int] == inline_v(inlines@[i as int]));
        match &inlines[i] {
            Inline::Text(v) => out.append(v.as_str()),
            Inline::Code(v) => out.append(v.as_str()),
            Inline::Emphasis(c) => push_inline_text(out, c),
            Inline::Strong(c) => push_inline_text(out, c),
            Inline::Link { content, .. } => push_inline_text(out, content),
            Inline::Image { alt, .. } => push_inline_text(out, alt),
            Inline::CrossRef { target } => out.append(target.as_str()),
            Inline::Citation { key } => out.append(key.as_str()),
            Inline::SoftBreak => push_char(out, ' '),
            Inline::HardBreak => push_char(out, ' '),
            _ => {},
        }
        assert(out@ =~= before + text_inline(iv[i as int]));
        assert(out@ =~= old(out)@ + text_inlines(iv.take(i + 1)));
        i = i + 1;
    }
    assert(iv.take(iv.len() as int) =~= iv);
}

/// Collect the plain text of an inline sequence.
pub fn inline_text(inlines: &Vec<Inline>) -> (r: String)
    ensures
        r@ == text_inlines(inlines_v(inlines@)),
{
    let mut r = String::new();
    push_inline_text(&mut r, inlines);
    assert(r@ =~= text_inlines(inlines_v(inlines@)));
    r
}

/// The citation keys of `s` added to `acc` in order of first appearance.
pub open spec fn cites_inlines(s: Seq<InlineV>, acc: Seq<Seq<char>>) -> Seq<Seq<char>>
    decreases s,
{
    if s.len() == 0 {
        acc
    } else {
        cites_inline(s.last(), cites_inlines(s.drop_last(), acc))
    }
}

pub open spec fn cites_inline(i: InlineV, acc: Seq<Seq<char>>) -> Seq<Seq<char>>
    decreases i,
{
    match i {
        InlineV::Citation(k) => if acc.contains(k) {
            acc
        } else {
            acc.push(k)
        },
        InlineV::Emphasis(c) => cites_inlines(c, acc),
        InlineV::Strong(c) => cites_inlines(c, acc),
        InlineV::Strikethrough(c) => cites_inlines(c, acc),
        InlineV::Link { content, .. } => cites_inlines(content, acc),
        _ => acc,
    }
}

pub open spec fn cites_cells(s: Seq<Seq<InlineV>>, acc: Seq<Seq<char>>) -> Seq<Seq<char>>
    decreases s.len(),
{
    if s.len() == 0 {
        acc
    } else {
        cites_inlines(s.last(), cites_cells(s.drop_last(), acc))
    }
}

pub open spec fn cites_rows(s: Seq<Seq<Seq<InlineV>>>, acc: Seq<Seq<char>>) -> Seq<Seq<char>>
    decreases s.len(),
{
    if s.len() == 0 {
        acc
    } else {
        cites_cells(s.last(), cites_rows(s.drop_last(), acc))
    }
}

/// Whether `v` holds a string equal to `x`.
pub fn contains_str(v: &Vec<String>, x: &String) -> (r: bool)
    ensures
        r == strs_v(v@).contains(x@),
{
    let ghost sv = strs_v(v@);
    let mut i: usize = 0;
    while i < v.len()
        invariant
            i <= v@.len(),
            sv == strs_v(v@),
            forall|k: int| 0 <= k < i ==> sv[k] != x@,
        decreases v.len() - i,
    {
        if str_eq(v[i].as_str(), x.as_str()) {
            assert(sv[i as int] == x@);
            return true;
        }
        i = i + 1;
    }
    false
}

/// Record the `[@key]` citations of `inlines` in order of first appearance.
pub fn scan_citations(inlines: &Vec<Inline>, cites: &mut Vec<String>)
    ensures
        strs_v(final(cites)@) == cites_inlines(inlines_v(inlines@), strs_v(old(cites)@)),
    decreases inlines@,
{
    let ghost iv = inlines_v(inlines@);
    let mut i: usize = 0;
    assert(iv.take(0) =~= Seq::<InlineV>::empty());
    while i < inlines.len()
        invariant
            i <= inlines@.len(),
            iv == inlines_v(inlines@),
            strs_v(cites@) == cites_inlines(iv.take(i as int), strs_v(old(cites)@)),
        decreases inlines.len() - i,
    {
        let ghost before = strs_v(cites@);
        assert(iv.take(i + 1).drop_last() =~= iv.take(i as int));
        proof {
            crate::ast::lemma_inlines_v(inlines@);
        }
        assert(iv[i as int] == inline_v(inlines@[i as int]));
        match &inlines[i] {
            Inline::Citation { key } => {
                if !contains_str(cites, key) {
                    cites.push(key.clone());
                    assert(strs_v(cites@) =~= before.push(key@));
                }
            },
            Inline::Emphasis(c) => scan_citations(c, cites),
            Inline::Strong(c) => scan_citations(c, cites),
            Inline::Strikethrough(c) => scan_citations(c, cites),
            Inline::Link { content, .. } => scan_citations(content, cites),
            _ => {},
        }
        assert(strs_v(cites@) == cites_inline(iv[i as int], before));
        i = i + 1;
    }
    assert(iv.take(iv.len() as int) =~= iv);
}

fn scan_cells(cells: &Vec<Vec<Inline>>, cites: &mut Vec<String>)
    ensures
        strs_v(final(cites)@) == cites_cells(cells_v(cells@), strs_v(old(cites)@)),
{
    let ghost cv = cells_v(cells@);
    let mut i: usize = 0;
    assert(cv.take(0) =~= Seq::<Seq<InlineV>>::empty());
    while i < cells.len()
        invariant
            i <= cells@.len(),
            cv == cells_v(cells@),
            strs_v(cites@) == cites_cells(cv.take(i as int), strs_v(old(cites)@)),
        decreases cells.len() - i,
    {
        assert(cv.take(i + 1).drop_last() =~= cv.take(i as int));
        proof {
            crate::ast::lemma_cells_v(cells@);
        }
        scan_citations(&cells[i], cites);
        i = i + 1;
    }
    assert(cv.take(cv.len() as int) =~= cv);
}

fn scan_rows(rows: &Vec<Vec<Vec<Inline>>>, cites: &mut Vec<String>)
    ensures
        strs_v(final(cites)@) == cites_rows(rows_v(rows@), strs_v(old(cites)@)),
{
    let ghost rv = rows_v(rows@);
    let mut i: usize = 0;
    assert(rv.take(0) =~= Seq::<Seq<Seq<InlineV>>>::empty());
    while i < rows.len()
        invariant
            i <= rows@.len(),
            rv == rows_v(rows@),
            strs_v(cites@) == cites_rows(rv.take(i as int), strs_v(old(cites)@)),
        decreases rows.len() - i,
    {
        assert(rv.take(i + 1).drop_last() =~= rv.take(i as int));
        proof {
            crate::ast::lemma_rows_v(rows@);
        }
        scan_cells(&rows[i], cites);
        i = i + 1;
    }
    assert(rv.take(rv.len() as int) =~= rv);
}

/// The index of the first `": "` in `s` at or after `i`, or -1 when there is none.
pub open spec fn sep_index(s: Seq<char>, i: int) -> int
    decreases s.len() - i,
{
    if i < 0 || i + 1 >= s.len() {
        -1
    } else if s[i] == ':' && s[i + 1] == ' ' {
        i
    } else {
        sep_index(s, i + 1)
    }
}

pub open spec fn bib_key_char(c: char) -> bool {
    is_ascii_alnum(c) || c == ':' || c == '_' || c == '-'
}

/// A bibliography key: an ASCII letter, then ASCII letters, digits, `:`, `_`, `-`.
pub open spec fn bib_key(k: Seq<char>) -> bool {
    k.len() > 0 && is_ascii_alpha(k[0]) && forall|j: int| 0 <= j < k.len() ==> #[trigger] bib_key_char(k[j])
}

/// One line of a `bib` fence, `key: reference text`, read as an entry.
pub open spec fn bib_line(line: Seq<char>) -> Option<(Seq<char>, Seq<char>)> {
    let t = trim(line);
    let j = sep_index(t, 0);
    if j < 0 {
        None
    } else if bib_key(trim(t.take(j))) {
        Some((trim(t.take(j)), trim(t.skip(j + 2))))
    } else {
        None
    }
}

pub open spec fn bib_lines(ls: Seq<Seq<char>>) -> Seq<(Seq<char>, Seq<char>)>
    decreases ls.len(),
{
    if ls.len() == 0 {
        Seq::empty()
    } else {
        bib_lines(ls.drop_last()) + match bib_line(ls.last()) {
            Some(e) => seq![e],
            None => Seq::empty(),
        }
    }
}

/// The entries of a `bib` fence body, one per valid line, in order.
pub open spec fn bib_entries(raw: Seq<char>) -> Seq<(Seq<char>, Seq<char>)> {
    bib_lines(lines(raw))
}

pub open spec fn pairs_v(v: Seq<(String, String)>) -> Seq<(Seq<char>, Seq<char>)> {
    v.map_values(|p: (String, String)| (p.0@, p.1@))
}

proof fn lemma_sep_step(s: Seq<char>, i: int)
    requires
        0 <= i,
        i + 1 < s.len(),
        !(s[i] == ':' && s[i + 1] == ' '),
    ensures
        sep_index(s, i) == sep_index(s, i + 1),
{
}

/// Read the entries of a `bib` fence body (`key: reference text` per line)
/// onto the end of `into`; a lookup takes the first entry for a key.
pub fn parse_bib_entries(raw: &str, into: &mut Vec<(String, String)>)
    ensures
        pairs_v(final(into)@) == pairs_v(old(into)@) + bib_entries(raw@),
{
    let c = chars_of(raw);
    let lb = line_bounds(&c);
    let ghost ls = lines(c@);
    let mut li: usize = 0;
    assert(ls.take(0) =~= Seq::<Seq<char>>::empty());
    assert(pairs_v(old(into)@) + Seq::<(Seq<char>, Seq<char>)>::empty() =~= pairs_v(old(into)@));
    while li < lb.len()
        invariant
            li <= lb@.len(),
            c@ == raw@,
            ls == lines(c@),
            lb@.len() == ls.len(),
            forall|i: int|
                0 <= i < lb@.len() ==> (#[trigger] lb@[i]).0 <= lb@[i].1 <= c@.len() && c@.subrange(
                    lb@[i].0 as int,
                    lb@[i].1 as int,
                ) == ls[i],
            pairs_v(into@) == pairs_v(old(into)@) + bib_lines(ls.take(li as int)),
        decreases lb.len() - li,
    {
        let (s0, e0) = lb[li];
        assert(ls.take(li + 1).drop_last() =~= ls.take(li as int));
        let ghost line = ls[li as int];
        let (a, b) = trim_bounds(&c, s0, e0);
        let ghost t = c@.subrange(a as int, b as int);
        assert(t == trim(line));
        let ghost before = pairs_v(into@);
        // Find the first ": ".
        let mut j = a;
        let mut found = false;
        while !found && j < b && b - j >= 2
            invariant
                a <= j <= b,
                b <= c@.len(),
                t == c@.subrange(a as int, b as int),
                sep_index(t, 0) == sep_index(t, j - a),
                found ==> j + 1 < b && c@[j as int] == ':' && c@[j + 1] == ' ',
            decreases b - j, if found { 0int } else { 1int },
        {
            assert(t[j - a] == c@[j as int] && t[j - a + 1] == c@[j + 1]);
            if c[j] == ':' && c[j + 1] == ' ' {
                found = true;
            } else {
                proof {
                    lemma_sep_step(t, j - a);
                }
                j = j + 1;
            }
        }
        if found {
            assert(t[j - a] == c@[j as int] && t[j - a + 1] == c@[j + 1]);
        }
        if found {
            assert(sep_index(t, 0) == j - a);
            let (ka, kb) = trim_bounds(&c, a, j);
            assert(c@.subrange(a as int, j as int) =~= t.take(j - a));
            let (ta, tb) = trim_bounds(&c, j + 2, b);
            assert(c@.subrange(j + 2, b as int) =~= t.skip(j - a + 2));
            let ghost key = c@.subrange(ka as int, kb as int);
            let mut valid = ka < kb && (('a' <= c[ka] && c[ka] <= 'z') || ('A' <= c[ka] && c[ka] <= 'Z'));
            if valid {
                assert(key[0] == c@[ka as int]);
            }
            let mut k = ka;
            while valid && k < kb
                invariant
                    ka <= k <= kb <= c@.len(),
                    key == c@.subrange(ka as int, kb as int),
                    valid ==> forall|m: int| 0 <= m < k - ka ==> #[trigger] bib_key_char(key[m]),
                    valid ==> ka < kb && is_ascii_alpha(key[0]),
                    !valid ==> !bib_key(key),
                decreases kb - k,
            {
                let ch = c[k];
                assert(key[k - ka] == ch);
                if !(('a' <= ch && ch <= 'z') || ('A' <= ch && ch <= 'Z') || ('0' <= ch && ch <= '9')
                    || ch == ':' || ch == '_' || ch == '-') {
                    valid = false;
                    assert(!bib_key_char(key[k - ka]));
                }
                k = k + 1;
            }
            assert(valid == bib_key(key));
            if valid {
                let key_s = string_of(&c, ka, kb);
                let text_s = string_of(&c, ta, tb);
                into.push((key_s, text_s));
                assert(bib_line(line) == Some((key, c@.subrange(ta as int, tb as int))));
                assert(pairs_v(into@) =~= before.push((key, c@.subrange(ta as int, tb as int))));
            } else {
                assert(bib_line(line).is_none());
            }
        } else {
            assert(sep_index(t, j - a) == -1);
            assert(bib_line(line).is_none());
        }
        assert(pairs_v(into@) =~= pairs_v(old(into)@) + bib_lines(ls.take(li + 1)));
        li = li + 1;
    }
    assert(ls.take(ls.len() as int) =~= ls);
}

/// The kind of a `:::figure`, from its `kind` attribute; each kind is numbered
/// on its own.
#[derive(Clone, Copy, Debug, PartialEq, Eq)]
pub enum FigKind {
    Figure,
    Table,
    Listing,
}

/// The kind a figure's attributes name: `table` and `listing` are kinds of
/// their own, anything else is a figure.
pub open spec fn fig_kind_v(a: AttrsV) -> FigKind {
    match first_value(a.pairs, "kind"@) {
        Some(v) => if v == "table"@ {
            FigKind::Table
        } else if v == "listing"@ {
            FigKind::Listing
        } else {
            FigKind::Figure
        },
        None => FigKind::Figure,
    }
}

/// The caption prefix of a figure kind.
pub open spec fn fig_prefix(k: FigKind) -> Seq<char> {
    match k {
        FigKind::Figure => "Figure"@,
        FigKind::Table => "Table"@,
        FigKind::Listing => "Listing"@,
    }
}

/// Map a `:::figure` `kind` attribute to its kind.
pub fn figure_kind(attrs: &Attrs) -> (k: FigKind)
    ensures
        k == fig_kind_v(attrs@),
{
    match attrs.get("kind") {
        Some(v) => {
            if str_eq(v, "table") {
                FigKind::Table
            } else if str_eq(v, "listing") {
                FigKind::Listing
            } else {
                FigKind::Figure
            }
        },
        None => FigKind::Figure,
    }
}

/// Append the caption prefix of `k`.
pub fn push_fig_prefix(out: &mut String, k: FigKind)
    ensures
        final(out)@ == old(out)@ + fig_prefix(k),
{
    match k {
        FigKind::Figure => out.append("Figure"),
        FigKind::Table => out.append("Table"),
        FigKind::Listing => out.append("Listing"),
    }
}

/// One more, stopping at the largest `u64`.
pub open spec fn sat(n: u64) -> u64 {
    if n < u64::MAX {
        (n + 1) as u64
    } else {
        n
    }
}

/// How many figures of each kind have been counted.
#[derive(Clone, Copy, Debug, PartialEq, Eq)]
pub struct FigCounts {
    pub figure: u64,
    pub table: u64,
    pub listing: u64,
}

pub open spec fn fig_count(f: FigCounts, k: FigKind) -> u64 {
    match k {
        FigKind::Figure => f.figure,
        FigKind::Table => f.table,
        FigKind::Listing => f.listing,
    }
}

pub open spec fn fig_bump(f: FigCounts, k: FigKind) -> FigCounts {
    match k {
        FigKind::Figure => FigCounts { figure: sat(f.figure), ..f },
        FigKind::Table => FigCounts { table: sat(f.table), ..f },
        FigKind::Listing => FigCounts { listing: sat(f.listing), ..f },
    }
}

impl FigCounts {
    /// No figure counted yet.
    pub fn zero() -> (f: FigCounts)
        ensures
            f == (FigCounts { figure: 0, table: 0, listing: 0 }),
    {
        FigCounts { figure: 0, table: 0, listing: 0 }
    }

    /// Count one more figure of kind `k`; the result is its number.
    pub fn bump(&mut self, k: FigKind) -> (n: u64)
        ensures
            *final(self) == fig_bump(*old(self), k),
            n == fig_count(*final(self), k),
    {
        match k {
            FigKind::Figure => {
                if self.figure < u64::MAX {
                    self.figure = self.figure + 1;
                }
                self.figure
            },
            FigKind::Table => {
                if self.table < u64::MAX {
                    self.table = self.table + 1;
                }
                self.table
            },
            FigKind::Listing => {
                if self.listing < u64::MAX {
                    self.listing = self.listing + 1;
                }
                self.listing
            },
        }
    }
}

/// A heading as the pre-pass records it: its level, unique anchor slug and text.
pub struct Heading {
    pub level: u8,
    pub slug: String,
    pub text: String,
}

pub struct HeadV {
    pub level: u8,
    pub slug: Seq<char>,
    pub text: Seq<char>,
}

impl View for Heading {
    type V = HeadV;

    open spec fn view(&self) -> HeadV {
        HeadV { level: self.level, slug: self.slug@, text: self.text@ }
    }
}

/// What the pre-pass collects: the headings (and the anchors issued to them,
/// against which a new heading's anchor is disambiguated), the cross-reference labels (`key` to displayed text; the
/// last definition of a key wins), the figure counts, the citation keys in
/// order of first appearance, and the bibliography entries (the first
/// definition of a key wins).
pub struct Prepass {
    pub heads: Vec<Heading>,
    pub anchors: Vec<String>,
    pub labels: Vec<(String, String)>,
    pub figs: FigCounts,
    pub cites: Vec<String>,
    pub bib: Vec<(String, String)>,
}

pub struct PreV {
    pub heads: Seq<HeadV>,
    pub anchors: Seq<Seq<char>>,
    pub labels: Seq<(Seq<char>, Seq<char>)>,
    pub figs: FigCounts,
    pub cites: Seq<Seq<char>>,
    pub bib: Seq<(Seq<char>, Seq<char>)>,
}

impl View for Prepass {
    type V = PreV;

    open spec fn view(&self) -> PreV {
        PreV {
            heads: self.heads@.map_values(|h: Heading| h@),
            anchors: strs_v(self.anchors@),
            labels: pairs_v(self.labels@),
            figs: self.figs,
            cites: strs_v(self.cites@),
            bib: pairs_v(self.bib@),
        }
    }
}

pub open spec fn pre_empty() -> PreV {
    PreV {
        heads: Seq::empty(),
        anchors: Seq::empty(),
        labels: Seq::empty(),
        figs: FigCounts { figure: 0, table: 0, listing: 0 },
        cites: Seq::empty(),
        bib: Seq::empty(),
    }
}

impl Prepass {
    /// Nothing collected yet.
    pub fn new() -> (p: Prepass)
        ensures
            p@ == pre_empty(),
    {
        let p = Prepass {
            heads: Vec::new(),
            anchors: Vec::new(),
            labels: Vec::new(),
            figs: FigCounts::zero(),
            cites: Vec::new(),
            bib: Vec::new(),
        };
        assert(p@.heads =~= Seq::<HeadV>::empty());
        assert(p@.anchors =~= Seq::<Seq<char>>::empty());
        assert(p@.labels =~= Seq::<(Seq<char>, Seq<char>)>::empty());
        assert(p@.cites =~= Seq::<Seq<char>>::empty());
        assert(p@.bib =~= Seq::<(Seq<char>, Seq<char>)>::empty());
        p
    }
}

pub open spec fn with_cites(p: PreV, cites: Seq<Seq<char>>) -> PreV {
    PreV { cites, ..p }
}

/// A heading: its text, its unique slug, a label showing its text, and its citations.
pub open spec fn pre_heading(level: u8, content: Seq<InlineV>, p: PreV) -> PreV {
    let text = text_inlines(content);
    let base = slugify_v(text);
    let slug = unique_slug_v(base, p.anchors);
    PreV {
        heads: p.heads.push(HeadV { level, slug, text }),
        anchors: p.anchors.push(slug),
        labels: p.labels.push((slug, text)),
        figs: p.figs,
        cites: cites_inlines(content, p.cites),
        bib: p.bib,
    }
}

/// The label a figure of kind `k` numbered `n` shows, such as `Figure 3`.
pub open spec fn fig_label(k: FigKind, n: u64) -> Seq<char> {
    fig_prefix(k) + " "@ + dec(n as nat)
}

/// A figure, before its children: counted, and labelled when it has an id.
pub open spec fn pre_figure(attrs: AttrsV, p: PreV) -> PreV {
    let k = fig_kind_v(attrs);
    let f = fig_bump(p.figs, k);
    PreV {
        figs: f,
        labels: match attrs.id {
            Some(id) => p.labels.push((id, fig_label(k, fig_count(f, k)))),
            None => p.labels,
        },
        ..p
    }
}

pub open spec fn pre_blocks(bs: Seq<BlockV>, p: PreV) -> PreV
    decreases bs,
{
    if bs.len() == 0 {
        p
    } else {
        pre_block(bs.last(), pre_blocks(bs.drop_last(), p))
    }
}

pub open spec fn pre_items(items: Seq<ItemV>, p: PreV) -> PreV
    decreases items,
{
    if items.len() == 0 {
        p
    } else {
        pre_blocks(items.last().blocks, pre_items(items.drop_last(), p))
    }
}

pub open spec fn pre_block(b: BlockV, p: PreV) -> PreV
    decreases b,
{
    match b {
        BlockV::Heading { level, content } => pre_heading(level, content, p),
        BlockV::Paragraph(c) => with_cites(p, cites_inlines(c, p.cites)),
        BlockV::Table { header, rows, .. } => with_cites(
            p,
            cites_rows(rows, cites_cells(header, p.cites)),
        ),
        BlockV::Component { name, attrs, body } => if crate::render::renders_children(name) {
            if name == "figure"@ {
                match body {
                    BodyV::Children(c) => pre_blocks(c, pre_figure(attrs, p)),
                    BodyV::Raw(_) => pre_figure(attrs, p),
                }
            } else {
                match body {
                    BodyV::Children(c) => pre_blocks(c, p),
                    BodyV::Raw(_) => p,
                }
            }
        } else if name == "bib"@ {
            match body {
                BodyV::Raw(r) => PreV { bib: p.bib + bib_entries(r), ..p },
                BodyV::Children(_) => p,
            }
        } else {
            p
        },
        BlockV::BlockQuote(c) => pre_blocks(c, p),
        BlockV::List { items, .. } => pre_items(items, p),
        BlockV::FootnoteDefinition { blocks, .. } => pre_blocks(blocks, p),
        _ => p,
    }
}

/// The anchors of a sequence of headings, in order.
pub open spec fn anchors_of(heads: Seq<HeadV>) -> Seq<Seq<char>> {
    heads.map_values(|h: HeadV| h.slug)
}

/// The anchors recorded are those of the headings, and no two are equal.
pub open spec fn anchors_ok(p: PreV) -> bool {
    p.anchors == anchors_of(p.heads) && p.anchors.no_duplicates()
}

proof fn lemma_anchors_blocks(bs: Seq<BlockV>, p: PreV)
    requires
        anchors_ok(p),
    ensures
        anchors_ok(pre_blocks(bs, p)),
    decreases bs,
{
    if bs.len() > 0 {
        lemma_anchors_blocks(bs.drop_last(), p);
        lemma_anchors_block(bs.last(), pre_blocks(bs.drop_last(), p));
    }
}

proof fn lemma_anchors_items(items: Seq<ItemV>, p: PreV)
    requires
        anchors_ok(p),
    ensures
        anchors_ok(pre_items(items, p)),
    decreases items,
{
    if items.len() > 0 {
        lemma_anchors_items(items.drop_last(), p);
        lemma_anchors_blocks(items.last().blocks, pre_items(items.drop_last(), p));
    }
}

proof fn lemma_anchors_block(b: BlockV, p: PreV)
    requires
        anchors_ok(p),
    ensures
        anchors_ok(pre_block(b, p)),
    decreases b,
{
    match b {
        BlockV::Heading { level, content } => {
            let base = slugify_v(text_inlines(content));
            let slug = unique_slug_v(base, p.anchors);
            lemma_unique_slug_fresh(base, p.anchors);
            let q = pre_block(b, p);
            assert(q.anchors == p.anchors.push(slug));
            assert(anchors_of(q.heads) =~= anchors_of(p.heads).push(slug));
            assert forall|i: int, j: int| 0 <= i < q.anchors.len() && 0 <= j < q.anchors.len() && i != j
                implies q.anchors[i] != q.anchors[j] by {
                if i == p.anchors.len() {
                    assert(p.anchors.contains(p.anchors[j]));
                } else if j == p.anchors.len() {
                    assert(p.anchors.contains(p.anchors[i]));
                }
            }
        },
        BlockV::Component { name, attrs, body } => match body {
            BodyV::Children(c) => {
                lemma_anchors_blocks(c, p);
                lemma_anchors_blocks(c, pre_figure(attrs, p));
            },
            BodyV::Raw(_) => {},
        },
        BlockV::BlockQuote(c) => lemma_anchors_blocks(c, p),
        BlockV::List { items, .. } => lemma_anchors_items(items, p),
        BlockV::FootnoteDefinition { blocks, .. } => lemma_anchors_blocks(blocks, p),
        _ => {},
    }
}

/// Every heading of a document gets an anchor that no other heading in it has.
pub proof fn law_unique_anchors(doc: Seq<BlockV>)
    ensures
        anchors_of(pre_blocks(doc, pre_empty()).heads).no_duplicates(),
{
    assert(anchors_of(pre_empty().heads) =~= pre_empty().anchors);
    lemma_anchors_blocks(doc, pre_empty());
}

/// Walk `blocks` once before rendering, collecting every cross-reference target,
/// heading, figure count, citation and bibliography entry. The children of a
/// component that the renderer does not show (such as `toc` or `ai-policy`) are
/// skipped, so that the headings and figures counted are those rendered.
pub fn collect_labels(blocks: &Vec<Block>, pre: &mut Prepass)
    ensures
        final(pre)@ == pre_blocks(blocks_v(blocks@), old(pre)@),
    decreases blocks@,
{
    let ghost bv = blocks_v(blocks@);
    let mut i: usize = 0;
    assert(bv.take(0) =~= Seq::<BlockV>::empty());
    while i < blocks.len()
        invariant
            i <= blocks@.len(),
            bv == blocks_v(blocks@),
            pre@ == pre_blocks(bv.take(i as int), old(pre)@),
        decreases blocks.len() - i,
    {
        let ghost before = pre@;
        assert(bv.take(i + 1).drop_last() =~= bv.take(i as int));
        proof {
            crate::ast::lemma_blocks_v(blocks@);
        }
        assert(bv[i as int] == blocks@[i as int]@);
        collect_block(&blocks[i], pre);
        i = i + 1;
    }
    assert(bv.take(bv.len() as int) =~= bv);
}

fn collect_items(items: &Vec<crate::ast::ListItem>, pre: &mut Prepass)
    ensures
        final(pre)@ == pre_items(items_v(items@), old(pre)@),
    decreases items@,
{
    let ghost iv = items_v(items@);
    let mut i: usize = 0;
    assert(iv.take(0) =~= Seq::<ItemV>::empty());
    while i < items.len()
        invariant
            i <= items@.len(),
            iv == items_v(items@),
            pre@ == pre_items(iv.take(i as int), old(pre)@),
        decreases items.len() - i,
    {
        assert(iv.take(i + 1).drop_last() =~= iv.take(i as int));
        proof {
            crate::ast::lemma_items_v(items@);
        }
        collect_labels(&items[i].blocks, pre);
        i = i + 1;
    }
    assert(iv.take(iv.len() as int) =~= iv);
}

fn collect_heading(level: u8, content: &Vec<Inline>, pre: &mut Prepass)
    ensures
        final(pre)@ == pre_heading(level, inlines_v(content@), old(pre)@),
{
    let text = inline_text(content);
    let base = slugify(text.as_str());
    let slug = unique_slug(&base, &pre.anchors);
    let ghost p = pre@;
    pre.labels.push((slug.clone(), text.clone()));
    pre.anchors.push(slug.clone());
    pre.heads.push(Heading { level, slug, text });
    scan_citations(content, &mut pre.cites);
    assert(pre@.heads =~= p.heads.push(HeadV { level, slug: slug@, text: text@ }));
    assert(pre@.labels =~= p.labels.push((slug@, text@)));
    assert(pre@.anchors =~= p.anchors.push(slug@));
}

fn collect_figure(attrs: &Attrs, pre: &mut Prepass)
    ensures
        final(pre)@ == pre_figure(attrs@, old(pre)@),
{
    let ghost p = pre@;
    let k = figure_kind(attrs);
    let n = pre.figs.bump(k);
    match &attrs.id {
        Some(id) => {
            let mut t = String::new();
            push_fig_prefix(&mut t, k);
            t.append(" ");
            crate::html::push_dec(&mut t, n);
            pre.labels.push((id.clone(), t));
            assert(pre@.labels =~= p.labels.push((id@, fig_label(k, n))));
        },
        None => {},
    }
}

fn collect_block(b: &Block, pre: &mut Prepass)
    ensures
        final(pre)@ == pre_block(b@, old(pre)@),
    decreases b,
{
    match b {
        Block::Heading { level, content } => collect_heading(*level, content, pre),
        Block::Paragraph(c) => scan_citations(c, &mut pre.cites),
        Block::Table(t) => {
            scan_cells(&t.header, &mut pre.cites);
            scan_rows(&t.rows, &mut pre.cites);
        },
        Block::Component(c) => {
            if crate::render::shows_block_children(c.name.as_str()) {
                if str_eq(c.name.as_str(), "figure") {
                    collect_figure(&c.attrs, pre);
                }
                match &c.body {
                    ComponentBody::Children(k) => collect_labels(k, pre),
                    ComponentBody::Raw(_) => {},
                }
            } else if str_eq(c.name.as_str(), "bib") {
                match &c.body {
                    ComponentBody::Raw(r) => parse_bib_entries(r.as_str(), &mut pre.bib),
                    ComponentBody::Children(_) => {},
                }
            }
        },
        Block::BlockQuote(c) => collect_labels(c, pre),
        Block::List(l) => collect_items(&l.items, pre),
        Block::FootnoteDefinition { blocks, .. } => collect_labels(blocks, pre),
        _ => {},
    }
}


/// A heading keeps its own slug as its anchor when no earlier heading has that
/// anchor; otherwise its anchor differs from the slug and from every anchor
/// issued before, and is the slug followed by `-` and a number.
pub proof fn law_anchor_choice(base: Seq<char>, issued: Seq<Seq<char>>)
    ensures
        !issued.contains(base) ==> unique_slug_v(base, issued) == base,
        issued.contains(base) ==> unique_slug_v(base, issued) != base,
        issued.contains(base) ==> exists|k: nat| k >= 1 && unique_slug_v(base, issued) == base + "-"@ + dec(k),
        !issued.contains(unique_slug_v(base, issued)),
{
    lemma_unique_slug_fresh(base, issued);
    let r = first_free(base, issued, 0, issued.len() + 1);
    if issued.contains(base) {
        assert(candidate(base, 0) == base);
        assert(r != 0);
        assert(unique_slug_v(base, issued) == base + "-"@ + dec(r));
    }
}

/// A text of ASCII lowercase letters and digits is its own slug.
pub proof fn law_plain_slug(t: Seq<char>)
    requires
        t.len() > 0,
        forall|k: int| 0 <= k < t.len() ==> crate::text::is_ascii_lower(#[trigger] t[k]) || crate::text::is_ascii_digit(t[k]),
    ensures
        slugify_v(t) == t,
{
    lemma_plain_fold(t);
}

proof fn lemma_plain_fold(t: Seq<char>)
    requires
        forall|k: int| 0 <= k < t.len() ==> crate::text::is_ascii_lower(#[trigger] t[k]) || crate::text::is_ascii_digit(t[k]),
    ensures
        slug_fold(t) == (t, false),
    decreases t.len(),
{
    if t.len() > 0 {
        let d = t.drop_last();
        assert forall|k: int| 0 <= k < d.len() implies crate::text::is_ascii_lower(#[trigger] d[k])
            || crate::text::is_ascii_digit(d[k]) by {
            assert(d[k] == t[k]);
        }
        lemma_plain_fold(d);
        let c = t.last();
        assert(crate::text::is_ascii_lower(t[t.len() - 1]) || crate::text::is_ascii_digit(t[t.len() - 1]));
        assert(slug_char(c));
        assert(case_fold(c) =~= seq![c]);
        assert(d + seq![c] =~= t);
    }
}

} // verus!
