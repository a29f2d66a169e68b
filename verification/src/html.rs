//! HTML text helpers of the renderer: escaping, URL scheme filtering, safe
//! element names and class suffixes, and decimal numbers.
use vstd::prelude::*;
use crate::text::{
    ascii_lower, chars_of, is_ascii_digit, is_ascii_lower, lower, push_char, trim, trim_bounds,
};

verus! {

/// The explicit Unicode bidirectional formatting controls: embeddings and
/// overrides U+202A..U+202E, isolates U+2066..U+2069.
pub open spec fn is_bidi(c: char) -> bool {
    ('\u{202a}' <= c && c <= '\u{202e}') || ('\u{2066}' <= c && c <= '\u{2069}')
}

/// One character of text as HTML: `&`, `<` and `>` become entities, and a
/// bidirectional control is dropped.
pub open spec fn esc_char(c: char) -> Seq<char> {
    if is_bidi(c) {
        Seq::empty()
    } else if c == '&' {
        "&amp;"@
    } else if c == '<' {
        "&lt;"@
    } else if c == '>' {
        "&gt;"@
    } else {
        seq![c]
    }
}

/// One character of an attribute value: as [`esc_char`], and `"` becomes `&quot;`.
pub open spec fn esc_attr_char(c: char) -> Seq<char> {
    if c == '"' {
        "&quot;"@
    } else {
        esc_char(c)
    }
}

/// Text escaped for an HTML text node.
pub open spec fn esc(s: Seq<char>) -> Seq<char>
    decreases s.len(),
{
    if s.len() == 0 {
        Seq::empty()
    } else {
        esc(s.drop_last()) + esc_char(s.last())
    }
}

/// Text escaped for a double-quoted HTML attribute value.
pub open spec fn esc_attr(s: Seq<char>) -> Seq<char>
    decreases s.len(),
{
    if s.len() == 0 {
        Seq::empty()
    } else {
        esc_attr(s.drop_last()) + esc_attr_char(s.last())
    }
}

/// Append `text` to `out` escaped for an HTML text node.
pub fn push_escaped(out: &mut String, text: &str)
    ensures
        final(out)@ == old(out)@ + esc(text@),
{
    let c = chars_of(text);
    let mut i: usize = 0;
    assert(c@.take(0) =~= Seq::<char>::empty());
    assert(old(out)@ + Seq::<char>::empty() =~= old(out)@);
    while i < c.len()
        invariant
            i <= c@.len(),
            c@ == text@,
            out@ == old(out)@ + esc(c@.take(i as int)),
        decreases c.len() - i,
    {
        let ch = c[i];
        let ghost before = out@;
        if ('\u{202a}' <= ch && ch <= '\u{202e}') || ('\u{2066}' <= ch && ch <= '\u{2069}') {
        } else if ch == '&' {
            out.append("&amp;");
        } else if ch == '<' {
            out.append("&lt;");
        } else if ch == '>' {
            out.append("&gt;");
        } else {
            push_char(out, ch);
        }
        assert(c@.take(i + 1).drop_last() =~= c@.take(i as int));
        assert(out@ =~= before + esc_char(ch));
        i = i + 1;
    }
    assert(c@.take(c@.len() as int) =~= c@);
}

/// Append `text` to `out` escaped for a double-quoted attribute value.
pub fn push_escaped_attr(out: &mut String, text: &str)
    ensures
        final(out)@ == old(out)@ + esc_attr(text@),
{
    let c = chars_of(text);
    let mut i: usize = 0;
    assert(c@.take(0) =~= Seq::<char>::empty());
    assert(old(out)@ + Seq::<char>::empty() =~= old(out)@);
    while i < c.len()
        invariant
            i <= c@.len(),
            c@ == text@,
            out@ == old(out)@ + esc_attr(c@.take(i as int)),
        decreases c.len() - i,
    {
        let ch = c[i];
        let ghost before = out@;
        if ch == '"' {
            out.append("&quot;");
        } else if ('\u{202a}' <= ch && ch <= '\u{202e}') || ('\u{2066}' <= ch && ch <= '\u{2069}') {
        } else if ch == '&' {
            out.append("&amp;");
        } else if ch == '<' {
            out.append("&lt;");
        } else if ch == '>' {
            out.append("&gt;");
        } else {
            push_char(out, ch);
        }
        assert(c@.take(i + 1).drop_last() =~= c@.take(i as int));
        assert(out@ =~= before + esc_attr_char(ch));
        i = i + 1;
    }
    assert(c@.take(c@.len() as int) =~= c@);
}

/// Escaped text holds no `<`, no `>`, and no bidirectional control.
pub proof fn law_escaped_text_inert(s: Seq<char>)
    ensures
        forall|k: int| 0 <= k < esc(s).len() ==> #[trigger] esc(s)[k] != '<' && esc(s)[k] != '>'
            && !is_bidi(esc(s)[k]),
    decreases s.len(),
{
    reveal_strlit("&amp;");
    reveal_strlit("&lt;");
    reveal_strlit("&gt;");
    if s.len() > 0 {
        law_escaped_text_inert(s.drop_last());
        let a = esc(s.drop_last());
        let b = esc_char(s.last());
        assert forall|k: int| 0 <= k < esc(s).len() implies #[trigger] esc(s)[k] != '<' && esc(s)[k] != '>'
            && !is_bidi(esc(s)[k]) by {
            if k >= a.len() {
                assert(esc(s)[k] == b[k - a.len()]);
            } else {
                assert(esc(s)[k] == a[k]);
            }
        }
    }
}

/// An escaped attribute value holds no `"`, no `<`, no `>`, and no
/// bidirectional control.
pub proof fn law_escaped_attr_inert(s: Seq<char>)
    ensures
        forall|k: int| 0 <= k < esc_attr(s).len() ==> #[trigger] esc_attr(s)[k] != '"' && esc_attr(s)[k]
            != '<' && esc_attr(s)[k] != '>' && !is_bidi(esc_attr(s)[k]),
    decreases s.len(),
{
    reveal_strlit("&amp;");
    reveal_strlit("&lt;");
    reveal_strlit("&gt;");
    reveal_strlit("&quot;");
    if s.len() > 0 {
        law_escaped_attr_inert(s.drop_last());
        let a = esc_attr(s.drop_last());
        let b = esc_attr_char(s.last());
        assert forall|k: int| 0 <= k < esc_attr(s).len() implies #[trigger] esc_attr(s)[k] != '"'
            && esc_attr(s)[k] != '<' && esc_attr(s)[k] != '>' && !is_bidi(esc_attr(s)[k]) by {
            if k >= a.len() {
                assert(esc_attr(s)[k] == b[k - a.len()]);
            } else {
                assert(esc_attr(s)[k] == a[k]);
            }
        }
    }
}

/// ASCII lower-casing of a whole sequence.
pub open spec fn lower_all(s: Seq<char>) -> Seq<char> {
    s.map_values(|c: char| lower(c))
}

/// Whether a URL (trimmed, compared case-insensitively) uses a dangerous
/// scheme: `javascript:`, `vbscript:`, or `data:` other than `data:image/`.
pub open spec fn dangerous_url(url: Seq<char>) -> bool {
    let l = lower_all(trim(url));
    "javascript:"@.is_prefix_of(l) || "vbscript:"@.is_prefix_of(l) || ("data:"@.is_prefix_of(l)
        && !"data:image/"@.is_prefix_of(l))
}

/// The URL a generated link or image carries: empty for a dangerous scheme.
pub open spec fn safe_url_v(url: Seq<char>) -> Seq<char> {
    if dangerous_url(url) {
        Seq::empty()
    } else {
        url
    }
}

/// Whether `l` starts with the literal `p`.
fn has_prefix(l: &Vec<char>, p: &str) -> (r: bool)
    ensures
        r == p@.is_prefix_of(l@),
{
    let pc = chars_of(p);
    let r = crate::text::starts_with(l, &pc);
    r
}

/// Drop dangerous URL schemes from generated links, keeping image data URIs.
pub fn safe_url(url: &str) -> (r: String)
    ensures
        r@ == safe_url_v(url@),
{
    let c = chars_of(url);
    let (a, b) = trim_bounds(&c, 0, c.len());
    assert(c@.subrange(0, c@.len() as int) =~= c@);
    let mut l: Vec<char> = Vec::new();
    let mut i = a;
    while i < b
        invariant
            a <= i <= b <= c@.len(),
            l@ == lower_all(c@.subrange(a as int, i as int)),
        decreases b - i,
    {
        l.push(ascii_lower(c[i]));
        i = i + 1;
        assert(l@ =~= lower_all(c@.subrange(a as int, i as int)));
    }
    proof {
        reveal_strlit("javascript:");
        reveal_strlit("vbscript:");
        reveal_strlit("data:");
        reveal_strlit("data:image/");
    }
    let dangerous = has_prefix(&l, "javascript:") || has_prefix(&l, "vbscript:") || (has_prefix(
        &l,
        "data:",
    ) && !has_prefix(&l, "data:image/"));
    if dangerous {
        String::new()
    } else {
        let mut r = String::new();
        r.append(url);
        r
    }
}

/// A safe custom-element name or attribute key: lowercase ASCII letters, digits
/// and hyphens, starting with a letter.
pub open spec fn safe_name(s: Seq<char>) -> bool {
    s.len() > 0 && is_ascii_lower(s[0]) && forall|k: int|
        0 <= k < s.len() ==> (#[trigger] is_ascii_lower(s[k]) || is_ascii_digit(s[k]) || s[k] == '-')
}

pub fn is_safe_name(name: &str) -> (r: bool)
    ensures
        r == safe_name(name@),
{
    let c = chars_of(name);
    if c.len() == 0 || !('a' <= c[0] && c[0] <= 'z') {
        return false;
    }
    let mut i: usize = 0;
    while i < c.len()
        invariant
            i <= c@.len(),
            c@ == name@,
            forall|k: int| 0 <= k < i ==> (#[trigger] is_ascii_lower(c@[k]) || is_ascii_digit(c@[k]) || c@[k] == '-'),
        decreases c.len() - i,
    {
        let ch = c[i];
        if !(('a' <= ch && ch <= 'z') || ('0' <= ch && ch <= '9') || ch == '-') {
            assert(!(is_ascii_lower(c@[i as int]) || is_ascii_digit(c@[i as int]) || c@[i as int] == '-'));
            return false;
        }
        i = i + 1;
    }
    true
}

pub open spec fn class_char(c: char) -> bool {
    is_ascii_lower(lower(c)) || is_ascii_digit(lower(c)) || lower(c) == '-'
}

/// The lower-cased characters of `s` that may stand in a CSS class suffix.
pub open spec fn class_chars(s: Seq<char>) -> Seq<char>
    decreases s.len(),
{
    if s.len() == 0 {
        Seq::empty()
    } else if class_char(s.last()) {
        class_chars(s.drop_last()).push(lower(s.last()))
    } else {
        class_chars(s.drop_last())
    }
}

/// A CSS class suffix made from `s`: lowercase letters, digits and hyphens, or
/// `default` when none is left.
pub open spec fn class_suffix(s: Seq<char>) -> Seq<char> {
    if class_chars(s).len() == 0 {
        "default"@
    } else {
        class_chars(s)
    }
}

/// Append the CSS class suffix made from `value`.
pub fn push_class_suffix(out: &mut String, value: &str)
    ensures
        final(out)@ == old(out)@ + class_suffix(value@),
{
    let c = chars_of(value);
    let mut cleaned = String::new();
    let mut n: usize = 0;
    let mut i: usize = 0;
    assert(c@.take(0) =~= Seq::<char>::empty());
    while i < c.len()
        invariant
            i <= c@.len(),
            c@ == value@,
            cleaned@ == class_chars(c@.take(i as int)),
            n == cleaned@.len(),
            n <= i,
        decreases c.len() - i,
    {
        let ch = ascii_lower(c[i]);
        assert(c@.take(i + 1).drop_last() =~= c@.take(i as int));
        if ('a' <= ch && ch <= 'z') || ('0' <= ch && ch <= '9') || ch == '-' {
            push_char(&mut cleaned, ch);
            n = n + 1;
        }
        i = i + 1;
    }
    assert(c@.take(c@.len() as int) =~= c@);
    if n == 0 {
        out.append("default");
    } else {
        out.append(cleaned.as_str());
    }
}

/// The decimal digits of `n`.
pub open spec fn dec(n: nat) -> Seq<char>
    decreases n,
{
    if n < 10 {
        seq![digit_char(n)]
    } else {
        dec(n / 10).push(digit_char(n % 10))
    }
}

pub open spec fn digit_char(d: nat) -> char {
    if d == 0 {
        '0'
    } else if d == 1 {
        '1'
    } else if d == 2 {
        '2'
    } else if d == 3 {
        '3'
    } else if d == 4 {
        '4'
    } else if d == 5 {
        '5'
    } else if d == 6 {
        '6'
    } else if d == 7 {
        '7'
    } else if d == 8 {
        '8'
    } else {
        '9'
    }
}

fn digit(d: u64) -> (c: char)
    requires
        d < 10,
    ensures
        c == digit_char(d as nat),
{
    if d == 0 {
        '0'
    } else if d == 1 {
        '1'
    } else if d == 2 {
        '2'
    } else if d == 3 {
        '3'
    } else if d == 4 {
        '4'
    } else if d == 5 {
        '5'
    } else if d == 6 {
        '6'
    } else if d == 7 {
        '7'
    } else if d == 8 {
        '8'
    } else {
        '9'
    }
}

/// Append the decimal digits of `n`.
pub fn push_dec(out: &mut String, n: u64)
    ensures
        final(out)@ == old(out)@ + dec(n as nat),
    decreases n,
{
    if n >= 10 {
        push_dec(out, n / 10);
    }
    push_char(out, digit(n % 10));
    assert(out@ =~= old(out)@ + dec(n as nat));
}

/// A URL that [`safe_url`] lets through never carries a dangerous scheme.
pub proof fn law_safe_url(url: Seq<char>)
    ensures
        !dangerous_url(safe_url_v(url)),
{
    if dangerous_url(url) {
        reveal_strlit("javascript:");
        reveal_strlit("vbscript:");
        reveal_strlit("data:");
        let e = Seq::<char>::empty();
        crate::text::lemma_trim_bounds(e);
        assert(lower_all(trim(e)).len() == 0);
    }
}

pub proof fn lemma_dec_len(n: nat)
    ensures
        dec(n).len() >= 1,
        n >= 10 ==> dec(n).len() >= 2,
    decreases n,
{
    if n >= 10 {
        lemma_dec_len(n / 10);
    }
}

/// Different numbers have different decimal forms.
pub proof fn lemma_dec_injective(n: nat, m: nat)
    requires
        dec(n) == dec(m),
    ensures
        n == m,
    decreases n,
{
    lemma_dec_len(n);
    lemma_dec_len(m);
    if n < 10 && m < 10 {
        assert(dec(n)[0] == digit_char(n));
        assert(dec(m)[0] == digit_char(m));
    } else if n >= 10 && m >= 10 {
        assert(dec(n).drop_last() =~= dec(n / 10));
        assert(dec(m).drop_last() =~= dec(m / 10));
        lemma_dec_injective(n / 10, m / 10);
        assert(dec(n).last() == digit_char(n % 10));
        assert(dec(m).last() == digit_char(m % 10));
    }
}


/// Escaping replaces exactly `&`, `<` and `>` (and `"` in an attribute value)
/// by their character references, drops the bidirectional controls, and keeps
/// every other character as it is.
pub proof fn law_escape_chars(c: char)
    ensures
        esc_char('&') == "&amp;"@,
        esc_char('<') == "&lt;"@,
        esc_char('>') == "&gt;"@,
        esc_attr_char('"') == "&quot;"@,
        esc_attr_char('<') == "&lt;"@,
        (!is_bidi(c) && c != '&' && c != '<' && c != '>') ==> esc_char(c) == seq![c],
        (!is_bidi(c) && c != '&' && c != '<' && c != '>' && c != '"') ==> esc_attr_char(c) == seq![c],
        is_bidi(c) ==> esc_char(c) == Seq::<char>::empty(),
{
}

/// Escaping two strings one after the other escapes each in turn.
pub proof fn law_escape_concat(s: Seq<char>, u: Seq<char>)
    ensures
        esc(s + u) == esc(s) + esc(u),
        esc_attr(s + u) == esc_attr(s) + esc_attr(u),
    decreases u.len(),
{
    if u.len() == 0 {
        assert(s + u =~= s);
        assert(esc(s) + Seq::<char>::empty() =~= esc(s));
        assert(esc_attr(s) + Seq::<char>::empty() =~= esc_attr(s));
    } else {
        law_escape_concat(s, u.drop_last());
        assert((s + u).drop_last() =~= s + u.drop_last());
        assert((s + u).last() == u.last());
        assert(esc(s + u) =~= esc(s) + esc(u));
        assert(esc_attr(s + u) =~= esc_attr(s) + esc_attr(u));
    }
}

/// Text with nothing to escape comes out unchanged.
pub proof fn law_plain_text_unescaped(s: Seq<char>)
    requires
        forall|k: int|
            0 <= k < s.len() ==> !is_bidi(#[trigger] s[k]) && s[k] != '&' && s[k] != '<' && s[k] != '>',
    ensures
        esc(s) == s,
    decreases s.len(),
{
    if s.len() > 0 {
        let d = s.drop_last();
        assert forall|k: int| 0 <= k < d.len() implies !is_bidi(#[trigger] d[k]) && d[k] != '&' && d[k] != '<'
            && d[k] != '>' by {
            assert(d[k] == s[k]);
        }
        law_plain_text_unescaped(d);
        assert(s[s.len() - 1] == s.last());
        assert(d + seq![s.last()] =~= s);
    }
}

} // verus!
