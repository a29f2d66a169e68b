//! Raw-HTML allowlist sanitiser: NULs and byte-order marks are dropped, then
//! ammonia keeps a safe subset of HTML (scripts, event handlers and dangerous
//! URL schemes removed).
use vstd::prelude::*;
use crate::inert::{clean_ok, lex, tags_plain, Lex};
use crate::text::{chars_of, push_char};

verus! {

/// What `ammonia::clean` returns for an HTML fragment: the fragment parsed by
/// html5ever, cut down to ammonia's default allowlist, and serialised again.
pub uninterp spec fn ammonia_clean(html: Seq<char>) -> Seq<char>;

/// Calls `ammonia::clean`, which sanitises with the default `Builder`. Its
/// result depends on the input alone; the contract names it, and states two
/// facts of its shape that the source shows. The output is html5ever's
/// serialisation of the cleaned tree: text escapes `<` and `>`, every attribute
/// value is written in double quotes with `"`, `<` and `>` escaped, and a `<`
/// only opens or closes an element of the default allowlist. None of those
/// elements is named `sc...` or `if...` (`script` and `style` lose their
/// contents, and no raw-text element is allowed), no allowed attribute is named
/// `on...`, and comments are stripped. So every `<` is followed by two
/// characters that spell neither `sc` nor `if` ([`tags_plain`]), and read left
/// to right the output begins no `on...` attribute inside a tag and ends outside
/// any tag ([`lex`]). Which elements, attributes and text it keeps is left
/// unsaid.
#[verifier::external_body]
fn ammonia_clean_str(html: &str) -> (r: String)
    ensures
        r@ == ammonia_clean(html@),
        tags_plain(r@),
        lex(r@, Lex::Text) == Some(Lex::Text),
{
    ammonia::clean(html)
}

/// `s` without its NUL and U+FEFF (byte-order mark) characters.
pub open spec fn strip_nul_bom(s: Seq<char>) -> Seq<char>
    decreases s.len(),
{
    if s.len() == 0 {
        Seq::empty()
    } else if s.last() == '\u{0}' || s.last() == '\u{feff}' {
        strip_nul_bom(s.drop_last())
    } else {
        strip_nul_bom(s.drop_last()).push(s.last())
    }
}

/// What [`sanitize`] returns for `html`.
pub open spec fn sanitize_v(html: Seq<char>) -> Seq<char> {
    ammonia_clean(strip_nul_bom(html))
}

/// Sanitise an HTML fragment to a safe subset, removing scripts, event
/// handlers, and dangerous URL schemes. NULs and byte-order marks are dropped
/// first: neither means anything in HTML, and without them cleaning is stable
/// on its own output.
pub fn sanitize(html: &str) -> (r: String)
    ensures
        r@ == sanitize_v(html@),
        clean_ok(html@),
{
    let c = chars_of(html);
    let mut kept = String::new();
    let mut i: usize = 0;
    assert(c@.take(0) =~= Seq::<char>::empty());
    while i < c.len()
        invariant
            i <= c@.len(),
            c@ == html@,
            kept@ == strip_nul_bom(c@.take(i as int)),
        decreases c.len() - i,
    {
        assert(c@.take(i + 1).drop_last() =~= c@.take(i as int));
        let ch = c[i];
        if ch != '\u{0}' && ch != '\u{feff}' {
            push_char(&mut kept, ch);
        }
        i = i + 1;
    }
    assert(c@.take(c@.len() as int) =~= c@);
    ammonia_clean_str(kept.as_str())
}

/// Dropping NULs and byte-order marks twice drops nothing more.
pub proof fn law_strip_idempotent(s: Seq<char>)
    ensures
        strip_nul_bom(strip_nul_bom(s)) == strip_nul_bom(s),
    decreases s.len(),
{
    if s.len() > 0 {
        law_strip_idempotent(s.drop_last());
        let t = strip_nul_bom(s.drop_last());
        if !(s.last() == '\u{0}' || s.last() == '\u{feff}') {
            assert(t.push(s.last()).drop_last() =~= t);
        }
    }
}

/// Errors that can arise during sanitisation.
#[derive(Debug, PartialEq, Eq)]
pub enum SanitizeError {
    /// Input could not be parsed as HTML for sanitisation.
    Invalid(String),
}

impl SanitizeError {
    /// The human-readable description of the error.
    pub fn message(&self) -> (r: String)
        ensures
            r@ == self.msg(),
    {
        match self {
            SanitizeError::Invalid(m) => {
                let mut r = String::new();
                r.append("could not sanitise input: ");
                r.append(m.as_str());
                r
            },
        }
    }

    /// The description that [`SanitizeError::message`] returns.
    pub open spec fn msg(&self) -> Seq<char> {
        match self {
            SanitizeError::Invalid(m) => "could not sanitise input: "@ + m@,
        }
    }
}


/// Whether `c` is kept before cleaning: everything but NUL and U+FEFF.
pub open spec fn kept_before_cleaning(c: char) -> bool {
    c != '\u{0}' && c != '\u{feff}'
}

/// What the cleaner is handed is the input with exactly its NUL and U+FEFF
/// characters removed: every other character, line breaks included, is kept,
/// in order.
pub proof fn law_only_nul_and_bom_dropped(s: Seq<char>)
    ensures
        strip_nul_bom(s) == s.filter(|c: char| kept_before_cleaning(c)),
    decreases s.len(),
{
    reveal(Seq::filter);
    if s.len() > 0 {
        law_only_nul_and_bom_dropped(s.drop_last());
    }
}

/// An input that holds no NUL and no U+FEFF reaches the cleaner unchanged, so
/// sanitising it is exactly what `ammonia::clean` makes of it.
pub proof fn law_clean_input_unchanged(s: Seq<char>)
    requires
        forall|k: int| 0 <= k < s.len() ==> kept_before_cleaning(#[trigger] s[k]),
    ensures
        strip_nul_bom(s) == s,
        sanitize_v(s) == ammonia_clean(s),
    decreases s.len(),
{
    if s.len() > 0 {
        let d = s.drop_last();
        assert forall|k: int| 0 <= k < d.len() implies kept_before_cleaning(#[trigger] d[k]) by {
            assert(d[k] == s[k]);
        }
        law_clean_input_unchanged(d);
        assert(kept_before_cleaning(s[s.len() - 1]));
        assert(d.push(s.last()) =~= s);
    }
}

} // verus!
