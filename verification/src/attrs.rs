//! The shared attribute syntax `{#id .class key=value key="quoted value"}`:
//! tokenising, parsing into [`Attrs`], and writing [`Attrs`] back.
use vstd::prelude::*;
use crate::ast::{Attrs, AttrsV};
use crate::text::{chars_of, is_whitespace, is_ws, push_char, string_of, trim, trim_bounds};

verus! {

/// The tokenizer's state: finished tokens, the token being read, and the open
/// quote character, if any.
pub struct TokState {
    pub tokens: Seq<Seq<char>>,
    pub current: Seq<char>,
    pub quote: Option<char>,
}

pub open spec fn tok_init() -> TokState {
    TokState { tokens: Seq::empty(), current: Seq::empty(), quote: None }
}

/// One character of input: inside quotes every character but the closing quote
/// is kept; outside, a quote opens, whitespace ends the current token, and any
/// other character is kept.
pub open spec fn tok_step(st: TokState, c: char) -> TokState {
    match st.quote {
        Some(q) => if c == q {
            TokState { quote: None, ..st }
        } else {
            TokState { current: st.current.push(c), ..st }
        },
        None => if c == '"' || c == '\'' {
            TokState { quote: Some(c), ..st }
        } else if is_ws(c) {
            if st.current.len() > 0 {
                TokState { tokens: st.tokens.push(st.current), current: Seq::empty(), quote: None }
            } else {
                st
            }
        } else {
            TokState { current: st.current.push(c), ..st }
        },
    }
}

/// The state after reading `s` from state `st`.
pub open spec fn tok_run(st: TokState, s: Seq<char>) -> TokState
    decreases s.len(),
{
    if s.len() == 0 {
        st
    } else {
        tok_run(tok_step(st, s[0]), s.drop_first())
    }
}

/// The tokens of `s`: whitespace-separated, with quoted runs kept whole and the
/// quote characters removed.
pub open spec fn tokens(s: Seq<char>) -> Seq<Seq<char>> {
    let st = tok_run(tok_init(), s);
    if st.current.len() > 0 {
        st.tokens.push(st.current)
    } else {
        st.tokens
    }
}

pub proof fn lemma_tok_run_push(st: TokState, s: Seq<char>, c: char)
    ensures
        tok_run(st, s.push(c)) == tok_step(tok_run(st, s), c),
    decreases s.len(),
{
    if s.len() > 0 {
        assert(s.push(c).drop_first() =~= s.drop_first().push(c));
        assert(s.push(c)[0] == s[0]);
        lemma_tok_run_push(tok_step(st, s[0]), s.drop_first(), c);
    } else {
        assert(s.push(c).drop_first() =~= Seq::<char>::empty());
        assert(s.push(c)[0] == c);
        assert(tok_run(tok_step(st, c), Seq::<char>::empty()) == tok_step(st, c));
    }
}

/// Split `s[from..to]` into attribute tokens.
pub fn tokenize(s: &[char], from: usize, to: usize) -> (r: Vec<String>)
    requires
        from <= to <= s@.len(),
    ensures
        r@.map_values(|t: String| t@) == tokens(s@.subrange(from as int, to as int)),
{
    let ghost input = s@.subrange(from as int, to as int);
    let mut toks: Vec<String> = Vec::new();
    let mut current = String::new();
    let mut quote: Option<char> = None;
    let mut i = from;
    assert(input.take(0) =~= Seq::<char>::empty());
    assert(toks@.map_values(|t: String| t@) =~= Seq::<Seq<char>>::empty());
    while i < to
        invariant
            from <= i <= to <= s@.len(),
            input == s@.subrange(from as int, to as int),
            tok_run(tok_init(), input.take(i - from)) == (TokState {
                tokens: toks@.map_values(|t: String| t@),
                current: current@,
                quote,
            }),
        decreases to - i,
    {
        let c = s[i];
        let ghost before = TokState { tokens: toks@.map_values(|t: String| t@), current: current@, quote };
        match quote {
            Some(q) => {
                if c == q {
                    quote = None;
                } else {
                    push_char(&mut current, c);
                }
            },
            None => {
                if c == '"' || c == '\'' {
                    quote = Some(c);
                } else if is_whitespace(c) {
                    if !current.as_str().is_empty() {
                        let t = current;
                        current = String::new();
                        toks.push(t);
                    }
                } else {
                    push_char(&mut current, c);
                }
            },
        }
        proof {
            assert(input.take(i + 1 - from) =~= input.take(i - from).push(c));
            lemma_tok_run_push(tok_init(), input.take(i - from), c);
            assert(toks@.map_values(|t: String| t@) =~= tok_step(before, c).tokens);
        }
        i = i + 1;
    }
    assert(input.take(to - from) =~= input);
    if !current.as_str().is_empty() {
        toks.push(current);
        assert(toks@.map_values(|t: String| t@) =~= tokens(input));
    }
    toks
}

/// The attribute text inside optional braces: `input` trimmed, and without its
/// braces when it both starts with `{` and ends with `}`.
pub open spec fn attr_body(input: Seq<char>) -> Seq<char> {
    let t = trim(input);
    if t.len() > 0 && t[0] == '{' && t.drop_first().len() > 0 && t.last() == '}' {
        t.subrange(1, t.len() - 1)
    } else {
        t
    }
}

/// The index of the first `=` in `s`, or `s.len()` when there is none.
pub open spec fn eq_index(s: Seq<char>) -> int
    decreases s.len(),
{
    if s.len() == 0 {
        0
    } else if s[0] == '=' {
        0
    } else {
        1 + eq_index(s.drop_first())
    }
}

pub proof fn lemma_eq_index(s: Seq<char>)
    ensures
        0 <= eq_index(s) <= s.len(),
        eq_index(s) < s.len() ==> s[eq_index(s)] == '=',
        forall|k: int| 0 <= k < eq_index(s) ==> #[trigger] s[k] != '=',
    decreases s.len(),
{
    if s.len() > 0 && s[0] != '=' {
        lemma_eq_index(s.drop_first());
        assert forall|k: int| 0 <= k < eq_index(s) implies #[trigger] s[k] != '=' by {
            if k > 0 {
                assert(s[k] == s.drop_first()[k - 1]);
            }
        }
    }
}

/// The effect of one token on the attributes read so far: `#x` sets the id,
/// `.x` adds a class, `k=v` adds a pair (split at the first `=`), and any other
/// token adds a class.
pub open spec fn apply_token(a: AttrsV, t: Seq<char>) -> AttrsV {
    if t.len() > 0 && t[0] == '#' {
        AttrsV { id: Some(t.drop_first()), ..a }
    } else if t.len() > 0 && t[0] == '.' {
        AttrsV { classes: a.classes.push(t.drop_first()), ..a }
    } else if eq_index(t) < t.len() {
        AttrsV { pairs: a.pairs.push((t.take(eq_index(t)), t.skip(eq_index(t) + 1))), ..a }
    } else if t.len() > 0 {
        AttrsV { classes: a.classes.push(t), ..a }
    } else {
        a
    }
}

pub open spec fn apply_tokens(a: AttrsV, ts: Seq<Seq<char>>) -> AttrsV
    decreases ts.len(),
{
    if ts.len() == 0 {
        a
    } else {
        apply_token(apply_tokens(a, ts.drop_last()), ts.last())
    }
}

/// The attributes that the attribute text `input` denotes.
pub open spec fn attrs_of(input: Seq<char>) -> AttrsV {
    apply_tokens(AttrsV::empty(), tokens(attr_body(input)))
}

/// Parse an attribute string `{#id .class key=value}` (the braces are optional,
/// as in a fence info string) into [`Attrs`].
pub fn parse_attrs(input: &str) -> (r: Attrs)
    ensures
        r@ == attrs_of(input@),
{
    let s = chars_of(input);
    assert(s@.subrange(0, s@.len() as int) =~= s@);
    parse_attrs_in(&s, 0, s.len())
}

/// [`parse_attrs`] on the characters `s[from..to]`.
pub fn parse_attrs_in(s: &[char], from: usize, to: usize) -> (r: Attrs)
    requires
        from <= to <= s@.len(),
    ensures
        r@ == attrs_of(s@.subrange(from as int, to as int)),
{
    let (a, b) = trim_bounds(s, from, to);
    let ghost t = s@.subrange(a as int, b as int);
    let (x, y) = if b - a > 1 && s[a] == '{' && s[b - 1] == '}' {
        assert(t.drop_first().len() > 0 && t.last() == s@[b - 1]);
        assert(t.subrange(1, t.len() - 1) =~= s@.subrange(a + 1, b - 1));
        (a + 1, b - 1)
    } else {
        proof {
            if t.len() > 0 && t[0] == '{' && t.drop_first().len() > 0 {
                assert(t.last() == s@[b - 1]);
            }
        }
        (a, b)
    };
    let toks = tokenize(s, x, y);
    let mut attrs = Attrs::new();
    let mut i: usize = 0;
    let ghost ts = toks@.map_values(|t: String| t@);
    assert(ts.take(0) =~= Seq::<Seq<char>>::empty());
    while i < toks.len()
        invariant
            i <= toks@.len(),
            ts == toks@.map_values(|t: String| t@),
            attrs@ == apply_tokens(AttrsV::empty(), ts.take(i as int)),
        decreases toks.len() - i,
    {
        let tc = chars_of(toks[i].as_str());
        let ghost before = attrs@;
        if tc.len() > 0 && tc[0] == '#' {
            attrs.id = Some(string_of(&tc, 1, tc.len()));
        } else if tc.len() > 0 && tc[0] == '.' {
            attrs.classes.push(string_of(&tc, 1, tc.len()));
        } else {
            let e = find_char(&tc, '=');
            if e < tc.len() {
                let k = string_of(&tc, 0, e);
                let v = string_of(&tc, e + 1, tc.len());
                attrs.pairs.push((k, v));
                assert(tc@.take(e as int) =~= tc@.subrange(0, e as int));
                assert(tc@.skip(e + 1) =~= tc@.subrange(e + 1, tc@.len() as int));
            } else if tc.len() > 0 {
                attrs.classes.push(string_of(&tc, 0, tc.len()));
                assert(tc@.subrange(0, tc@.len() as int) =~= tc@);
            }
        }
        proof {
            if tc@.len() > 0 {
                assert(tc@.drop_first() =~= tc@.subrange(1, tc@.len() as int));
            }
            assert(ts.take(i + 1).drop_last() =~= ts.take(i as int));
            assert(attrs@.classes =~= apply_token(before, ts[i as int]).classes);
            assert(attrs@.pairs =~= apply_token(before, ts[i as int]).pairs);
        }
        i = i + 1;
    }
    assert(ts.take(toks@.len() as int) =~= ts);
    attrs
}

/// The index of the first `c` in `s`, or `s.len()` when there is none; for `=`
/// this is [`eq_index`].
pub fn find_char(s: &[char], c: char) -> (r: usize)
    ensures
        r <= s@.len(),
        r < s@.len() ==> s@[r as int] == c,
        forall|k: int| 0 <= k < r ==> s@[k] != c,
        c == '=' ==> r == eq_index(s@),
{
    let mut i: usize = 0;
    while i < s.len() && s[i] != c
        invariant
            i <= s@.len(),
            forall|k: int| 0 <= k < i ==> s@[k] != c,
        decreases s.len() - i,
    {
        i = i + 1;
    }
    proof {
        if c == '=' {
            lemma_eq_index(s@);
            if i < eq_index(s@) {
                assert(s@[i as int] != '=');
            }
            if eq_index(s@) < i {
                assert(s@[eq_index(s@)] == '=');
            }
        }
    }
    i
}

} // verus!
