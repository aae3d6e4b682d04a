//! The parsing and expansion pipeline: quote-aware tokenization,
//! variable, tilde, brace and wildcard expansion, separator splitting,
//! and redirect and pipeline parsing.

use vstd::prelude::*;

use crate::chars::{
    charss_view, chars_eq, chars_prefix, chars_suffix, chars_to_string, is_shell_space,
    is_space_char, join_with, lookup_pair, lookup_pairs, push_char, split_ws, split_ws_chars,
    str_to_chars, strings_of, subvec, trim_chars, trim_spec,
};
use crate::shell::{ShellError, ShellErrorKind};

verus! {

/// The separator written after a segment, deciding how the next segment
/// is sequenced.
#[derive(Debug, PartialEq, Eq, Structural, Clone, Copy)]
pub enum CommandSeparator {
    AndAnd,
    SemiColon,
    Background,
    Nothing,
}

impl DeepView for CommandSeparator {
    type V = CommandSeparator;

    open spec fn deep_view(&self) -> CommandSeparator {
        *self
    }
}

/// A file-based override of a child process's standard stream.
#[derive(Debug, Clone)]
pub enum Redirect {
    Output(String),
    Append(String),
    Input(String),
}

/// The mathematical value of a [`Redirect`].
pub ghost enum RedirectV {
    Output(Seq<char>),
    Append(Seq<char>),
    Input(Seq<char>),
}

impl DeepView for Redirect {
    type V = RedirectV;

    open spec fn deep_view(&self) -> RedirectV {
        match self {
            Redirect::Output(f) => RedirectV::Output(f@),
            Redirect::Append(f) => RedirectV::Append(f@),
            Redirect::Input(f) => RedirectV::Input(f@),
        }
    }
}

/// A command line after redirect extraction: the program with its
/// arguments, and the redirects in their original order.
#[derive(Debug)]
pub struct ParsedCommand {
    pub cmd: Vec<String>,
    pub redirects: Vec<Redirect>,
}

/// The tokenizer's state: finished tokens, the token being read, the
/// active quote character, and whether the next character is escaped.
#[verifier::ext_equal]
pub ghost struct TokSt {
    pub parts: Seq<Seq<char>>,
    pub buf: Seq<char>,
    pub quote: Option<char>,
    pub escape: bool,
}

pub open spec fn tok_init() -> TokSt {
    TokSt { parts: Seq::empty(), buf: Seq::empty(), quote: None, escape: false }
}

/// One tokenizer step: a backslash escapes the next character verbatim;
/// an unquoted `'` or `"` opens a quote and its partner closes it, while
/// the other kind is literal inside; unquoted whitespace ends the token.
pub open spec fn tok_step(st: TokSt, c: char) -> TokSt {
    if st.escape {
        TokSt { buf: st.buf.push(c), escape: false, ..st }
    } else if c == '\\' {
        TokSt { escape: true, ..st }
    } else if c == '"' || c == '\'' {
        if st.quote == Some(c) {
            TokSt { quote: None, ..st }
        } else if st.quote is None {
            TokSt { quote: Some(c), ..st }
        } else {
            TokSt { buf: st.buf.push(c), ..st }
        }
    } else if is_shell_space(c) && st.quote is None {
        if st.buf.len() > 0 {
            TokSt { parts: st.parts.push(st.buf), buf: Seq::empty(), ..st }
        } else {
            st
        }
    } else {
        TokSt { buf: st.buf.push(c), ..st }
    }
}

pub open spec fn tok_run(s: Seq<char>) -> TokSt
    decreases s.len(),
{
    if s.len() == 0 {
        tok_init()
    } else {
        tok_step(tok_run(s.drop_last()), s.last())
    }
}

/// The tokens of `s`: the tokenizer's finished tokens with the last,
/// unterminated token appended when it is non-empty.
pub open spec fn tokenize(s: Seq<char>) -> Seq<Seq<char>> {
    let st = tok_run(s);
    if st.buf.len() > 0 {
        st.parts.push(st.buf)
    } else {
        st.parts
    }
}

/// Splits a line into tokens, resolving quotes and backslash escapes.
pub fn parse_input(input: &str) -> (r: Vec<String>)
    ensures
        r.deep_view() == tokenize(input@),
{
    let cs = str_to_chars(input);
    let mut parts: Vec<String> = Vec::new();
    let mut buf: Vec<char> = Vec::new();
    let mut quote: Option<char> = None;
    let mut escape: bool = false;
    let mut i: usize = 0;
    assert(input@.subrange(0, 0) =~= Seq::<char>::empty());
    while i < cs.len()
        invariant
            i <= cs@.len(),
            cs@ == input@,
            tok_run(input@.subrange(0, i as int)) == (TokSt {
                parts: parts.deep_view(),
                buf: buf@,
                quote,
                escape,
            }),
        decreases cs@.len() - i,
    {
        let ghost pre = input@.subrange(0, i as int);
        let c = cs[i];
        if escape {
            buf.push(c);
            escape = false;
        } else if c == '\\' {
            escape = true;
        } else if c == '"' || c == '\'' {
            match quote {
                Some(q) => {
                    if q == c {
                        quote = None;
                    } else {
                        buf.push(c);
                    }
                },
                None => {
                    quote = Some(c);
                },
            }
        } else if is_space_char(c) && quote.is_none() {
            if buf.len() > 0 {
                parts.push(chars_to_string(&buf));
                buf = Vec::new();
                assert(parts.deep_view() =~= tok_run(pre).parts.push(tok_run(pre).buf));
            }
        } else {
            buf.push(c);
        }
        i = i + 1;
        proof {
            let cur = input@.subrange(0, i as int);
            assert(cur.drop_last() =~= pre);
            assert(cur.last() == c);
            assert(tok_run(cur) =~= (TokSt { parts: parts.deep_view(), buf: buf@, quote, escape }));
        }
    }
    assert(input@.subrange(0, input@.len() as int) =~= input@);
    if buf.len() > 0 {
        parts.push(chars_to_string(&buf));
        assert(parts.deep_view() =~= tok_run(input@).parts.push(tok_run(input@).buf));
    }
    parts
}

/// The characters that the tokenizer treats specially.
pub open spec fn is_tok_special(c: char) -> bool {
    is_shell_space(c) || c == '"' || c == '\'' || c == '\\'
}

/// A token that renders back to itself: non-empty and free of whitespace,
/// quotes and backslashes.
pub open spec fn plain_token(t: Seq<char>) -> bool {
    t.len() > 0 && forall|i: int| 0 <= i < t.len() ==> !is_tok_special(#[trigger] t[i])
}

/// The tokenizer continued from a given state.
pub open spec fn tok_run_from(st: TokSt, s: Seq<char>) -> TokSt
    decreases s.len(),
{
    if s.len() == 0 {
        st
    } else {
        tok_step(tok_run_from(st, s.drop_last()), s.last())
    }
}

proof fn lemma_tok_run_from_concat(st: TokSt, a: Seq<char>, b: Seq<char>)
    ensures
        tok_run_from(st, a + b) == tok_run_from(tok_run_from(st, a), b),
    decreases b.len(),
{
    if b.len() == 0 {
        assert(a + b =~= a);
    } else {
        assert((a + b).drop_last() =~= a + b.drop_last());
        assert((a + b).last() == b.last());
        lemma_tok_run_from_concat(st, a, b.drop_last());
    }
}

proof fn lemma_tok_run_is_from_init(s: Seq<char>)
    ensures
        tok_run(s) == tok_run_from(tok_init(), s),
    decreases s.len(),
{
    if s.len() > 0 {
        lemma_tok_run_is_from_init(s.drop_last());
    }
}

proof fn lemma_tok_plain(parts: Seq<Seq<char>>, buf: Seq<char>, t: Seq<char>)
    requires
        forall|i: int| 0 <= i < t.len() ==> !is_tok_special(#[trigger] t[i]),
    ensures
        tok_run_from(TokSt { parts, buf, quote: None, escape: false }, t) == (TokSt {
            parts,
            buf: buf + t,
            quote: None,
            escape: false,
        }),
    decreases t.len(),
{
    if t.len() == 0 {
        assert(buf + t =~= buf);
    } else {
        let d = t.drop_last();
        assert(forall|i: int| 0 <= i < d.len() ==> !is_tok_special(#[trigger] d[i]));
        lemma_tok_plain(parts, buf, d);
        assert(!is_tok_special(t.last()));
        assert((buf + d).push(t.last()) =~= buf + t);
        assert(tok_run_from(TokSt { parts, buf, quote: None, escape: false }, t) =~= (TokSt {
            parts,
            buf: buf + t,
            quote: None,
            escape: false,
        }));
    }
}

/// Re-tokenizing the rendered form of plain tokens gives them back: when
/// every token is non-empty and free of spaces, quotes and backslashes,
/// tokenizing the tokens joined with single spaces is the identity. (A
/// token with a space inside, such as the one from `"a b"`, renders to a
/// form that splits again, so the claim needs the tokens plain.)
pub proof fn lemma_retokenize_plain(ts: Seq<Seq<char>>)
    requires
        ts.len() > 0,
        forall|i: int| 0 <= i < ts.len() ==> plain_token(#[trigger] ts[i]),
    ensures
        tok_run(join_with(ts, seq![' '])) == (TokSt {
            parts: ts.drop_last(),
            buf: ts.last(),
            quote: None,
            escape: false,
        }),
        tokenize(join_with(ts, seq![' '])) == ts,
    decreases ts.len(),
{
    let j = join_with(ts, seq![' ']);
    lemma_tok_run_is_from_init(j);
    if ts.len() == 1 {
        assert(j == ts[0]);
        assert(plain_token(ts[0]));
        lemma_tok_plain(Seq::empty(), Seq::empty(), ts[0]);
        assert(Seq::<char>::empty() + ts[0] =~= ts[0]);
        assert(ts.drop_last() =~= Seq::<Seq<char>>::empty());
        assert(tok_run(j) =~= (TokSt {
            parts: ts.drop_last(),
            buf: ts.last(),
            quote: None,
            escape: false,
        }));
    } else {
        let dl = ts.drop_last();
        assert forall|i: int| 0 <= i < dl.len() implies plain_token(#[trigger] dl[i]) by {
            assert(dl[i] == ts[i]);
        }
        lemma_retokenize_plain(dl);
        let jd = join_with(dl, seq![' ']);
        assert(j == jd + seq![' '] + ts.last());
        assert(j =~= jd + (seq![' '] + ts.last()));
        lemma_tok_run_from_concat(tok_init(), jd, seq![' '] + ts.last());
        lemma_tok_run_is_from_init(jd);
        let st1 = TokSt { parts: dl.drop_last(), buf: dl.last(), quote: None, escape: false };
        assert(tok_run_from(tok_init(), jd) == st1);
        lemma_tok_run_from_concat(st1, seq![' '], ts.last());
        assert(seq![' '] + ts.last() =~= seq![' '] + ts.last());
        assert((seq![' ']).drop_last() =~= Seq::<char>::empty());
        assert(tok_run_from(st1, Seq::<char>::empty()) == st1);
        assert(seq![' '].last() == ' ');
        assert(tok_run_from(st1, seq![' ']) == tok_step(st1, ' '));
        assert(plain_token(dl.last()));
        let st2 = tok_step(st1, ' ');
        assert(st2.parts =~= dl.drop_last().push(dl.last()));
        assert(dl.drop_last().push(dl.last()) =~= dl);
        assert(st2 =~= (TokSt {
            parts: dl,
            buf: Seq::<char>::empty(),
            quote: None,
            escape: false,
        }));
        assert(plain_token(ts.last()));
        lemma_tok_plain(dl, Seq::empty(), ts.last());
        assert(Seq::<char>::empty() + ts.last() =~= ts.last());
        assert(tok_run(j) =~= (TokSt { parts: dl, buf: ts.last(), quote: None, escape: false }));
    }
    assert(ts.last().len() > 0);
    assert(ts.drop_last().push(ts.last()) =~= ts);
}

/// Whether `name` matches the (trimmed) pattern: `*` matches everything,
/// `*suffix` matches by suffix, `prefix*` by prefix, anything else by
/// equality.
pub open spec fn wc_match(name: Seq<char>, pattern: Seq<char>) -> bool {
    let pat = trim_spec(pattern);
    if pat == seq!['*'] {
        true
    } else if pat.len() > 0 && pat[0] == '*' {
        pat.drop_first().is_suffix_of(name)
    } else if pat.len() > 0 && pat.last() == '*' {
        pat.drop_last().is_prefix_of(name)
    } else {
        name == pat
    }
}

/// Tests a directory-entry name against a wildcard pattern.
pub fn wildcard_match(name: &str, pattern: &str) -> (r: bool)
    ensures
        r == wc_match(name@, pattern@),
{
    let pc = str_to_chars(pattern);
    let pat = trim_chars(&pc);
    let nm = str_to_chars(name);
    if pat.len() == 1 && pat[0] == '*' {
        assert(pat@ =~= seq!['*']);
        return true;
    }
    assert(pat@ != seq!['*']);
    if pat.len() > 0 && pat[0] == '*' {
        let suffix = subvec(&pat, 1, pat.len());
        assert(suffix@ =~= pat@.drop_first());
        return chars_suffix(&nm, &suffix);
    }
    if pat.len() > 0 && pat[pat.len() - 1] == '*' {
        let prefix = subvec(&pat, 0, pat.len() - 1);
        assert(prefix@ =~= pat@.drop_last());
        return chars_prefix(&nm, &prefix);
    }
    chars_eq(&nm, &pat)
}

/// The entry names that match the pattern, in their original order.
pub open spec fn wc_filter(names: Seq<Seq<char>>, pattern: Seq<char>) -> Seq<Seq<char>>
    decreases names.len(),
{
    if names.len() == 0 {
        Seq::empty()
    } else if wc_match(names.last(), pattern) {
        wc_filter(names.drop_last(), pattern).push(names.last())
    } else {
        wc_filter(names.drop_last(), pattern)
    }
}

/// A `*` pattern keeps every entry.
pub proof fn lemma_star_matches_all(names: Seq<Seq<char>>)
    ensures
        wc_filter(names, seq!['*']) == names,
    decreases names.len(),
{
    if names.len() == 0 {
        assert(wc_filter(names, seq!['*']) =~= names);
    } else {
        lemma_star_matches_all(names.drop_last());
        assert(trim_spec(seq!['*']) =~= seq!['*']);
        assert(names.drop_last().push(names.last()) =~= names);
    }
}

/// Keeps the directory-entry names that match the wildcard pattern.
pub fn expand_wildcard(pattern: &str, entries: &Vec<String>) -> (r: Vec<String>)
    ensures
        r.deep_view() == wc_filter(entries.deep_view(), pattern@),
{
    let mut r: Vec<String> = Vec::new();
    let mut i: usize = 0;
    while i < entries.len()
        invariant
            i <= entries@.len(),
            r.deep_view() == wc_filter(entries.deep_view().subrange(0, i as int), pattern@),
        decreases entries@.len() - i,
    {
        let ghost pre = entries.deep_view().subrange(0, i as int);
        if wildcard_match(entries[i].as_str(), pattern) {
            r.push(entries[i].clone());
            assert(r.deep_view() =~= wc_filter(pre, pattern@).push(entries.deep_view()[i as int]));
        }
        i = i + 1;
        proof {
            let cur = entries.deep_view().subrange(0, i as int);
            assert(cur.drop_last() =~= pre);
            assert(cur.last() == entries.deep_view()[i - 1]);
        }
    }
    assert(entries.deep_view().subrange(0, entries@.len() as int) =~= entries.deep_view());
    r
}

/// The home directory used for `~`, falling back to `.` when unset.
pub open spec fn home_or_dot(h: Option<Seq<char>>) -> Seq<char> {
    match h {
        Some(s) => s,
        None => seq!['.'],
    }
}

/// `~` alone becomes the home directory; a `~/...` prefix has its `~`
/// replaced by it; anything else is unchanged.
pub open spec fn tilde_spec(p: Seq<char>, home: Seq<char>) -> Seq<char> {
    if p.len() >= 2 && p[0] == '~' && p[1] == '/' {
        home + p.drop_first()
    } else if p == seq!['~'] {
        home
    } else {
        p
    }
}

/// Expands a leading `~` to the given home directory.
pub fn expand_tilde(path: &str, home: &Option<String>) -> (r: String)
    ensures
        r@ == tilde_spec(path@, home_or_dot(home.deep_view())),
{
    let pc = str_to_chars(path);
    let h: String = match home {
        Some(s) => s.clone(),
        None => {
            let d = String::from_str(".");
            proof {
                reveal_strlit(".");
            }
            assert(d@ =~= seq!['.']);
            d
        },
    };
    if pc.len() >= 2 && pc[0] == '~' && pc[1] == '/' {
        let mut r = h;
        let mut i: usize = 1;
        let ghost hv = r@;
        while i < pc.len()
            invariant
                1 <= i <= pc@.len(),
                r@ == hv + pc@.subrange(1, i as int),
            decreases pc@.len() - i,
        {
            push_char(&mut r, pc[i]);
            i = i + 1;
            assert(r@ =~= hv + pc@.subrange(1, i as int));
        }
        assert(pc@.subrange(1, pc@.len() as int) =~= path@.drop_first());
        return r;
    }
    if pc.len() == 1 && pc[0] == '~' {
        assert(path@ =~= seq!['~']);
        return h;
    }
    assert(path@ != seq!['~']);
    path.to_owned()
}

/// The segments of a line split on unquoted `;`, `&&` and `&`, each with
/// its trailing separator; `cur` is the segment being read. Every
/// separator ends a (possibly empty) segment; a non-empty remainder at
/// the end carries no separator.
pub open spec fn split_run(
    s: Seq<char>,
    cur: Seq<char>,
    quote: Option<char>,
    escape: bool,
) -> Seq<(Seq<char>, CommandSeparator)>
    decreases s.len(),
{
    if s.len() == 0 {
        if trim_spec(cur).len() > 0 {
            seq![(trim_spec(cur), CommandSeparator::Nothing)]
        } else {
            Seq::empty()
        }
    } else {
        let c = s[0];
        let rest = s.drop_first();
        if escape {
            split_run(rest, cur.push(c), quote, false)
        } else if c == '\\' {
            split_run(rest, cur, quote, true)
        } else if c == '"' || c == '\'' {
            if quote == Some(c) {
                split_run(rest, cur.push(c), None, false)
            } else if quote is None {
                split_run(rest, cur.push(c), Some(c), false)
            } else {
                split_run(rest, cur.push(c), quote, false)
            }
        } else if c == ';' && quote is None {
            seq![(trim_spec(cur), CommandSeparator::SemiColon)] + split_run(
                rest,
                Seq::empty(),
                quote,
                false,
            )
        } else if c == '&' && quote is None {
            if rest.len() > 0 && rest[0] == '&' {
                seq![(trim_spec(cur), CommandSeparator::AndAnd)] + split_run(
                    rest.drop_first(),
                    Seq::empty(),
                    quote,
                    false,
                )
            } else {
                seq![(trim_spec(cur), CommandSeparator::Background)] + split_run(
                    rest,
                    Seq::empty(),
                    quote,
                    false,
                )
            }
        } else {
            split_run(rest, cur.push(c), quote, false)
        }
    }
}

pub open spec fn split_cmds(s: Seq<char>) -> Seq<(Seq<char>, CommandSeparator)> {
    split_run(s, Seq::empty(), None, false)
}

/// Splits a line into trimmed segments on unquoted `;`, `&&` and `&`.
pub fn split_commands(input: &str) -> (r: Vec<(String, CommandSeparator)>)
    ensures
        r.deep_view() == split_cmds(input@),
{
    let cs = str_to_chars(input);
    let mut tokens: Vec<(String, CommandSeparator)> = Vec::new();
    let mut cur: Vec<char> = Vec::new();
    let mut quote: Option<char> = None;
    let mut escape: bool = false;
    let mut i: usize = 0;
    assert(input@.subrange(0, input@.len() as int) =~= input@);
    while i < cs.len()
        invariant
            i <= cs@.len(),
            cs@ == input@,
            split_cmds(input@) == tokens.deep_view() + split_run(
                input@.subrange(i as int, input@.len() as int),
                cur@,
                quote,
                escape,
            ),
        decreases cs@.len() - i,
    {
        let ghost rem = input@.subrange(i as int, input@.len() as int);
        let ghost toks_pre = tokens.deep_view();
        let ghost cur_pre = cur@;
        proof {
            assert(rem[0] == input@[i as int]);
            assert(rem.drop_first() =~= input@.subrange(i + 1, input@.len() as int));
        }
        let c = cs[i];
        if escape {
            cur.push(c);
            escape = false;
            i = i + 1;
        } else if c == '\\' {
            escape = true;
            i = i + 1;
        } else if c == '"' || c == '\'' {
            match quote {
                Some(q) => {
                    if q == c {
                        quote = None;
                    }
                },
                None => {
                    quote = Some(c);
                },
            }
            cur.push(c);
            i = i + 1;
        } else if c == ';' && quote.is_none() {
            let t = trim_chars(&cur);
            tokens.push((chars_to_string(&t), CommandSeparator::SemiColon));
            cur = Vec::new();
            i = i + 1;
            proof {
                assert(tokens.deep_view() =~= toks_pre.push(
                    (trim_spec(cur_pre), CommandSeparator::SemiColon),
                ));
                assert(toks_pre.push((trim_spec(cur_pre), CommandSeparator::SemiColon))
                    + split_run(
                    input@.subrange(i as int, input@.len() as int),
                    cur@,
                    quote,
                    escape,
                ) =~= toks_pre + split_run(rem, cur_pre, quote, false));
            }
        } else if c == '&' && quote.is_none() {
            if i + 1 < cs.len() && cs[i + 1] == '&' {
                let t = trim_chars(&cur);
                tokens.push((chars_to_string(&t), CommandSeparator::AndAnd));
                cur = Vec::new();
                i = i + 2;
                proof {
                    assert(rem.drop_first().drop_first() =~= input@.subrange(
                        i as int,
                        input@.len() as int,
                    ));
                    assert(rem.drop_first()[0] == input@[i - 1]);
                    assert(tokens.deep_view() =~= toks_pre.push(
                        (trim_spec(cur_pre), CommandSeparator::AndAnd),
                    ));
                    assert(toks_pre.push((trim_spec(cur_pre), CommandSeparator::AndAnd))
                        + split_run(
                        input@.subrange(i as int, input@.len() as int),
                        cur@,
                        quote,
                        escape,
                    ) =~= toks_pre + split_run(rem, cur_pre, quote, false));
                }
            } else {
                let t = trim_chars(&cur);
                tokens.push((chars_to_string(&t), CommandSeparator::Background));
                cur = Vec::new();
                i = i + 1;
                proof {
                    if rem.drop_first().len() > 0 {
                        assert(rem.drop_first()[0] == input@[i as int]);
                    }
                    assert(tokens.deep_view() =~= toks_pre.push(
                        (trim_spec(cur_pre), CommandSeparator::Background),
                    ));
                    assert(toks_pre.push((trim_spec(cur_pre), CommandSeparator::Background))
                        + split_run(
                        input@.subrange(i as int, input@.len() as int),
                        cur@,
                        quote,
                        escape,
                    ) =~= toks_pre + split_run(rem, cur_pre, quote, false));
                }
            }
        } else {
            cur.push(c);
            i = i + 1;
        }
    }
    assert(input@.subrange(cs@.len() as int, input@.len() as int) =~= Seq::<char>::empty());
    let t = trim_chars(&cur);
    if t.len() > 0 {
        let ghost toks_pre = tokens.deep_view();
        tokens.push((chars_to_string(&t), CommandSeparator::Nothing));
        proof {
            assert(tokens.deep_view() =~= toks_pre.push(
                (trim_spec(cur@), CommandSeparator::Nothing),
            ));
            assert(tokens.deep_view() =~= toks_pre + split_run(
                Seq::<char>::empty(),
                cur@,
                quote,
                escape,
            ));
        }
    } else {
        assert(tokens.deep_view() + split_run(Seq::<char>::empty(), cur@, quote, escape)
            =~= tokens.deep_view());
    }
    tokens
}

/// The pieces of `s` split on every occurrence of `sep`, keeping empties;
/// the second component is the piece still being read.
pub open spec fn so_run(s: Seq<char>, sep: char) -> (Seq<Seq<char>>, Seq<char>)
    decreases s.len(),
{
    if s.len() == 0 {
        (Seq::<Seq<char>>::empty(), Seq::<char>::empty())
    } else {
        let st = so_run(s.drop_last(), sep);
        if s.last() == sep {
            (st.0.push(st.1), Seq::<char>::empty())
        } else {
            (st.0, st.1.push(s.last()))
        }
    }
}

pub open spec fn split_on(s: Seq<char>, sep: char) -> Seq<Seq<char>> {
    so_run(s, sep).0.push(so_run(s, sep).1)
}

/// The pipeline stages of a segment: the text split on every `|`, each
/// stage further split on whitespace. Pipe splitting is not quote-aware.
pub open spec fn pipeline_spec(s: Seq<char>) -> Seq<Seq<Seq<char>>> {
    split_on(s, '|').map_values(|p: Seq<char>| split_ws(p))
}

/// Splits a segment on `|` into an ordered list of argument lists.
pub fn parse_pipeline(input: &str) -> (r: Vec<Vec<String>>)
    ensures
        r.deep_view() == pipeline_spec(input@),
{
    let cs = str_to_chars(input);
    let mut out: Vec<Vec<String>> = Vec::new();
    let mut cur: Vec<char> = Vec::new();
    let mut i: usize = 0;
    assert(input@.subrange(0, 0) =~= Seq::<char>::empty());
    while i < cs.len()
        invariant
            i <= cs@.len(),
            cs@ == input@,
            so_run(input@.subrange(0, i as int), '|').1 == cur@,
            out.deep_view() == so_run(input@.subrange(0, i as int), '|').0.map_values(
                |p: Seq<char>| split_ws(p),
            ),
        decreases cs@.len() - i,
    {
        let ghost pre = input@.subrange(0, i as int);
        let ghost out_pre = out.deep_view();
        let c = cs[i];
        if c == '|' {
            out.push(strings_of(split_ws_chars(&cur)));
            cur = Vec::new();
            assert(out.deep_view() =~= out_pre.push(split_ws(so_run(pre, '|').1)));
        } else {
            cur.push(c);
        }
        i = i + 1;
        proof {
            let curseq = input@.subrange(0, i as int);
            assert(curseq.drop_last() =~= pre);
            assert(curseq.last() == c);
            if c == '|' {
                assert(so_run(curseq, '|').0.map_values(|p: Seq<char>| split_ws(p)) =~= so_run(
                    pre,
                    '|',
                ).0.map_values(|p: Seq<char>| split_ws(p)).push(split_ws(so_run(pre, '|').1)));
            }
        }
    }
    assert(input@.subrange(0, input@.len() as int) =~= input@);
    let ghost out_pre = out.deep_view();
    out.push(strings_of(split_ws_chars(&cur)));
    proof {
        assert(out.deep_view() =~= out_pre.push(split_ws(so_run(input@, '|').1)));
        assert(pipeline_spec(input@) =~= so_run(input@, '|').0.map_values(
            |p: Seq<char>| split_ws(p),
        ).push(split_ws(so_run(input@, '|').1)));
    }
    out
}

/// Splits a character vector on every occurrence of `sep`, keeping
/// empties.
pub fn split_on_char(v: &Vec<char>, sep: char) -> (r: Vec<Vec<char>>)
    ensures
        charss_view(r@) == split_on(v@, sep),
{
    let mut out: Vec<Vec<char>> = Vec::new();
    let mut cur: Vec<char> = Vec::new();
    let mut i: usize = 0;
    assert(v@.subrange(0, 0) =~= Seq::<char>::empty());
    while i < v.len()
        invariant
            i <= v@.len(),
            so_run(v@.subrange(0, i as int), sep).1 == cur@,
            charss_view(out@) == so_run(v@.subrange(0, i as int), sep).0,
        decreases v@.len() - i,
    {
        let ghost pre = v@.subrange(0, i as int);
        let ghost out_pre = charss_view(out@);
        let c = v[i];
        if c == sep {
            let done = cur;
            cur = Vec::new();
            let ghost oprev = out@;
            out.push(done);
            proof {
                crate::chars::lemma_charss_view_push(oprev, out@.last());
                assert(out@ == oprev.push(out@.last()));
                assert(charss_view(out@) =~= out_pre.push(so_run(pre, sep).1));
            }
        } else {
            cur.push(c);
        }
        i = i + 1;
        proof {
            let curseq = v@.subrange(0, i as int);
            assert(curseq.drop_last() =~= pre);
            assert(curseq.last() == c);
        }
    }
    assert(v@.subrange(0, v@.len() as int) =~= v@);
    let ghost out_pre = charss_view(out@);
    let ghost oprev = out@;
    out.push(cur);
    proof {
        crate::chars::lemma_charss_view_push(oprev, out@.last());
        assert(out@ == oprev.push(out@.last()));
        assert(charss_view(out@) =~= out_pre.push(so_run(v@, sep).1));
    }
    out
}

/// Whether the redirect syntax is well formed: every `>`, `>>` or `<`
/// token is followed by a target token.
pub open spec fn redir_ok(toks: Seq<Seq<char>>) -> bool
    decreases toks.len(),
{
    if toks.len() == 0 {
        true
    } else if toks[0] == seq!['>'] || toks[0] == seq!['>', '>'] || toks[0] == seq!['<'] {
        toks.len() >= 2 && redir_ok(toks.subrange(2, toks.len() as int))
    } else {
        redir_ok(toks.drop_first())
    }
}

/// Consumes whitespace-separated tokens: `>`, `>>` and `<` each take the
/// following token as a redirect target; every other token joins the
/// command. Meaningful on well-formed input ([`redir_ok`]); a trailing
/// symbol without a target is malformed and rejected by the parser.
pub open spec fn redir_run(toks: Seq<Seq<char>>) -> (Seq<Seq<char>>, Seq<RedirectV>)
    decreases toks.len(),
{
    if toks.len() == 0 {
        (Seq::<Seq<char>>::empty(), Seq::<RedirectV>::empty())
    } else if toks[0] == seq!['>'] || toks[0] == seq!['>', '>'] || toks[0] == seq!['<'] {
        if toks.len() >= 2 {
            let r = redir_run(toks.subrange(2, toks.len() as int));
            let red = if toks[0] == seq!['>'] {
                RedirectV::Output(toks[1])
            } else if toks[0] == seq!['>', '>'] {
                RedirectV::Append(toks[1])
            } else {
                RedirectV::Input(toks[1])
            };
            (r.0, seq![red] + r.1)
        } else {
            (Seq::<Seq<char>>::empty(), Seq::<RedirectV>::empty())
        }
    } else {
        let r = redir_run(toks.drop_first());
        (seq![toks[0]] + r.0, r.1)
    }
}

/// Extracts `>`, `>>` and `<` targets from a whitespace-split command
/// line, leaving the remaining tokens as the command; a redirect symbol
/// with no following target is malformed and aborts the segment.
pub fn parse_redirects(input: &str) -> (r: Result<ParsedCommand, ShellError>)
    ensures
        match r {
            Ok(pc) => redir_ok(split_ws(input@)) && pc.cmd.deep_view() == redir_run(
                split_ws(input@),
            ).0 && pc.redirects.deep_view() == redir_run(split_ws(input@)).1,
            Err(e) => !redir_ok(split_ws(input@)) && e.kind == ShellErrorKind::InvalidInput
                && e.message@ == "Invalid redirect syntax"@,
        },
{
    let cs = str_to_chars(input);
    let toks = split_ws_chars(&cs);
    let ghost tv = split_ws(input@);
    let mut cmd: Vec<String> = Vec::new();
    let mut redirects: Vec<Redirect> = Vec::new();
    let mut i: usize = 0;
    assert(tv.subrange(0, tv.len() as int) =~= tv);
    while i < toks.len()
        invariant
            i <= toks@.len(),
            tv == split_ws(input@),
            charss_view(toks@) == tv,
            redir_ok(tv) == redir_ok(tv.subrange(i as int, tv.len() as int)),
            redir_run(tv).0 == cmd.deep_view() + redir_run(
                tv.subrange(i as int, tv.len() as int),
            ).0,
            redir_run(tv).1 == redirects.deep_view() + redir_run(
                tv.subrange(i as int, tv.len() as int),
            ).1,
        decreases toks@.len() - i,
    {
        let ghost rem = tv.subrange(i as int, tv.len() as int);
        let ghost cmd_pre = cmd.deep_view();
        let ghost red_pre = redirects.deep_view();
        proof {
            assert(rem[0] == tv[i as int]);
        }
        let t = &toks[i];
        let is_out = t.len() == 1 && t[0] == '>';
        let is_app = t.len() == 2 && t[0] == '>' && t[1] == '>';
        let is_in = t.len() == 1 && t[0] == '<';
        proof {
            if is_out {
                assert(rem[0] =~= seq!['>']);
            }
            if is_app {
                assert(rem[0] =~= seq!['>', '>']);
            }
            if is_in {
                assert(rem[0] =~= seq!['<']);
            }
            if !is_out {
                assert(rem[0] != seq!['>']);
            }
            if !is_app {
                assert(rem[0] != seq!['>', '>']);
            }
            if !is_in {
                assert(rem[0] != seq!['<']);
            }
        }
        if is_out || is_app || is_in {
            if i + 1 < toks.len() {
                let file = chars_to_string(&toks[i + 1]);
                assert(file@ == rem[1]);
                if is_out {
                    redirects.push(Redirect::Output(file));
                } else if is_app {
                    redirects.push(Redirect::Append(file));
                } else {
                    redirects.push(Redirect::Input(file));
                }
                i = i + 2;
                proof {
                    assert(rem.subrange(2, rem.len() as int) =~= tv.subrange(
                        i as int,
                        tv.len() as int,
                    ));
                    assert(redirects.deep_view() =~= red_pre.push(redir_run(rem).1[0]));
                    assert(redirects.deep_view() + redir_run(
                        tv.subrange(i as int, tv.len() as int),
                    ).1 =~= red_pre + redir_run(rem).1);
                }
            } else {
                proof {
                    assert(rem.len() == 1);
                    assert(!redir_ok(rem));
                    assert(!redir_ok(tv));
                }
                let e = ShellError {
                    kind: ShellErrorKind::InvalidInput,
                    message: String::from_str("Invalid redirect syntax"),
                };
                assert(e.message@ == "Invalid redirect syntax"@);
                assert(!redir_ok(split_ws(input@)));
                return Err(e);
            }
        } else {
            cmd.push(chars_to_string(&toks[i]));
            i = i + 1;
            proof {
                assert(rem.drop_first() =~= tv.subrange(i as int, tv.len() as int));
                assert(cmd.deep_view() =~= cmd_pre.push(rem[0]));
                assert(cmd.deep_view() + redir_run(tv.subrange(i as int, tv.len() as int)).0
                    =~= cmd_pre + (seq![rem[0]] + redir_run(rem.drop_first()).0));
            }
        }
    }
    proof {
        assert(tv.subrange(tv.len() as int, tv.len() as int) =~= Seq::<Seq<char>>::empty());
        assert(cmd.deep_view() + redir_run(Seq::<Seq<char>>::empty()).0 =~= cmd.deep_view());
        assert(redirects.deep_view() + redir_run(Seq::<Seq<char>>::empty()).1
            =~= redirects.deep_view());
    }
    Ok(ParsedCommand { cmd, redirects })
}

/// The characters a variable name may contain: ASCII letters, digits and
/// underscore. This is a deliberate restriction to ASCII: a `$` followed
/// by a character outside this set ends the name span, so variable names
/// written in other scripts are not recognised.
pub open spec fn is_var_char(c: char) -> bool {
    ('a' <= c && c <= 'z') || ('A' <= c && c <= 'Z') || ('0' <= c && c <= '9') || c == '_'
}

/// Executable test for [`is_var_char`].
pub fn is_var_char_exec(c: char) -> (r: bool)
    ensures
        r == is_var_char(c),
{
    ('a' <= c && c <= 'z') || ('A' <= c && c <= 'Z') || ('0' <= c && c <= '9') || c == '_'
}

/// The value of a variable: its entry in the environment, or empty when
/// unset.
pub open spec fn var_value(env: Seq<(Seq<char>, Seq<char>)>, name: Seq<char>) -> Seq<char> {
    match lookup_pairs(env, name) {
        Some(v) => v,
        None => Seq::<char>::empty(),
    }
}

/// The variable scanner's state: the output so far, the name being read,
/// and whether a `$name` span is open.
#[verifier::ext_equal]
pub ghost struct VarSt {
    pub out: Seq<char>,
    pub name: Seq<char>,
    pub in_var: bool,
}

/// One step of variable expansion: `$` opens a name span; name characters
/// extend it; any other character closes it, substituting the variable's
/// value.
pub open spec fn var_step(st: VarSt, c: char, env: Seq<(Seq<char>, Seq<char>)>) -> VarSt {
    if !st.in_var {
        if c == '$' {
            VarSt { name: Seq::empty(), in_var: true, ..st }
        } else {
            VarSt { out: st.out.push(c), ..st }
        }
    } else if is_var_char(c) {
        VarSt { name: st.name.push(c), ..st }
    } else {
        let o = st.out + var_value(env, st.name);
        if c == '$' {
            VarSt { out: o, name: Seq::empty(), in_var: true }
        } else {
            VarSt { out: o.push(c), name: Seq::empty(), in_var: false }
        }
    }
}

pub open spec fn var_run(s: Seq<char>, env: Seq<(Seq<char>, Seq<char>)>) -> VarSt
    decreases s.len(),
{
    if s.len() == 0 {
        VarSt { out: Seq::empty(), name: Seq::empty(), in_var: false }
    } else {
        var_step(var_run(s.drop_last(), env), s.last(), env)
    }
}

/// `s` with every `$name` span replaced by the variable's value; a name
/// still open at the end of the input is resolved as well.
pub open spec fn expand_vars_spec(s: Seq<char>, env: Seq<(Seq<char>, Seq<char>)>) -> Seq<char> {
    let st = var_run(s, env);
    if st.in_var {
        st.out + var_value(env, st.name)
    } else {
        st.out
    }
}

/// Replaces each `$name` with its value from `vars`, or empty when unset.
pub fn expand_vars(input: &str, vars: &Vec<(String, String)>) -> (r: String)
    ensures
        r@ == expand_vars_spec(input@, vars.deep_view()),
{
    let ghost env = vars.deep_view();
    let cs = str_to_chars(input);
    let mut out = String::new();
    let mut name: Vec<char> = Vec::new();
    let mut in_var: bool = false;
    let mut i: usize = 0;
    assert(input@.subrange(0, 0) =~= Seq::<char>::empty());
    while i < cs.len()
        invariant
            i <= cs@.len(),
            cs@ == input@,
            env == vars.deep_view(),
            var_run(input@.subrange(0, i as int), env) == (VarSt {
                out: out@,
                name: name@,
                in_var,
            }),
        decreases cs@.len() - i,
    {
        let ghost pre = input@.subrange(0, i as int);
        let c = cs[i];
        if !in_var {
            if c == '$' {
                name = Vec::new();
                in_var = true;
            } else {
                push_char(&mut out, c);
            }
        } else if is_var_char_exec(c) {
            name.push(c);
        } else {
            match lookup_pair(vars, &name) {
                Some(v) => {
                    out.append(v.as_str());
                },
                None => {
                    assert(out@ + var_value(env, name@) =~= out@);
                },
            }
            if c == '$' {
                name = Vec::new();
            } else {
                push_char(&mut out, c);
                name = Vec::new();
                in_var = false;
            }
        }
        i = i + 1;
        proof {
            let cur = input@.subrange(0, i as int);
            assert(cur.drop_last() =~= pre);
            assert(cur.last() == c);
            assert(var_run(cur, env) =~= (VarSt { out: out@, name: name@, in_var }));
        }
    }
    assert(input@.subrange(0, input@.len() as int) =~= input@);
    if in_var {
        match lookup_pair(vars, &name) {
            Some(v) => {
                out.append(v.as_str());
            },
            None => {
                assert(out@ + var_value(env, name@) =~= out@);
            },
        }
    }
    out
}

/// A brace item flushed at a comma or closing brace: trimmed, and dropped
/// when empty.
pub open spec fn flush_item(buf: Seq<char>) -> Seq<Seq<char>> {
    if trim_spec(buf).len() > 0 {
        seq![trim_spec(buf)]
    } else {
        Seq::empty()
    }
}

/// Splitting one partial string on commas: finished items and the item
/// being read.
pub open spec fn comma_run(s: Seq<char>) -> (Seq<Seq<char>>, Seq<char>)
    decreases s.len(),
{
    if s.len() == 0 {
        (Seq::<Seq<char>>::empty(), Seq::<char>::empty())
    } else {
        let st = comma_run(s.drop_last());
        if s.last() == ',' {
            (st.0 + flush_item(st.1), Seq::<char>::empty())
        } else {
            (st.0, st.1.push(s.last()))
        }
    }
}

/// The comma-separated items of one partial string, each trimmed and
/// non-empty.
pub open spec fn comma_items(s: Seq<char>) -> Seq<Seq<char>> {
    comma_run(s).0 + flush_item(comma_run(s).1)
}

/// The comma items of every partial string, in order.
pub open spec fn comma_items_all(cur: Seq<Seq<char>>) -> Seq<Seq<char>>
    decreases cur.len(),
{
    if cur.len() == 0 {
        Seq::empty()
    } else {
        comma_items_all(cur.drop_last()) + comma_items(cur.last())
    }
}

/// Splits one string on commas into trimmed, non-empty items.
pub fn split_commas(v: &Vec<char>) -> (r: Vec<Vec<char>>)
    ensures
        charss_view(r@) == comma_items(v@),
{
    let mut items: Vec<Vec<char>> = Vec::new();
    let mut buf: Vec<char> = Vec::new();
    let mut i: usize = 0;
    assert(v@.subrange(0, 0) =~= Seq::<char>::empty());
    while i < v.len()
        invariant
            i <= v@.len(),
            comma_run(v@.subrange(0, i as int)) == (charss_view(items@), buf@),
        decreases v@.len() - i,
    {
        let ghost pre = v@.subrange(0, i as int);
        let c = v[i];
        if c == ',' {
            let t = trim_chars(&buf);
            if t.len() > 0 {
                items.push(t);
                assert(charss_view(items@) =~= comma_run(pre).0 + flush_item(comma_run(pre).1));
            } else {
                assert(charss_view(items@) =~= comma_run(pre).0 + flush_item(comma_run(pre).1));
            }
            buf = Vec::new();
        } else {
            buf.push(c);
        }
        i = i + 1;
        proof {
            let cur = v@.subrange(0, i as int);
            assert(cur.drop_last() =~= pre);
            assert(cur.last() == c);
        }
    }
    assert(v@.subrange(0, v@.len() as int) =~= v@);
    let t = trim_chars(&buf);
    if t.len() > 0 {
        items.push(t);
        assert(charss_view(items@) =~= comma_run(v@).0 + flush_item(comma_run(v@).1));
    } else {
        assert(charss_view(items@) =~= comma_run(v@).0 + flush_item(comma_run(v@).1));
    }
    items
}

/// Appends copies of `src`'s entries to `dst`.
fn append_charss(dst: &mut Vec<Vec<char>>, src: &Vec<Vec<char>>)
    ensures
        charss_view(final(dst)@) == charss_view(old(dst)@) + charss_view(src@),
{
    let mut k: usize = 0;
    while k < src.len()
        invariant
            k <= src@.len(),
            charss_view(dst@) == charss_view(old(dst)@) + charss_view(src@.subrange(0, k as int)),
        decreases src@.len() - k,
    {
        let ghost dpre = dst@;
        let cp = subvec(&src[k], 0, src[k].len());
        assert(cp@ =~= src@[k as int]@);
        dst.push(cp);
        k = k + 1;
        proof {
            crate::chars::lemma_charss_view_push(dpre, dst@.last());
            assert(charss_view(dst@) =~= charss_view(old(dst)@) + charss_view(
                src@.subrange(0, k as int),
            ));
        }
    }
    assert(charss_view(old(dst)@) + charss_view(src@.subrange(0, src@.len() as int))
        =~= charss_view(old(dst)@) + charss_view(src@));
}

/// One prefix combined with every item, in item order.
pub open spec fn row(p: Seq<char>, items: Seq<Seq<char>>) -> Seq<Seq<char>>
    decreases items.len(),
{
    if items.len() == 0 {
        Seq::empty()
    } else {
        row(p, items.drop_last()).push(p + items.last())
    }
}

/// The cartesian product of prefixes and items, prefix-major.
pub open spec fn cross(prefixes: Seq<Seq<char>>, items: Seq<Seq<char>>) -> Seq<Seq<char>>
    decreases prefixes.len(),
{
    if prefixes.len() == 0 {
        Seq::empty()
    } else {
        cross(prefixes.drop_last(), items) + row(prefixes.last(), items)
    }
}

/// Every partial string extended by one character.
pub open spec fn push_all(cur: Seq<Seq<char>>, c: char) -> Seq<Seq<char>> {
    cur.map_values(|s: Seq<char>| s.push(c))
}

/// The brace expander's state: the saved partial-string sets, and the
/// current set.
#[verifier::ext_equal]
pub ghost struct BraceSt {
    pub stack: Seq<Seq<Seq<char>>>,
    pub cur: Seq<Seq<char>>,
}

/// One step of brace expansion: `{` saves the current set and restarts
/// empty; `}` combines the innermost comma items with the saved prefixes
/// as a cartesian product; any other character extends every partial
/// string.
pub open spec fn brace_step(st: BraceSt, c: char) -> BraceSt {
    if c == '{' {
        BraceSt { stack: st.stack.push(st.cur), cur: seq![Seq::<char>::empty()] }
    } else if c == '}' {
        let items = comma_items_all(st.cur);
        let prefixes = if st.stack.len() > 0 {
            st.stack.last()
        } else {
            seq![Seq::<char>::empty()]
        };
        let stack2 = if st.stack.len() > 0 {
            st.stack.drop_last()
        } else {
            st.stack
        };
        BraceSt { stack: stack2, cur: cross(prefixes, items) }
    } else {
        BraceSt { stack: st.stack, cur: push_all(st.cur, c) }
    }
}

pub open spec fn brace_init() -> BraceSt {
    BraceSt { stack: Seq::empty(), cur: seq![Seq::<char>::empty()] }
}

pub open spec fn brace_run(s: Seq<char>) -> BraceSt
    decreases s.len(),
{
    if s.len() == 0 {
        brace_init()
    } else {
        brace_step(brace_run(s.drop_last()), s.last())
    }
}

/// The brace expansion of `s`: the current set when the input ends;
/// unmatched braces are tolerated.
pub open spec fn expand_braces_spec(s: Seq<char>) -> Seq<Seq<char>> {
    brace_run(s).cur
}

/// The views of a stack of partial-string sets.
pub open spec fn stacks_view(s: Seq<Vec<Vec<char>>>) -> Seq<Seq<Seq<char>>> {
    Seq::new(s.len(), |i: int| charss_view(s[i]@))
}

/// Expands `{a,b}` alternatives into the cartesian product of the
/// surrounding text with each item, preserving left-to-right order.
pub fn expand_braces(input: &str) -> (r: Vec<String>)
    ensures
        r.deep_view() == expand_braces_spec(input@),
{
    let cs = str_to_chars(input);
    let mut stack: Vec<Vec<Vec<char>>> = Vec::new();
    let mut cur: Vec<Vec<char>> = Vec::new();
    cur.push(Vec::new());
    assert(charss_view(cur@) =~= seq![Seq::<char>::empty()]);
    assert(stacks_view(stack@) =~= Seq::<Seq<Seq<char>>>::empty());
    assert(input@.subrange(0, 0) =~= Seq::<char>::empty());
    let mut i: usize = 0;
    while i < cs.len()
        invariant
            i <= cs@.len(),
            cs@ == input@,
            brace_run(input@.subrange(0, i as int)) == (BraceSt {
                stack: stacks_view(stack@),
                cur: charss_view(cur@),
            }),
        decreases cs@.len() - i,
    {
        let ghost pre = input@.subrange(0, i as int);
        let ghost st_pre = brace_run(pre);
        let c = cs[i];
        if c == '{' {
            stack.push(cur);
            cur = Vec::new();
            cur.push(Vec::new());
            proof {
                assert(stacks_view(stack@) =~= st_pre.stack.push(st_pre.cur));
                assert(charss_view(cur@) =~= seq![Seq::<char>::empty()]);
            }
        } else if c == '}' {
            let mut items: Vec<Vec<char>> = Vec::new();
            let mut j: usize = 0;
            assert(charss_view(cur@).subrange(0, 0) =~= Seq::<Seq<char>>::empty());
            assert(charss_view(items@) =~= comma_items_all(charss_view(cur@).subrange(0, 0)));
            while j < cur.len()
                invariant
                    j <= cur@.len(),
                    charss_view(cur@) == st_pre.cur,
                    charss_view(items@) == comma_items_all(
                        charss_view(cur@).subrange(0, j as int),
                    ),
                decreases cur@.len() - j,
            {
                let its = split_commas(&cur[j]);
                append_charss(&mut items, &its);
                j = j + 1;
                proof {
                    let sub = charss_view(cur@).subrange(0, j as int);
                    assert(sub.drop_last() =~= charss_view(cur@).subrange(0, j - 1));
                    assert(sub.last() == charss_view(cur@)[j - 1]);
                }
            }
            assert(charss_view(cur@).subrange(0, cur@.len() as int) =~= charss_view(cur@));
            let ghost items_v = comma_items_all(st_pre.cur);
            assert(charss_view(items@) == items_v);
            let prefixes: Vec<Vec<char>> = match stack.pop() {
                Some(p) => p,
                None => {
                    let mut p: Vec<Vec<char>> = Vec::new();
                    p.push(Vec::new());
                    assert(charss_view(p@) =~= seq![Seq::<char>::empty()]);
                    p
                },
            };
            let ghost prefixes_v = charss_view(prefixes@);
            proof {
                if st_pre.stack.len() > 0 {
                    assert(prefixes_v == st_pre.stack.last());
                    assert(stacks_view(stack@) =~= st_pre.stack.drop_last());
                } else {
                    assert(prefixes_v =~= seq![Seq::<char>::empty()]);
                    assert(stacks_view(stack@) =~= st_pre.stack);
                }
            }
            let mut next: Vec<Vec<char>> = Vec::new();
            let mut pi: usize = 0;
            assert(prefixes_v.subrange(0, 0) =~= Seq::<Seq<char>>::empty());
            assert(charss_view(next@) =~= cross(prefixes_v.subrange(0, 0), items_v));
            while pi < prefixes.len()
                invariant
                    pi <= prefixes@.len(),
                    charss_view(prefixes@) == prefixes_v,
                    charss_view(items@) == items_v,
                    charss_view(next@) == cross(prefixes_v.subrange(0, pi as int), items_v),
                decreases prefixes@.len() - pi,
            {
                let ghost next_pre = charss_view(next@);
                let mut ii: usize = 0;
                assert(items_v.subrange(0, 0) =~= Seq::<Seq<char>>::empty());
                assert(charss_view(next@) =~= next_pre + row(
                    prefixes_v[pi as int],
                    items_v.subrange(0, 0),
                ));
                while ii < items.len()
                    invariant
                        ii <= items@.len(),
                        pi < prefixes@.len(),
                        charss_view(prefixes@) == prefixes_v,
                        charss_view(items@) == items_v,
                        charss_view(next@) == next_pre + row(
                            prefixes_v[pi as int],
                            items_v.subrange(0, ii as int),
                        ),
                    decreases items@.len() - ii,
                {
                    let ghost npre = next@;
                    next.push(crate::chars::concat_chars(&prefixes[pi], &items[ii]));
                    ii = ii + 1;
                    proof {
                        crate::chars::lemma_charss_view_push(npre, next@.last());
                        let sub = items_v.subrange(0, ii as int);
                        assert(sub.drop_last() =~= items_v.subrange(0, ii - 1));
                        assert(sub.last() == items_v[ii - 1]);
                        assert(charss_view(next@) =~= next_pre + row(
                            prefixes_v[pi as int],
                            sub,
                        ));
                    }
                }
                pi = pi + 1;
                proof {
                    assert(items_v.subrange(0, items@.len() as int) =~= items_v);
                    let subp = prefixes_v.subrange(0, pi as int);
                    assert(subp.drop_last() =~= prefixes_v.subrange(0, pi - 1));
                    assert(subp.last() == prefixes_v[pi - 1]);
                }
            }
            assert(prefixes_v.subrange(0, prefixes@.len() as int) =~= prefixes_v);
            cur = next;
        } else {
            let mut next: Vec<Vec<char>> = Vec::new();
            let mut j: usize = 0;
            while j < cur.len()
                invariant
                    j <= cur@.len(),
                    charss_view(cur@) == st_pre.cur,
                    charss_view(next@) == push_all(charss_view(cur@).subrange(0, j as int), c),
                decreases cur@.len() - j,
            {
                let ghost npre = next@;
                let mut t = subvec(&cur[j], 0, cur[j].len());
                t.push(c);
                assert(t@ =~= cur@[j as int]@.push(c));
                next.push(t);
                j = j + 1;
                proof {
                    crate::chars::lemma_charss_view_push(npre, next@.last());
                    assert(charss_view(next@) =~= push_all(
                        charss_view(cur@).subrange(0, j as int),
                        c,
                    ));
                }
            }
            assert(charss_view(cur@).subrange(0, cur@.len() as int) =~= charss_view(cur@));
            assert(charss_view(next@) =~= push_all(charss_view(cur@), c));
            cur = next;
        }
        i = i + 1;
        proof {
            let curseq = input@.subrange(0, i as int);
            assert(curseq.drop_last() =~= pre);
            assert(curseq.last() == c);
            assert(brace_run(curseq) =~= (BraceSt {
                stack: stacks_view(stack@),
                cur: charss_view(cur@),
            }));
        }
    }
    assert(input@.subrange(0, input@.len() as int) =~= input@);
    strings_of(cur)
}

/// What of a submitted line is executed: surrounding whitespace removed,
/// then everything from the first `#` on dropped, then trimmed again.
pub open spec fn strip_comment_spec(line: Seq<char>) -> Seq<char> {
    let t = trim_spec(line);
    let before = match crate::chars::split_once_at(t, '#') {
        Some(p) => p.0,
        None => t,
    };
    trim_spec(before)
}

/// Removes a trailing `#` comment and surrounding whitespace from a
/// submitted line.
pub fn strip_comment(line: &str) -> (r: String)
    ensures
        r@ == strip_comment_spec(line@),
{
    let cs = str_to_chars(line);
    let t = trim_chars(&cs);
    let before = match crate::chars::split_once_chars(&t, '#') {
        Some(p) => p.0,
        None => t,
    };
    chars_to_string(&trim_chars(&before))
}

/// Whether the character `c` occurs in `s`.
pub fn str_contains_char(s: &str, c: char) -> (r: bool)
    ensures
        r == s@.contains(c),
{
    let cs = str_to_chars(s);
    crate::chars::chars_contain(&cs, c)
}

/// The names that start with the prefix, in their original order.
pub open spec fn prefix_filter(names: Seq<Seq<char>>, prefix: Seq<char>) -> Seq<Seq<char>>
    decreases names.len(),
{
    if names.len() == 0 {
        Seq::empty()
    } else if prefix.is_prefix_of(names.last()) {
        prefix_filter(names.drop_last(), prefix).push(names.last())
    } else {
        prefix_filter(names.drop_last(), prefix)
    }
}

/// Keeps the executable names that start with the prefix. The caller
/// supplies the entry names of the directories on the search path, in
/// path order.
pub fn complete_command(prefix: &str, names: &Vec<String>) -> (r: Vec<String>)
    ensures
        r.deep_view() == prefix_filter(names.deep_view(), prefix@),
{
    let pc = str_to_chars(prefix);
    let mut r: Vec<String> = Vec::new();
    let mut i: usize = 0;
    while i < names.len()
        invariant
            i <= names@.len(),
            pc@ == prefix@,
            r.deep_view() == prefix_filter(names.deep_view().subrange(0, i as int), prefix@),
        decreases names@.len() - i,
    {
        let ghost pre = names.deep_view().subrange(0, i as int);
        let nc = str_to_chars(names[i].as_str());
        if chars_prefix(&nc, &pc) {
            r.push(names[i].clone());
            assert(r.deep_view() =~= prefix_filter(pre, prefix@).push(names.deep_view()[i as int]));
        }
        i = i + 1;
        proof {
            let cur = names.deep_view().subrange(0, i as int);
            assert(cur.drop_last() =~= pre);
            assert(cur.last() == names.deep_view()[i - 1]);
        }
    }
    assert(names.deep_view().subrange(0, names@.len() as int) =~= names.deep_view());
    r
}

/// A completion candidate: the parent joined with the entry name, with a
/// trailing slash for directories.
pub open spec fn path_candidate(parent: Seq<char>, name: Seq<char>, is_dir: bool) -> Seq<char> {
    let base = parent + seq!['/'] + name;
    if is_dir {
        base.push('/')
    } else {
        base
    }
}

/// The completion candidates among the entries whose names start with the
/// stem, in their original order.
pub open spec fn path_matches(
    stem: Seq<char>,
    parent: Seq<char>,
    entries: Seq<(Seq<char>, bool)>,
) -> Seq<Seq<char>>
    decreases entries.len(),
{
    if entries.len() == 0 {
        Seq::empty()
    } else {
        let r = path_matches(stem, parent, entries.drop_last());
        if stem.is_prefix_of(entries.last().0) {
            r.push(path_candidate(parent, entries.last().0, entries.last().1))
        } else {
            r
        }
    }
}

/// Builds the path-completion candidates from the entries of the parent
/// directory, each given as its name and whether it is a directory.
pub fn complete_path(stem: &str, parent: &str, entries: &Vec<(String, bool)>) -> (r: Vec<String>)
    ensures
        r.deep_view() == path_matches(stem@, parent@, entries.deep_view()),
{
    let sc = str_to_chars(stem);
    let mut r: Vec<String> = Vec::new();
    let mut i: usize = 0;
    while i < entries.len()
        invariant
            i <= entries@.len(),
            sc@ == stem@,
            r.deep_view() == path_matches(
                stem@,
                parent@,
                entries.deep_view().subrange(0, i as int),
            ),
        decreases entries@.len() - i,
    {
        let ghost pre = entries.deep_view().subrange(0, i as int);
        let nc = str_to_chars(entries[i].0.as_str());
        if chars_prefix(&nc, &sc) {
            let mut cand = parent.to_owned();
            push_char(&mut cand, '/');
            cand.append(entries[i].0.as_str());
            if entries[i].1 {
                push_char(&mut cand, '/');
            }
            assert(cand@ =~= path_candidate(
                parent@,
                entries.deep_view()[i as int].0,
                entries.deep_view()[i as int].1,
            ));
            r.push(cand);
            assert(r.deep_view() =~= path_matches(stem@, parent@, pre).push(
                path_candidate(
                    parent@,
                    entries.deep_view()[i as int].0,
                    entries.deep_view()[i as int].1,
                ),
            ));
        }
        i = i + 1;
        proof {
            let cur = entries.deep_view().subrange(0, i as int);
            assert(cur.drop_last() =~= pre);
            assert(cur.last() == entries.deep_view()[i - 1]);
        }
    }
    assert(entries.deep_view().subrange(0, entries@.len() as int) =~= entries.deep_view());
    r
}

/// Rewrites every occurrence of the home directory in a candidate path to
/// `~`.
pub fn rewrite_home(p: &str, home: &str) -> (r: String)
    requires
        home@.len() > 0,
    ensures
        r@ == crate::chars::replace_all(p@, home@, seq!['~']),
{
    let pc = str_to_chars(p);
    let hc = str_to_chars(home);
    let mut tilde: Vec<char> = Vec::new();
    tilde.push('~');
    assert(tilde@ =~= seq!['~']);
    let rc = crate::chars::replace_chars(&pc, &hc, &tilde);
    chars_to_string(&rc)
}

} // verus!




