//! Execution planning: the error type shared by the builtins, the
//! sequencing decision for `;`, `&&` and `&`, and the per-segment command
//! plan that the process runner carries out.

use vstd::prelude::*;

use crate::chars::{append_strings, join_strings, join_with, split_ws, str_to_chars};
use crate::commands::{
    expand_braces, expand_braces_spec, expand_tilde, expand_vars, expand_vars_spec,
    expand_wildcard, home_or_dot, parse_input, parse_pipeline, parse_redirects, pipeline_spec,
    redir_ok, redir_run, tilde_spec, tokenize, wc_filter, CommandSeparator, ParsedCommand,
    RedirectV,
};

verus! {

/// The kinds of error the shell reports.
#[derive(Debug, PartialEq, Eq, Structural, Clone, Copy)]
pub enum ShellErrorKind {
    NotFound,
    InvalidInput,
    Other,
}

/// An error: a kind plus a message for the user.
#[derive(Debug)]
pub struct ShellError {
    pub kind: ShellErrorKind,
    pub message: String,
}

/// What the orchestrator does with one segment.
#[derive(Debug, PartialEq, Eq, Structural, Clone, Copy)]
pub enum SegmentDecision {
    RunForeground,
    RunBackground,
    Skip,
}

/// The sequencing rule: a segment after a failed `&&` is skipped; a
/// segment whose own separator is `&` runs in the background; anything
/// else runs in the foreground.
pub open spec fn plan_segment_spec(
    prev: CommandSeparator,
    prev_success: bool,
    cur: CommandSeparator,
) -> SegmentDecision {
    if prev == CommandSeparator::AndAnd && !prev_success {
        SegmentDecision::Skip
    } else if cur == CommandSeparator::Background {
        SegmentDecision::RunBackground
    } else {
        SegmentDecision::RunForeground
    }
}

/// Decides how to run a segment from the previous segment's separator and
/// outcome and the segment's own separator.
pub fn plan_segment(
    prev: &CommandSeparator,
    prev_success: bool,
    cur: &CommandSeparator,
) -> (r: SegmentDecision)
    ensures
        r == plan_segment_spec(*prev, prev_success, *cur),
{
    if *prev == CommandSeparator::AndAnd && !prev_success {
        SegmentDecision::Skip
    } else if *cur == CommandSeparator::Background {
        SegmentDecision::RunBackground
    } else {
        SegmentDecision::RunForeground
    }
}

/// A failed segment followed by `&&` short-circuits: whatever the next
/// segment's own separator is, it is skipped, never run.
pub proof fn lemma_andand_short_circuit(cur: CommandSeparator)
    ensures
        plan_segment_spec(CommandSeparator::AndAnd, false, cur) == SegmentDecision::Skip,
{
}

/// The brace expansions of every token, concatenated in token order.
pub open spec fn braces_all(ts: Seq<Seq<char>>) -> Seq<Seq<char>>
    decreases ts.len(),
{
    if ts.len() == 0 {
        Seq::empty()
    } else {
        braces_all(ts.drop_last()) + expand_braces_spec(ts.last())
    }
}

/// A token holding `*` is replaced by its matches among the working
/// directory's entries — possibly none; any other token stands alone.
pub open spec fn wild_of(p: Seq<char>, entries: Seq<Seq<char>>) -> Seq<Seq<char>> {
    if p.contains('*') {
        wc_filter(entries, p)
    } else {
        seq![p]
    }
}

/// Wildcard expansion applied to every token, in order.
pub open spec fn wild_all(ps: Seq<Seq<char>>, entries: Seq<Seq<char>>) -> Seq<Seq<char>>
    decreases ps.len(),
{
    if ps.len() == 0 {
        Seq::empty()
    } else {
        wild_all(ps.drop_last(), entries) + wild_of(ps.last(), entries)
    }
}

/// The whole expansion pipeline: variables, then a leading tilde, then
/// tokenization, then braces, then wildcards.
pub open spec fn expanded_of(
    s: Seq<char>,
    env: Seq<(Seq<char>, Seq<char>)>,
    home: Seq<char>,
    entries: Seq<Seq<char>>,
) -> Seq<Seq<char>> {
    wild_all(braces_all(tokenize(tilde_spec(expand_vars_spec(s, env), home))), entries)
}

/// The mathematical value of a [`CommandPlan`].
pub ghost enum PlanV {
    Empty,
    Pipeline(Seq<Seq<Seq<char>>>),
    Redirect(Seq<Seq<char>>, Seq<RedirectV>),
    Exec(Seq<Seq<char>>),
    Invalid(ShellErrorKind, Seq<char>),
}

/// What a segment asks the process runner to do: nothing, a pipeline, a
/// command with redirects, a plain command line to dispatch, or an error
/// to report because the segment is malformed.
#[derive(Debug)]
pub enum CommandPlan {
    Empty,
    Pipeline(Vec<Vec<String>>),
    Redirect(ParsedCommand),
    Exec(Vec<String>),
    Invalid(ShellError),
}

impl DeepView for CommandPlan {
    type V = PlanV;

    open spec fn deep_view(&self) -> PlanV {
        match self {
            CommandPlan::Empty => PlanV::Empty,
            CommandPlan::Pipeline(p) => PlanV::Pipeline(p.deep_view()),
            CommandPlan::Redirect(pc) => PlanV::Redirect(
                pc.cmd.deep_view(),
                pc.redirects.deep_view(),
            ),
            CommandPlan::Exec(v) => PlanV::Exec(v.deep_view()),
            CommandPlan::Invalid(e) => PlanV::Invalid(e.kind, e.message@),
        }
    }
}

/// The plan for one segment: after full expansion, a token `|` makes it a
/// pipeline; malformed redirect syntax aborts the segment with an error
/// before anything runs; extracted redirects make it a redirected
/// command; no tokens make it empty; otherwise the tokens run as a
/// command line.
pub open spec fn plan_spec(
    s: Seq<char>,
    env: Seq<(Seq<char>, Seq<char>)>,
    home: Seq<char>,
    entries: Seq<Seq<char>>,
) -> PlanV {
    let ex = expanded_of(s, env, home, entries);
    let joined = join_with(ex, seq![' ']);
    if ex.contains(seq!['|']) {
        PlanV::Pipeline(pipeline_spec(joined))
    } else if !redir_ok(split_ws(joined)) {
        PlanV::Invalid(ShellErrorKind::InvalidInput, "Invalid redirect syntax"@)
    } else {
        let rr = redir_run(split_ws(joined));
        if rr.1.len() > 0 {
            PlanV::Redirect(rr.0, rr.1)
        } else if ex.len() == 0 {
            PlanV::Empty
        } else {
            PlanV::Exec(ex)
        }
    }
}

/// Expands one segment and decides how it runs. The caller supplies the
/// environment, the home directory and the working directory's entry
/// names, and carries the plan out.
pub fn plan_command(
    cmd_str: &str,
    vars: &Vec<(String, String)>,
    home: &Option<String>,
    cwd_entries: &Vec<String>,
) -> (r: CommandPlan)
    ensures
        r.deep_view() == plan_spec(
            cmd_str@,
            vars.deep_view(),
            home_or_dot(home.deep_view()),
            cwd_entries.deep_view(),
        ),
{
    let ghost env = vars.deep_view();
    let ghost homev = home_or_dot(home.deep_view());
    let ghost entries = cwd_entries.deep_view();
    let step1 = expand_vars(cmd_str, vars);
    let step2 = expand_tilde(step1.as_str(), home);
    let toks = parse_input(step2.as_str());
    let ghost toksv = tokenize(tilde_spec(expand_vars_spec(cmd_str@, env), homev));
    assert(toks.deep_view() == toksv);

    let mut braced: Vec<String> = Vec::new();
    let mut i: usize = 0;
    assert(braced.deep_view() =~= braces_all(toksv.subrange(0, 0)));
    while i < toks.len()
        invariant
            i <= toks@.len(),
            toks.deep_view() == toksv,
            braced.deep_view() == braces_all(toksv.subrange(0, i as int)),
        decreases toks@.len() - i,
    {
        let ghost pre = toksv.subrange(0, i as int);
        let ex = expand_braces(toks[i].as_str());
        append_strings(&mut braced, ex);
        i = i + 1;
        proof {
            let cur = toksv.subrange(0, i as int);
            assert(cur.drop_last() =~= pre);
            assert(cur.last() == toksv[i - 1]);
        }
    }
    assert(toksv.subrange(0, toksv.len() as int) =~= toksv);
    let ghost bracedv = braces_all(toksv);
    assert(braced.deep_view() == bracedv);

    let mut expanded: Vec<String> = Vec::new();
    let mut j: usize = 0;
    assert(expanded.deep_view() =~= wild_all(bracedv.subrange(0, 0), entries));
    while j < braced.len()
        invariant
            j <= braced@.len(),
            braced.deep_view() == bracedv,
            entries == cwd_entries.deep_view(),
            expanded.deep_view() == wild_all(bracedv.subrange(0, j as int), entries),
        decreases braced@.len() - j,
    {
        let ghost pre = bracedv.subrange(0, j as int);
        let ghost exp_pre = expanded.deep_view();
        if crate::commands::str_contains_char(braced[j].as_str(), '*') {
            let ms = expand_wildcard(braced[j].as_str(), cwd_entries);
            append_strings(&mut expanded, ms);
        } else {
            expanded.push(braced[j].clone());
            proof {
                assert(expanded.deep_view().len() == exp_pre.len() + 1);
                assert(expanded.deep_view() =~= exp_pre + seq![bracedv[j as int]]);
            }
        }
        j = j + 1;
        proof {
            let cur = bracedv.subrange(0, j as int);
            assert(cur.drop_last() =~= pre);
            assert(cur.last() == bracedv[j - 1]);
        }
    }
    assert(bracedv.subrange(0, bracedv.len() as int) =~= bracedv);
    let ghost exv = wild_all(bracedv, entries);
    assert(expanded.deep_view() == exv);
    assert(exv == expanded_of(cmd_str@, env, homev, entries));

    let mut has_pipe: bool = false;
    let mut k: usize = 0;
    while k < expanded.len()
        invariant
            k <= expanded@.len(),
            expanded.deep_view() == exv,
            !has_pipe ==> forall|m: int| 0 <= m < k ==> exv[m] != seq!['|'],
            has_pipe ==> exv.contains(seq!['|']),
        decreases expanded@.len() - k,
    {
        let tc = str_to_chars(expanded[k].as_str());
        if tc.len() == 1 && tc[0] == '|' {
            assert(exv[k as int] =~= seq!['|']);
            has_pipe = true;
        } else {
            proof {
                if tc@.len() == 1 {
                    assert(exv[k as int] != seq!['|']);
                } else {
                    assert(exv[k as int].len() != 1);
                    assert(exv[k as int] != seq!['|']);
                }
            }
        }
        k = k + 1;
    }
    proof {
        if !has_pipe && exv.contains(seq!['|']) {
            let w = choose|w: int| 0 <= w < exv.len() && exv[w] == seq!['|'];
            assert(false);
        }
    }

    let joined = join_strings(&expanded, " ");
    proof {
        reveal_strlit(" ");
        assert(" "@ =~= seq![' ']);
    }
    if has_pipe {
        return CommandPlan::Pipeline(parse_pipeline(joined.as_str()));
    }
    let parsed = match parse_redirects(joined.as_str()) {
        Ok(pc) => pc,
        Err(e) => {
            return CommandPlan::Invalid(e);
        },
    };
    if parsed.redirects.len() > 0 {
        return CommandPlan::Redirect(parsed);
    }
    if expanded.len() == 0 {
        return CommandPlan::Empty;
    }
    CommandPlan::Exec(expanded)
}

} // verus!
