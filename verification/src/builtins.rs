//! The builtins and the glue around them: the alias table, alias
//! expansion, builtin dispatch, the `export` and `cd` decisions, and the
//! redirect/pipe symbol handlers.

use vstd::prelude::*;

use crate::chars::{
    chars_eq, chars_to_string, join_chars_from, join_strings, join_with, lookup_pair,
    lookup_pairs, push_char, split_once_at, split_once_chars, split_ws, split_ws_chars,
    str_eq, str_to_chars, trim_char, trim_char_spec,
};
use crate::commands::{parse_pipeline, parse_redirects, pipeline_spec, redir_run, ParsedCommand};
use crate::shell::{ShellError, ShellErrorKind};

verus! {

/// The alias table: name/value pairs in definition order, first match
/// wins on lookup.
pub struct AliasTable {
    pub entries: Vec<(String, String)>,
}

impl AliasTable {
    /// An empty table.
    pub fn new() -> (r: AliasTable)
        ensures
            r.entries.deep_view() == Seq::<(Seq<char>, Seq<char>)>::empty(),
    {
        let r = AliasTable { entries: Vec::new() };
        assert(r.entries.deep_view() =~= Seq::<(Seq<char>, Seq<char>)>::empty());
        r
    }
}

/// Updating an alias: the first pair with the name gets the new value;
/// without one the pair is appended.
pub open spec fn set_alias_spec(
    es: Seq<(Seq<char>, Seq<char>)>,
    name: Seq<char>,
    cmd: Seq<char>,
) -> Seq<(Seq<char>, Seq<char>)>
    decreases es.len(),
{
    if es.len() == 0 {
        seq![(name, cmd)]
    } else if es[0].0 == name {
        seq![(es[0].0, cmd)] + es.drop_first()
    } else {
        seq![es[0]] + set_alias_spec(es.drop_first(), name, cmd)
    }
}

/// Adds or updates an alias.
pub fn set_alias(table: &mut AliasTable, name: &str, cmd: &str)
    ensures
        final(table).entries.deep_view() == set_alias_spec(
            old(table).entries.deep_view(),
            name@,
            cmd@,
        ),
{
    let ghost es = table.entries.deep_view();
    let nc = str_to_chars(name);
    let mut out: Vec<(String, String)> = Vec::new();
    let mut i: usize = 0;
    let mut done: bool = false;
    assert(es.subrange(0, es.len() as int) =~= es);
    assert(out.deep_view() =~= Seq::<(Seq<char>, Seq<char>)>::empty());
    while i < table.entries.len()
        invariant
            i <= table.entries@.len(),
            es == table.entries.deep_view(),
            es.len() == table.entries@.len(),
            nc@ == name@,
            done ==> set_alias_spec(es, name@, cmd@) == out.deep_view() + es.subrange(
                i as int,
                es.len() as int,
            ),
            !done ==> set_alias_spec(es, name@, cmd@) == out.deep_view() + set_alias_spec(
                es.subrange(i as int, es.len() as int),
                name@,
                cmd@,
            ),
        decreases table.entries@.len() - i,
    {
        let ghost rem = es.subrange(i as int, es.len() as int);
        let ghost out_pre = out.deep_view();
        proof {
            assert(rem[0] == es[i as int]);
            assert(rem.drop_first() =~= es.subrange(i + 1, es.len() as int));
        }
        let kc = str_to_chars(table.entries[i].0.as_str());
        if !done && chars_eq(&kc, &nc) {
            out.push((table.entries[i].0.clone(), cmd.to_owned()));
            done = true;
            proof {
                assert(out.deep_view().len() == out_pre.len() + 1);
                assert(out.deep_view() =~= out_pre.push((es[i as int].0, cmd@)));
                assert(out.deep_view() + es.subrange(i + 1, es.len() as int) =~= out_pre + (
                seq![(rem[0].0, cmd@)] + rem.drop_first()));
            }
        } else {
            out.push((table.entries[i].0.clone(), table.entries[i].1.clone()));
            proof {
                assert(out.deep_view().len() == out_pre.len() + 1);
                assert(out.deep_view() =~= out_pre.push(es[i as int]));
                if done {
                    assert(out.deep_view() + es.subrange(i + 1, es.len() as int) =~= out_pre
                        + es.subrange(i as int, es.len() as int));
                } else {
                    assert(rem[0].0 != name@);
                    assert(out.deep_view() + set_alias_spec(
                        es.subrange(i + 1, es.len() as int),
                        name@,
                        cmd@,
                    ) =~= out_pre + (seq![rem[0]] + set_alias_spec(rem.drop_first(), name@, cmd@)));
                }
            }
        }
        i = i + 1;
    }
    if !done {
        let ghost out_pre = out.deep_view();
        out.push((name.to_owned(), cmd.to_owned()));
        proof {
            assert(es.subrange(es.len() as int, es.len() as int) =~= Seq::<(Seq<char>, Seq<
                char,
            >)>::empty());
            assert(out.deep_view().len() == out_pre.len() + 1);
            assert(out.deep_view() =~= out_pre.push((name@, cmd@)));
            assert(out_pre + seq![(name@, cmd@)] =~= out_pre.push((name@, cmd@)));
        }
    } else {
        proof {
            assert(es.subrange(es.len() as int, es.len() as int) =~= Seq::<(Seq<char>, Seq<
                char,
            >)>::empty());
            assert(out.deep_view() + Seq::<(Seq<char>, Seq<char>)>::empty() =~= out.deep_view());
        }
    }
    table.entries = out;
}

/// Returns the alias value if the name is defined.
pub fn lookup_alias(table: &AliasTable, name: &str) -> (r: Option<String>)
    ensures
        r.deep_view() == lookup_pairs(table.entries.deep_view(), name@),
{
    let nc = str_to_chars(name);
    lookup_pair(&table.entries, &nc)
}

/// What follows the alias value: a space and the remaining words, or
/// nothing when the line was a single word.
pub open spec fn rest_spec(parts: Seq<Seq<char>>) -> Seq<char> {
    if parts.len() > 1 {
        seq![' '] + join_with(parts.drop_first(), seq![' '])
    } else {
        Seq::<char>::empty()
    }
}

/// Alias expansion: when the first word of the line is a defined alias,
/// its value replaces that word, once; otherwise the line is unchanged.
pub open spec fn expand_aliases_spec(
    s: Seq<char>,
    table: Seq<(Seq<char>, Seq<char>)>,
) -> Seq<char> {
    let parts = split_ws(s);
    if parts.len() == 0 {
        s
    } else {
        match lookup_pairs(table, parts[0]) {
            Some(v) => v + rest_spec(parts),
            None => s,
        }
    }
}

/// Replaces an aliased first word by the alias value, exactly once.
pub fn expand_aliases(input: &str, table: &AliasTable) -> (r: String)
    ensures
        r@ == expand_aliases_spec(input@, table.entries.deep_view()),
{
    let cs = str_to_chars(input);
    let parts = split_ws_chars(&cs);
    if parts.len() == 0 {
        return input.to_owned();
    }
    match lookup_pair(&table.entries, &parts[0]) {
        Some(v) => {
            let mut r = v;
            if parts.len() > 1 {
                push_char(&mut r, ' ');
                let rest = join_chars_from(&parts, 1, ' ');
                r.append(chars_to_string(&rest).as_str());
                proof {
                    assert(crate::chars::charss_view(parts@).subrange(
                        1,
                        parts@.len() as int,
                    ) =~= split_ws(input@).drop_first());
                    assert(r@ =~= expand_aliases_spec(input@, table.entries.deep_view()));
                }
            } else {
                assert(r@ + rest_spec(split_ws(input@)) =~= r@);
            }
            r
        },
        None => input.to_owned(),
    }
}

/// Alias expansion is applied exactly once per line: when the first word
/// is a defined alias, the result is the alias value followed by the rest
/// of the line, and nothing more is substituted — in particular the
/// result is not expanded again even when the value itself starts with a
/// defined alias name.
pub proof fn lemma_alias_applied_once(
    input: Seq<char>,
    table: Seq<(Seq<char>, Seq<char>)>,
    v: Seq<char>,
)
    requires
        split_ws(input).len() > 0,
        lookup_pairs(table, split_ws(input)[0]) == Some(v),
    ensures
        expand_aliases_spec(input, table) == v + rest_spec(split_ws(input)),
{
}

/// Where a segment's first token is dispatched.
#[derive(Debug, PartialEq, Eq, Structural, Clone, Copy)]
pub enum CommandKind {
    Cd,
    Alias,
    Export,
    Exit,
    Symbol,
    External,
}

/// The dispatch rule on a segment's first token.
pub open spec fn classify_spec(c: Seq<char>) -> CommandKind {
    if c == "cd"@ {
        CommandKind::Cd
    } else if c == "alias"@ {
        CommandKind::Alias
    } else if c == "export"@ {
        CommandKind::Export
    } else if c == "exit"@ {
        CommandKind::Exit
    } else if c == ">"@ || c == ">>"@ || c == "<"@ || c == "|"@ {
        CommandKind::Symbol
    } else {
        CommandKind::External
    }
}

/// Classifies a segment's first token as a builtin, a redirect or pipe
/// symbol, or an external command.
pub fn classify_command(cmd: &str) -> (r: CommandKind)
    ensures
        r == classify_spec(cmd@),
{
    if str_eq(cmd, "cd") {
        CommandKind::Cd
    } else if str_eq(cmd, "alias") {
        CommandKind::Alias
    } else if str_eq(cmd, "export") {
        CommandKind::Export
    } else if str_eq(cmd, "exit") {
        CommandKind::Exit
    } else if str_eq(cmd, ">") || str_eq(cmd, ">>") || str_eq(cmd, "<") || str_eq(cmd, "|") {
        CommandKind::Symbol
    } else {
        CommandKind::External
    }
}

/// The acknowledgment that `export VAR=value` prints, when the argument
/// has that shape.
pub open spec fn export_message(arg: Seq<char>) -> Option<Seq<char>> {
    match split_once_at(arg, '=') {
        Some(p) => Some("export "@ + p.0 + seq!['='] + p.1),
        None => None,
    }
}

/// Acknowledges `export VAR=value` without touching the environment;
/// anything else is invalid input.
pub fn handle_export(args: &Vec<String>) -> (r: Result<String, ShellError>)
    ensures
        match r {
            Ok(m) => args.deep_view().len() > 0 && export_message(args.deep_view()[0]) == Some(
                m@,
            ),
            Err(e) => (args.deep_view().len() == 0 || export_message(args.deep_view()[0]) is None)
                && e.kind == ShellErrorKind::InvalidInput && e.message@
                == "Usage: export VAR=value"@,
        },
{
    if args.len() > 0 {
        let ac = str_to_chars(args[0].as_str());
        match split_once_chars(&ac, '=') {
            Some(p) => {
                let mut m = String::from_str("export ");
                m.append(chars_to_string(&p.0).as_str());
                push_char(&mut m, '=');
                m.append(chars_to_string(&p.1).as_str());
                assert(m@ =~= "export "@ + p.0@ + seq!['='] + p.1@);
                return Ok(m);
            },
            None => {},
        }
    }
    Err(
        ShellError {
            kind: ShellErrorKind::InvalidInput,
            message: String::from_str("Usage: export VAR=value"),
        },
    )
}

/// Resolves the target of `cd`: `-` names the previous directory and
/// fails when none is recorded; anything else is tilde-expanded. Whether
/// the target exists is the caller's check.
pub fn cd_target(dir: &str, prev: &Option<String>, home: &Option<String>) -> (r: Result<
    String,
    ShellError,
>)
    ensures
        match r {
            Ok(t) => (dir@ == seq!['-'] && prev.deep_view() == Some(t@)) || (dir@ != seq!['-']
                && t@ == crate::commands::tilde_spec(
                dir@,
                crate::commands::home_or_dot(home.deep_view()),
            )),
            Err(e) => dir@ == seq!['-'] && prev.deep_view() is None && e.kind
                == ShellErrorKind::NotFound && e.message@ == "No previous directory"@,
        },
{
    let dc = str_to_chars(dir);
    if dc.len() == 1 && dc[0] == '-' {
        assert(dir@ =~= seq!['-']);
        match prev {
            Some(d) => Ok(d.clone()),
            None => Err(
                ShellError {
                    kind: ShellErrorKind::NotFound,
                    message: String::from_str("No previous directory"),
                },
            ),
        }
    } else {
        assert(dir@ != seq!['-']);
        Ok(crate::commands::expand_tilde(dir, home))
    }
}

/// What the `alias` builtin did with its arguments.
#[derive(Debug)]
pub enum AliasOutcome {
    /// No arguments: the table's entries rendered for printing.
    Listed(Vec<String>),
    /// A definition was added or updated.
    Defined,
    /// The arguments fit no form; print the usage line.
    Usage,
}

/// One line of the alias listing.
pub open spec fn alias_line(n: Seq<char>, v: Seq<char>) -> Seq<char> {
    "alias "@ + n + seq!['=', '"'] + v + seq!['"']
}

/// The definition in a single `name=value` argument: the name before the
/// first `=`, and the value with surrounding double quotes stripped.
pub open spec fn alias_def_of(arg: Seq<char>) -> Option<(Seq<char>, Seq<char>)> {
    match split_once_at(arg, '=') {
        Some(p) => Some((p.0, trim_char_spec(p.1, '"'))),
        None => None,
    }
}

/// The `alias` builtin: no arguments list the table, `name=value` or
/// `name value` define an alias, anything else is usage.
pub fn handle_alias_cmd(args: &Vec<String>, table: &mut AliasTable) -> (r: AliasOutcome)
    ensures
        match r {
            AliasOutcome::Listed(lines) => args.deep_view().len() == 0 && final(table).entries.deep_view() == old(table).entries.deep_view() && lines.deep_view().len()
                == old(table).entries.deep_view().len() && (forall|j: int|
                0 <= j < lines.deep_view().len() ==> lines.deep_view()[j] == alias_line(
                    old(table).entries.deep_view()[j].0,
                    old(table).entries.deep_view()[j].1,
                )),
            AliasOutcome::Defined => (args.deep_view().len() == 1 && (alias_def_of(
                args.deep_view()[0],
            ) matches Some(d) && final(table).entries.deep_view() == set_alias_spec(
                old(table).entries.deep_view(),
                d.0,
                d.1,
            ))) || (args.deep_view().len() == 2 && final(table).entries.deep_view()
                == set_alias_spec(
                old(table).entries.deep_view(),
                args.deep_view()[0],
                trim_char_spec(args.deep_view()[1], '"'),
            )),
            AliasOutcome::Usage => final(table).entries.deep_view() == old(table).entries.deep_view() && ((args.deep_view().len() == 1 && alias_def_of(
                args.deep_view()[0],
            ) is None) || args.deep_view().len() > 2),
        },
{
    let ghost es = table.entries.deep_view();
    if args.len() == 0 {
        let mut lines: Vec<String> = Vec::new();
        let mut i: usize = 0;
        while i < table.entries.len()
            invariant
                i <= table.entries@.len(),
                es == table.entries.deep_view(),
                lines.deep_view().len() == i,
                forall|j: int|
                    0 <= j < i ==> lines.deep_view()[j] == alias_line(es[j].0, es[j].1),
            decreases table.entries@.len() - i,
        {
            let ghost pre = lines.deep_view();
            let mut line = String::from_str("alias ");
            line.append(table.entries[i].0.as_str());
            push_char(&mut line, '=');
            push_char(&mut line, '"');
            line.append(table.entries[i].1.as_str());
            push_char(&mut line, '"');
            assert(line@ =~= alias_line(es[i as int].0, es[i as int].1));
            lines.push(line);
            i = i + 1;
            proof {
                assert(lines.deep_view().len() == pre.len() + 1);
                assert forall|j: int| 0 <= j < i implies lines.deep_view()[j] == alias_line(
                    es[j].0,
                    es[j].1,
                ) by {
                    if j < i - 1 {
                        assert(lines.deep_view()[j] == pre[j]);
                    } else {
                        assert(lines@[j]@ == alias_line(es[j].0, es[j].1));
                    }
                }
            }
        }
        AliasOutcome::Listed(lines)
    } else if args.len() == 1 {
        let ac = str_to_chars(args[0].as_str());
        match split_once_chars(&ac, '=') {
            Some(p) => {
                let vt = trim_char(&p.1, '"');
                let nm = chars_to_string(&p.0);
                let vs = chars_to_string(&vt);
                set_alias(table, nm.as_str(), vs.as_str());
                AliasOutcome::Defined
            },
            None => AliasOutcome::Usage,
        }
    } else if args.len() == 2 {
        let vc = str_to_chars(args[1].as_str());
        let vt = trim_char(&vc, '"');
        let vs = chars_to_string(&vt);
        set_alias(table, args[0].as_str(), vs.as_str());
        AliasOutcome::Defined
    } else {
        AliasOutcome::Usage
    }
}

/// The line handed to the redirect parser by the `>`/`>>`/`<` dispatch:
/// the symbol itself followed by the arguments.
pub open spec fn redirect_line(symbol: Seq<char>, args: Seq<Seq<char>>) -> Seq<char> {
    join_with(seq![symbol] + args, seq![' '])
}

/// Parses a segment that began with a redirect symbol; fails on malformed
/// redirect syntax or when no redirect can be extracted.
pub fn handle_redirect(symbol: &str, args: &Vec<String>) -> (r: Result<ParsedCommand, ShellError>)
    ensures
        match r {
            Ok(pc) => ({
                let toks = split_ws(redirect_line(symbol@, args.deep_view()));
                let rr = redir_run(toks);
                crate::commands::redir_ok(toks) && rr.1.len() > 0 && pc.cmd.deep_view() == rr.0
                    && pc.redirects.deep_view() == rr.1
            }),
            Err(e) => ({
                let toks = split_ws(redirect_line(symbol@, args.deep_view()));
                (!crate::commands::redir_ok(toks) || redir_run(toks).1.len() == 0) && e.kind
                    == ShellErrorKind::InvalidInput && e.message@ == "Invalid redirect syntax"@
            }),
        },
{
    let mut parts: Vec<String> = Vec::new();
    parts.push(symbol.to_owned());
    let mut i: usize = 0;
    while i < args.len()
        invariant
            i <= args@.len(),
            parts.deep_view().len() == i + 1,
            parts.deep_view()[0] == symbol@,
            forall|j: int| 1 <= j < i + 1 ==> parts.deep_view()[j] == args.deep_view()[j - 1],
        decreases args@.len() - i,
    {
        let ghost pre = parts.deep_view();
        parts.push(args[i].clone());
        i = i + 1;
        proof {
            assert(parts.deep_view().len() == pre.len() + 1);
            assert forall|j: int| 0 <= j < i + 1 implies parts.deep_view()[j] == (seq![symbol@]
                + args.deep_view().subrange(0, i as int))[j] by {
                if j < i {
                    assert(parts.deep_view()[j] == pre[j]);
                } else {
                    assert(parts@[j]@ == args.deep_view()[i - 1]);
                }
            }
        }
    }
    assert(parts.deep_view() =~= seq![symbol@] + args.deep_view());
    let joined = join_strings(&parts, " ");
    proof {
        reveal_strlit(" ");
        assert(" "@ =~= seq![' ']);
    }
    match parse_redirects(joined.as_str()) {
        Err(e) => Err(e),
        Ok(parsed) => {
            if parsed.redirects.len() == 0 {
                Err(
                    ShellError {
                        kind: ShellErrorKind::InvalidInput,
                        message: String::from_str("Invalid redirect syntax"),
                    },
                )
            } else {
                Ok(parsed)
            }
        },
    }
}

/// Splits a segment that began with `|` into its pipeline stages.
pub fn handle_pipeline(args: &Vec<String>) -> (r: Vec<Vec<String>>)
    ensures
        r.deep_view() == pipeline_spec(join_with(args.deep_view(), seq![' '])),
{
    let joined = join_strings(args, " ");
    proof {
        reveal_strlit(" ");
        assert(" "@ =~= seq![' ']);
    }
    parse_pipeline(joined.as_str())
}

/// The plan for a segment that began with a redirect or pipe symbol.
#[derive(Debug)]
pub enum SymbolPlan {
    Redirect(ParsedCommand),
    Pipeline(Vec<Vec<String>>),
}

/// Dispatches a leading `>`, `>>`, `<` or `|` to the redirect or pipeline
/// parser; any other symbol is unsupported.
pub fn handle_symbol(symbol: &str, args: &Vec<String>) -> (r: Result<SymbolPlan, ShellError>)
    ensures
        match r {
            Ok(SymbolPlan::Redirect(pc)) => (symbol@ == ">"@ || symbol@ == ">>"@ || symbol@
                == "<"@) && ({
                let toks = split_ws(redirect_line(symbol@, args.deep_view()));
                let rr = redir_run(toks);
                crate::commands::redir_ok(toks) && rr.1.len() > 0 && pc.cmd.deep_view() == rr.0
                    && pc.redirects.deep_view() == rr.1
            }),
            Ok(SymbolPlan::Pipeline(p)) => symbol@ == "|"@ && p.deep_view() == pipeline_spec(
                join_with(args.deep_view(), seq![' ']),
            ),
            Err(e) => e.kind == ShellErrorKind::InvalidInput && (((symbol@ == ">"@ || symbol@
                == ">>"@ || symbol@ == "<"@) && ({
                let toks = split_ws(redirect_line(symbol@, args.deep_view()));
                !crate::commands::redir_ok(toks) || redir_run(toks).1.len() == 0
            }) && e.message@ == "Invalid redirect syntax"@) || (symbol@ != ">"@ && symbol@
                != ">>"@ && symbol@ != "<"@ && symbol@ != "|"@ && e.message@
                == "Unsupported symbol: "@ + symbol@)),
        },
{
    if str_eq(symbol, ">") || str_eq(symbol, ">>") || str_eq(symbol, "<") {
        match handle_redirect(symbol, args) {
            Ok(pc) => Ok(SymbolPlan::Redirect(pc)),
            Err(e) => Err(e),
        }
    } else if str_eq(symbol, "|") {
        Ok(SymbolPlan::Pipeline(handle_pipeline(args)))
    } else {
        let mut m = String::from_str("Unsupported symbol: ");
        m.append(symbol);
        Err(ShellError { kind: ShellErrorKind::InvalidInput, message: m })
    }
}

} // verus!
