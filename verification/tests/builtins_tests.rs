use shesh::builtins::{
    cd_target, classify_command, expand_aliases, handle_alias_cmd, handle_export,
    handle_pipeline, handle_redirect, handle_symbol, lookup_alias, set_alias, AliasOutcome,
    AliasTable, CommandKind, SymbolPlan,
};
use shesh::commands::Redirect;
use shesh::shell::ShellErrorKind;

#[test]
fn set_and_lookup_alias() {
    let mut t = AliasTable::new();
    set_alias(&mut t, "g", "git status");
    assert_eq!(lookup_alias(&t, "g"), Some("git status".to_string()));
    assert_eq!(lookup_alias(&t, "h"), None);
}

#[test]
fn set_alias_updates_in_place() {
    let mut t = AliasTable::new();
    set_alias(&mut t, "a", "one");
    set_alias(&mut t, "b", "two");
    set_alias(&mut t, "a", "three");
    assert_eq!(t.entries.len(), 2);
    assert_eq!(t.entries[0], ("a".to_string(), "three".to_string()));
    assert_eq!(t.entries[1], ("b".to_string(), "two".to_string()));
}

#[test]
fn expand_aliases_replaces_first_word() {
    let mut t = AliasTable::new();
    set_alias(&mut t, "g", "git status");
    assert_eq!(expand_aliases("g -s", &t), "git status -s".to_string());
    assert_eq!(expand_aliases("ls -l", &t), "ls -l".to_string());
}

#[test]
fn alias_expansion_applied_exactly_once() {
    let mut t = AliasTable::new();
    set_alias(&mut t, "a", "b x");
    set_alias(&mut t, "b", "echo");
    // The replacement "b x" starts with the alias name "b", yet it is not
    // expanded a second time.
    assert_eq!(expand_aliases("a 1", &t), "b x 1".to_string());
}

#[test]
fn alias_cmd_defines_from_pair() {
    let mut t = AliasTable::new();
    let r = handle_alias_cmd(&vec!["g=\"git status\"".to_string()], &mut t);
    assert!(matches!(r, AliasOutcome::Defined));
    assert_eq!(lookup_alias(&t, "g"), Some("git status".to_string()));
}

#[test]
fn alias_cmd_defines_from_two_args() {
    let mut t = AliasTable::new();
    let r = handle_alias_cmd(&vec!["g".to_string(), "\"git\"".to_string()], &mut t);
    assert!(matches!(r, AliasOutcome::Defined));
    assert_eq!(lookup_alias(&t, "g"), Some("git".to_string()));
}

#[test]
fn alias_cmd_lists_entries() {
    let mut t = AliasTable::new();
    set_alias(&mut t, "g", "git");
    let r = handle_alias_cmd(&Vec::new(), &mut t);
    match r {
        AliasOutcome::Listed(lines) => {
            assert_eq!(lines, vec!["alias g=\"git\"".to_string()]);
        },
        _ => panic!("expected a listing"),
    }
}

#[test]
fn alias_cmd_usage_on_bad_args() {
    let mut t = AliasTable::new();
    let r = handle_alias_cmd(&vec!["noequals".to_string()], &mut t);
    assert!(matches!(r, AliasOutcome::Usage));
    let r2 = handle_alias_cmd(
        &vec!["a".to_string(), "b".to_string(), "c".to_string()],
        &mut t,
    );
    assert!(matches!(r2, AliasOutcome::Usage));
}

#[test]
fn export_acknowledges_assignment() {
    let r = handle_export(&vec!["PATH=/bin".to_string()]);
    assert_eq!(r.unwrap(), "export PATH=/bin".to_string());
}

#[test]
fn export_rejects_missing_assignment() {
    let e = handle_export(&vec!["PATH".to_string()]).unwrap_err();
    assert!(matches!(e.kind, ShellErrorKind::InvalidInput));
    assert_eq!(e.message, "Usage: export VAR=value".to_string());
    let e2 = handle_export(&Vec::new()).unwrap_err();
    assert!(matches!(e2.kind, ShellErrorKind::InvalidInput));
}

#[test]
fn cd_dash_uses_previous_directory() {
    let prev = Some("/tmp".to_string());
    assert_eq!(cd_target("-", &prev, &None).unwrap(), "/tmp".to_string());
}

#[test]
fn cd_dash_without_previous_fails() {
    let e = cd_target("-", &None, &None).unwrap_err();
    assert!(matches!(e.kind, ShellErrorKind::NotFound));
    assert_eq!(e.message, "No previous directory".to_string());
}

#[test]
fn cd_expands_tilde_target() {
    let home = Some("/home/u".to_string());
    assert_eq!(cd_target("~/x", &None, &home).unwrap(), "/home/u/x".to_string());
    assert_eq!(cd_target("/etc", &None, &home).unwrap(), "/etc".to_string());
}

#[test]
fn classify_first_tokens() {
    assert!(matches!(classify_command("cd"), CommandKind::Cd));
    assert!(matches!(classify_command("alias"), CommandKind::Alias));
    assert!(matches!(classify_command("export"), CommandKind::Export));
    assert!(matches!(classify_command("exit"), CommandKind::Exit));
    assert!(matches!(classify_command(">"), CommandKind::Symbol));
    assert!(matches!(classify_command(">>"), CommandKind::Symbol));
    assert!(matches!(classify_command("<"), CommandKind::Symbol));
    assert!(matches!(classify_command("|"), CommandKind::Symbol));
    assert!(matches!(classify_command("ls"), CommandKind::External));
}

#[test]
fn symbol_redirect_parses() {
    let args = vec!["out".to_string(), "echo".to_string(), "hi".to_string()];
    // The segment came in as "> out echo hi".
    match handle_symbol(">", &args).unwrap() {
        SymbolPlan::Redirect(pc) => {
            assert_eq!(pc.cmd, vec!["echo".to_string(), "hi".to_string()]);
            assert!(matches!(&pc.redirects[0], Redirect::Output(f) if f == "out"));
        },
        _ => panic!("expected a redirect plan"),
    }
}

#[test]
fn symbol_pipeline_parses() {
    let args = vec!["cat".to_string()];
    match handle_symbol("|", &args).unwrap() {
        SymbolPlan::Pipeline(stages) => {
            assert_eq!(stages, vec![vec!["cat".to_string()]]);
        },
        _ => panic!("expected a pipeline plan"),
    }
}

#[test]
fn symbol_unsupported_reports_symbol() {
    let e = handle_symbol("^", &Vec::new()).unwrap_err();
    assert!(matches!(e.kind, ShellErrorKind::InvalidInput));
    assert_eq!(e.message, "Unsupported symbol: ^".to_string());
}

#[test]
fn redirect_without_target_is_invalid() {
    let e = handle_redirect(">", &Vec::new()).unwrap_err();
    assert!(matches!(e.kind, ShellErrorKind::InvalidInput));
    assert_eq!(e.message, "Invalid redirect syntax".to_string());
}

#[test]
fn pipeline_handler_splits_stages() {
    let args = vec!["hi".to_string(), "|".to_string(), "cat".to_string()];
    // The segment came in as "| hi | cat".
    assert_eq!(
        handle_pipeline(&args),
        vec![vec!["hi".to_string()], vec!["cat".to_string()]]
    );
}
