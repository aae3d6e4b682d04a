use shesh::commands::{
    complete_command, complete_path, parse_pipeline, parse_redirects, rewrite_home,
    split_commands, CommandSeparator, Redirect,
};
use shesh::shell::{plan_command, CommandPlan};
use shesh::shell::ShellErrorKind;

#[test]
fn split_on_all_separators() {
    let r = split_commands("a; b && c & d");
    assert_eq!(r.len(), 4);
    assert_eq!(r[0].0, "a".to_string());
    assert!(matches!(r[0].1, CommandSeparator::SemiColon));
    assert_eq!(r[1].0, "b".to_string());
    assert!(matches!(r[1].1, CommandSeparator::AndAnd));
    assert_eq!(r[2].0, "c".to_string());
    assert!(matches!(r[2].1, CommandSeparator::Background));
    assert_eq!(r[3].0, "d".to_string());
    assert!(matches!(r[3].1, CommandSeparator::Nothing));
}

#[test]
fn split_keeps_quoted_separators() {
    let r = split_commands("echo 'a;b'; c");
    assert_eq!(r.len(), 2);
    assert_eq!(r[0].0, "echo 'a;b'".to_string());
    assert!(matches!(r[0].1, CommandSeparator::SemiColon));
    assert_eq!(r[1].0, "c".to_string());
}

#[test]
fn split_drops_empty_tail() {
    let r = split_commands("a;");
    assert_eq!(r.len(), 1);
    assert_eq!(r[0].0, "a".to_string());
}

#[test]
fn redirects_extracted_in_order() {
    let pc = parse_redirects("cat < in > out").unwrap();
    assert_eq!(pc.cmd, vec!["cat".to_string()]);
    assert_eq!(pc.redirects.len(), 2);
    assert!(matches!(&pc.redirects[0], Redirect::Input(f) if f == "in"));
    assert!(matches!(&pc.redirects[1], Redirect::Output(f) if f == "out"));
}

#[test]
fn redirect_append_recognised() {
    let pc = parse_redirects("echo hi >> log").unwrap();
    assert_eq!(pc.cmd, vec!["echo".to_string(), "hi".to_string()]);
    assert_eq!(pc.redirects.len(), 1);
    assert!(matches!(&pc.redirects[0], Redirect::Append(f) if f == "log"));
}

#[test]
fn later_output_redirect_listed_after_earlier() {
    // Both targets are kept in order; the later one wins when the files
    // are opened.
    let pc = parse_redirects("x > a > b").unwrap();
    assert_eq!(pc.cmd, vec!["x".to_string()]);
    assert!(matches!(&pc.redirects[0], Redirect::Output(f) if f == "a"));
    assert!(matches!(&pc.redirects[1], Redirect::Output(f) if f == "b"));
}

#[test]
fn redirect_symbol_without_target_is_malformed() {
    let e = parse_redirects("echo hi >").unwrap_err();
    assert!(matches!(e.kind, ShellErrorKind::InvalidInput));
    assert_eq!(e.message, "Invalid redirect syntax".to_string());
    assert!(parse_redirects("x >>").is_err());
    assert!(parse_redirects("<").is_err());
}

#[test]
fn plan_aborts_malformed_redirect_segment() {
    let env: Vec<(String, String)> = Vec::new();
    let entries: Vec<String> = Vec::new();
    let plan = plan_command("echo hi >", &env, &None, &entries);
    match plan {
        CommandPlan::Invalid(e) => {
            assert!(matches!(e.kind, ShellErrorKind::InvalidInput));
            assert_eq!(e.message, "Invalid redirect syntax".to_string());
        },
        _ => panic!("expected the segment to be aborted"),
    }
}

#[test]
fn pipeline_stages_split() {
    assert_eq!(
        parse_pipeline("echo hi | cat"),
        vec![
            vec!["echo".to_string(), "hi".to_string()],
            vec!["cat".to_string()]
        ]
    );
}

#[test]
fn pipeline_single_stage() {
    assert_eq!(parse_pipeline("ls -l"), vec![vec!["ls".to_string(), "-l".to_string()]]);
}

#[test]
fn plan_pipeline_segment() {
    let env: Vec<(String, String)> = Vec::new();
    let entries: Vec<String> = Vec::new();
    let plan = plan_command("echo hi | cat", &env, &None, &entries);
    match plan {
        CommandPlan::Pipeline(stages) => {
            assert_eq!(
                stages,
                vec![
                    vec!["echo".to_string(), "hi".to_string()],
                    vec!["cat".to_string()]
                ]
            );
        },
        _ => panic!("expected a pipeline plan"),
    }
}

#[test]
fn plan_redirect_segment() {
    let env: Vec<(String, String)> = Vec::new();
    let entries: Vec<String> = Vec::new();
    let plan = plan_command("echo x > f", &env, &None, &entries);
    match plan {
        CommandPlan::Redirect(pc) => {
            assert_eq!(pc.cmd, vec!["echo".to_string(), "x".to_string()]);
            assert!(matches!(&pc.redirects[0], Redirect::Output(f) if f == "f"));
        },
        _ => panic!("expected a redirect plan"),
    }
}

#[test]
fn plan_empty_segment() {
    let env: Vec<(String, String)> = Vec::new();
    let entries: Vec<String> = Vec::new();
    assert!(matches!(plan_command("", &env, &None, &entries), CommandPlan::Empty));
}

#[test]
fn plan_exec_segment_fully_expanded() {
    let env = vec![("W".to_string(), "world".to_string())];
    let entries: Vec<String> = Vec::new();
    let plan = plan_command("echo $W{1,2}", &env, &None, &entries);
    match plan {
        CommandPlan::Exec(parts) => {
            assert_eq!(
                parts,
                vec![
                    "echo".to_string(),
                    "world1".to_string(),
                    "world2".to_string()
                ]
            );
        },
        _ => panic!("expected an exec plan"),
    }
}

#[test]
fn complete_command_filters_by_prefix() {
    let names = vec!["git".to_string(), "grep".to_string(), "ls".to_string()];
    assert_eq!(
        complete_command("g", &names),
        vec!["git".to_string(), "grep".to_string()]
    );
}

#[test]
fn complete_path_builds_candidates() {
    let entries = vec![
        ("src".to_string(), true),
        ("setup.sh".to_string(), false),
        ("doc".to_string(), true),
    ];
    assert_eq!(
        complete_path("s", ".", &entries),
        vec!["./src/".to_string(), "./setup.sh".to_string()]
    );
}

#[test]
fn rewrite_home_to_tilde() {
    assert_eq!(rewrite_home("/home/u/file", "/home/u"), "~/file".to_string());
    assert_eq!(rewrite_home("/etc/passwd", "/home/u"), "/etc/passwd".to_string());
}

#[test]
fn escaped_separator_stays_in_segment() {
    let r = split_commands("a\\;b");
    assert_eq!(r.len(), 1);
    assert_eq!(r[0].0, "a;b".to_string());
    assert!(matches!(r[0].1, CommandSeparator::Nothing));
}
