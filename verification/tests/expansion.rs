use shesh::commands::{
    expand_braces, expand_tilde, expand_vars, expand_wildcard, wildcard_match,
};

#[test]
fn braces_cartesian_product_in_order() {
    assert_eq!(
        expand_braces("a{1,2}b{x,y}"),
        vec![
            "a1bx".to_string(),
            "a1by".to_string(),
            "a2bx".to_string(),
            "a2by".to_string()
        ]
    );
}

#[test]
fn braces_plain_text_unchanged() {
    assert_eq!(expand_braces("abc"), vec!["abc".to_string()]);
}

#[test]
fn braces_items_trimmed_and_empties_dropped() {
    assert_eq!(expand_braces("{ a , ,b }"), vec!["a".to_string(), "b".to_string()]);
}

#[test]
fn braces_all_empty_items_give_nothing() {
    assert_eq!(expand_braces("x{,}"), Vec::<String>::new());
}

#[test]
fn wildcard_suffix_pattern() {
    let entries = vec!["a.txt".to_string(), "b.md".to_string()];
    assert_eq!(expand_wildcard("*.txt", &entries), vec!["a.txt".to_string()]);
}

#[test]
fn wildcard_star_keeps_all_entries() {
    let entries = vec!["a.txt".to_string(), "b.md".to_string(), "sub".to_string()];
    assert_eq!(expand_wildcard("*", &entries), entries);
}

#[test]
fn wildcard_prefix_pattern() {
    let entries = vec!["ab".to_string(), "ba".to_string(), "abc".to_string()];
    assert_eq!(expand_wildcard("a*", &entries), vec!["ab".to_string(), "abc".to_string()]);
}

#[test]
fn wildcard_no_match_is_empty() {
    let entries = vec!["a.txt".to_string()];
    assert_eq!(expand_wildcard("*.rs", &entries), Vec::<String>::new());
}

#[test]
fn wildcard_match_shapes() {
    assert!(wildcard_match("anything", "*"));
    assert!(wildcard_match("a.txt", "*.txt"));
    assert!(!wildcard_match("a.md", "*.txt"));
    assert!(wildcard_match("abc", "ab*"));
    assert!(!wildcard_match("bac", "ab*"));
    assert!(wildcard_match("same", "same"));
    assert!(!wildcard_match("same", "other"));
}

#[test]
fn vars_replaced_from_environment_list() {
    let env = vec![("FOO".to_string(), "x".to_string())];
    assert_eq!(expand_vars("echo $FOO end", &env), "echo x end".to_string());
}

#[test]
fn vars_unset_becomes_empty() {
    let env: Vec<(String, String)> = Vec::new();
    assert_eq!(expand_vars("echo $NOPE!", &env), "echo !".to_string());
}

#[test]
fn vars_trailing_name_resolved() {
    let env = vec![("HOME".to_string(), "/home/u".to_string())];
    assert_eq!(expand_vars("cd $HOME", &env), "cd /home/u".to_string());
}

#[test]
fn vars_adjacent_dollars() {
    let env = vec![
        ("A".to_string(), "1".to_string()),
        ("B".to_string(), "2".to_string()),
    ];
    assert_eq!(expand_vars("$A$B", &env), "12".to_string());
}

#[test]
fn tilde_prefix_replaced_by_home() {
    let home = Some("/home/u".to_string());
    assert_eq!(expand_tilde("~/x", &home), "/home/u/x".to_string());
}

#[test]
fn tilde_alone_is_home() {
    let home = Some("/home/u".to_string());
    assert_eq!(expand_tilde("~", &home), "/home/u".to_string());
}

#[test]
fn tilde_without_home_falls_back_to_dot() {
    assert_eq!(expand_tilde("~/x", &None), "./x".to_string());
    assert_eq!(expand_tilde("~", &None), ".".to_string());
}

#[test]
fn tilde_elsewhere_unchanged() {
    let home = Some("/home/u".to_string());
    assert_eq!(expand_tilde("a~b", &home), "a~b".to_string());
}

#[test]
fn lone_dollar_at_end_resolves_empty() {
    let env: Vec<(String, String)> = Vec::new();
    assert_eq!(expand_vars("a$", &env), "a".to_string());
    assert_eq!(expand_vars("$$", &env), "".to_string());
}
