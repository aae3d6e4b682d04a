use shesh::config::{get_config_path, init, parse_config, Config};

#[test]
fn parse_prompt_and_startup() {
    let text = "prompt = \"my> \"\n#startup\necho ready\nls";
    let c = parse_config(text);
    assert_eq!(c.prompt, "my> ".to_string());
    assert_eq!(c.startup, vec!["echo ready".to_string(), "ls".to_string()]);
}

#[test]
fn default_prompt_without_setting() {
    let c = parse_config("# nothing here\n\n");
    assert_eq!(c.prompt, "shesh> ".to_string());
    assert_eq!(c.startup, Vec::<String>::new());
}

#[test]
fn startup_marker_ignores_case_and_spacing() {
    let c = parse_config("#  Startup  \nrun me");
    assert_eq!(c.startup, vec!["run me".to_string()]);
}

#[test]
fn comments_before_marker_are_skipped() {
    let c = parse_config("# a comment\nprompt = \"p\"\n# another\n#startup\ncmd");
    assert_eq!(c.prompt, "p".to_string());
    assert_eq!(c.startup, vec!["cmd".to_string()]);
}

#[test]
fn prompt_value_trimmed_and_unquoted() {
    let c = parse_config("prompt =   \"x \"  ");
    assert_eq!(c.prompt, "x ".to_string());
}

#[test]
fn init_without_content_uses_default() {
    let c = init(&None);
    assert_eq!(c.prompt, "shesh> ".to_string());
    assert_eq!(c.startup, Vec::<String>::new());
}

#[test]
fn init_with_content_parses_it() {
    let c = init(&Some("prompt = \"q\"".to_string()));
    assert_eq!(c.prompt, "q".to_string());
}

#[test]
fn default_config_values() {
    let c = Config::default();
    assert_eq!(c.prompt, "shesh> ".to_string());
    assert_eq!(c.startup, Vec::<String>::new());
}

#[test]
fn config_path_under_home() {
    assert_eq!(
        get_config_path("/home/u"),
        "/home/u/.config/shesh/shesh.24".to_string()
    );
}
