use env_inject::script::build_script_block;
use env_inject::FrontedEnvironment;

fn env_of(pairs: &[(&str, &str)]) -> FrontedEnvironment {
    FrontedEnvironment(
        pairs
            .iter()
            .map(|(k, v)| (k.to_string(), v.to_string()))
            .collect(),
    )
}

#[test]
fn single_entry_exact_text() {
    let env = env_of(&[("K", "V")]);
    let block = build_script_block(&env);
    assert_eq!(block, "<script>\nwindow.K = \"V\";\n</script>");
}

#[test]
fn single_entry_shape() {
    let env = env_of(&[("API_URL", "http://x")]);
    let block = build_script_block(&env);
    assert!(block.starts_with("<script>"));
    assert!(block.ends_with("</script>"));
    let lines: Vec<&str> = block
        .lines()
        .filter(|l| l.starts_with("window."))
        .collect();
    assert_eq!(lines, vec!["window.API_URL = \"http://x\";"]);
}

#[test]
fn empty_environment() {
    let env = env_of(&[]);
    let block = build_script_block(&env);
    assert_eq!(block, "<script>\n</script>");
}

#[test]
fn two_entries_in_order() {
    let env = env_of(&[("A", "1"), ("B", "2")]);
    let block = build_script_block(&env);
    assert_eq!(
        block,
        "<script>\nwindow.A = \"1\";\nwindow.B = \"2\";\n</script>"
    );
}

#[test]
fn non_ascii_value_is_utf8_encoded() {
    let env = env_of(&[("K", "é")]);
    let block = build_script_block(&env);
    assert_eq!(block, "<script>\nwindow.K = \"é\";\n</script>");
    let bytes = block.as_bytes();
    let pos = bytes.windows(2).position(|w| w == [0xC3, 0xA9]);
    assert!(pos.is_some());
}
