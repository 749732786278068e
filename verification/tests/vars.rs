use dotfiles::vars::UserEnvVars;

#[test]
fn no_variable_exports_nothing() {
    let vars = UserEnvVars::new("/home/me".to_string());
    assert_eq!(vars.script(), "");
    assert_eq!(vars.bashrc_path(), "/home/me/.bashrc");
}

#[test]
fn variables_are_exported_line_by_line() {
    let vars = UserEnvVars::new("/home/me/".to_string())
        .add("A", "1".to_string())
        .add("B", "two words".to_string());
    assert_eq!(vars.script(), "export A='1'\nexport B='two words'");
    assert_eq!(vars.bashrc_path(), "/home/me/.bashrc");
}

#[test]
fn variable_that_is_added_again_is_replaced() {
    let vars = UserEnvVars::new("/".to_string())
        .add("A", "1".to_string())
        .add("B", "2".to_string())
        .add("A", "3".to_string());
    assert_eq!(vars.script(), "export A='3'\nexport B='2'");
}
