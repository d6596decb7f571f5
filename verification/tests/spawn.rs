use oryxis_terminal::spawn::child_env;

fn pairs(v: &[(&str, &str)]) -> Vec<(String, String)> {
    v.iter().map(|(a, b)| (a.to_string(), b.to_string())).collect()
}

#[test]
fn the_colour_capabilities_come_first() {
    assert_eq!(child_env(&Vec::new()), pairs(&[("TERM", "xterm-256color"), ("COLORTERM", "truecolor")]));
}

#[test]
fn host_variables_follow_and_can_override_term() {
    let env = pairs(&[("TERM", "vt100"), ("LANG", "C.UTF-8")]);
    assert_eq!(
        child_env(&env),
        pairs(&[("TERM", "xterm-256color"), ("COLORTERM", "truecolor"), ("TERM", "vt100"), ("LANG", "C.UTF-8")])
    );
}

#[test]
fn blank_names_are_skipped() {
    let env = pairs(&[("", "x"), ("  \t", "y"), ("A", "")]);
    assert_eq!(child_env(&env), pairs(&[("TERM", "xterm-256color"), ("COLORTERM", "truecolor"), ("A", "")]));
}
