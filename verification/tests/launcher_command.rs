use varde::launcher::command::{parse, parse_lines, Request, USAGE};

fn args(values: &[&str]) -> Vec<Option<String>> {
    std::iter::once("varde")
        .chain(values.iter().copied())
        .map(|value| Some(value.to_string()))
        .collect()
}

#[test]
fn parses_launcher_commands() {
    assert!(matches!(parse(&args(&[])), Ok(Request::Activate)));
    assert!(matches!(parse(&args(&["launcher"])), Ok(Request::Launcher)));
    assert!(matches!(
        parse(&args(&["launcher", "apps"])),
        Ok(Request::Launcher)
    ));
    assert!(matches!(
        parse(&args(&["launcher", "clipboard"])),
        Ok(Request::Clipboard)
    ));
}

#[test]
fn launcher_parses_dmenu_prompt() {
    let command =
        parse(&args(&["launcher", "--dmenu", "-p", "System..."])).expect("valid command");
    assert!(matches!(command, Request::Dmenu { prompt } if prompt == "System..."));
}

#[test]
fn launcher_rejects_unknown_arguments() {
    assert!(parse(&args(&["launcher", "--width", "300"])).is_err());
    assert!(parse(&args(&["launcher", "--dmenu", "--bad"])).is_err());
    assert!(matches!(
        parse(&args(&["launcher", "--dmenu", "--bad"])),
        Err(error) if error == "Unknown option: --bad"
    ));
    assert!(matches!(
        parse(&args(&["launcher", "--dmenu", "-p"])),
        Err(error) if error == "-p needs a value"
    ));
    assert!(matches!(parse(&args(&["start"])), Err(error) if error == "Unknown command"));
    assert!(matches!(
        parse(&[Some("varde".into()), None]),
        Err(error) if error == "Arguments must be UTF-8"
    ));
    assert!(USAGE.starts_with("usage: varde"));
}

#[test]
fn launcher_preserves_duplicate_and_empty_selector_lines() {
    assert_eq!(
        parse_lines(b"One\n\nOne\n".to_vec()).unwrap(),
        ["One", "", "One"]
    );
    assert!(parse_lines(Vec::new()).unwrap().is_empty());
    assert!(matches!(parse_lines(vec![0xff]), Err(error) if error == "Selector input must be UTF-8"));
}
