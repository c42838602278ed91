use varde::command::{
    parse, parse_lines, Request, CLIPBOARD_HELP, DMENU_HELP, HELP, LAUNCHER_HELP,
    NOTIFICATIONS_HELP, START_HELP,
};

fn args(values: &[&str]) -> Vec<Option<String>> {
    std::iter::once("varde")
        .chain(values.iter().copied())
        .map(|value| Some(value.to_string()))
        .collect()
}

#[test]
fn parses_commands() {
    assert!(matches!(parse(&args(&[])), Ok(Request::Help(HELP))));
    assert!(matches!(parse(&args(&["start"])), Ok(Request::Start)));
    assert!(matches!(parse(&args(&["launcher"])), Ok(Request::Launcher)));
    assert!(matches!(
        parse(&args(&["clipboard"])),
        Ok(Request::Clipboard)
    ));
    assert!(matches!(
        parse(&args(&["notifications"])),
        Ok(Request::Notifications)
    ));
    assert!(matches!(
        parse(&args(&["notifications", "clear"])),
        Ok(Request::ClearNotifications)
    ));
}

#[test]
fn parses_help_and_version() {
    assert!(matches!(parse(&args(&["--help"])), Ok(Request::Help(HELP))));
    assert!(matches!(
        parse(&args(&["help", "dmenu"])),
        Ok(Request::Help(DMENU_HELP))
    ));
    assert!(matches!(
        parse(&args(&["notifications", "--help"])),
        Ok(Request::Help(NOTIFICATIONS_HELP))
    ));
    assert!(matches!(parse(&args(&["--version"])), Ok(Request::Version)));
}

#[test]
fn command_parses_dmenu_prompt() {
    let command = parse(&args(&["dmenu", "-p", "System..."])).expect("valid command");
    assert!(matches!(command, Request::Dmenu { prompt } if prompt == "System..."));
}

#[test]
fn command_rejects_unknown_arguments() {
    assert!(matches!(
        parse(&args(&["unknown"])),
        Err(error) if error == "unknown command 'unknown'"
    ));
    assert!(matches!(
        parse(&args(&["launcher", "extra"])),
        Err(error) if error == "unexpected argument 'extra'"
    ));
    assert!(matches!(
        parse(&args(&["dmenu", "--bad"])),
        Err(error) if error == "unknown option '--bad'"
    ));
    assert!(parse(&args(&["help", "unknown"])).is_err());
}

#[test]
fn command_preserves_duplicate_and_empty_selector_lines() {
    assert_eq!(
        parse_lines(b"One\n\nOne\n".to_vec()).unwrap(),
        ["One", "", "One"]
    );
    assert!(parse_lines(Vec::new()).unwrap().is_empty());
    assert!(parse_lines(vec![0xff]).is_err());
}

#[test]
fn dmenu_takes_the_last_prompt_and_stops_at_help() {
    assert!(matches!(
        parse(&args(&["dmenu"])),
        Ok(Request::Dmenu { prompt }) if prompt == "Search"
    ));
    assert!(matches!(
        parse(&args(&["dmenu", "-p", "One", "--prompt", "Two"])),
        Ok(Request::Dmenu { prompt }) if prompt == "Two"
    ));
    assert!(matches!(
        parse(&args(&["dmenu", "-p", "One", "-h", "--bad"])),
        Ok(Request::Help(DMENU_HELP))
    ));
    assert!(matches!(
        parse(&args(&["dmenu", "-p", "One", "--prompt"])),
        Err(error) if error == "--prompt requires a value"
    ));
}

#[test]
fn every_command_has_help() {
    assert!(matches!(parse(&args(&["help"])), Ok(Request::Help(HELP))));
    assert!(matches!(parse(&args(&["-h"])), Ok(Request::Help(HELP))));
    assert!(matches!(parse(&args(&["-V"])), Ok(Request::Version)));
    assert!(matches!(parse(&args(&["help", "start"])), Ok(Request::Help(START_HELP))));
    assert!(matches!(parse(&args(&["launcher", "-h"])), Ok(Request::Help(LAUNCHER_HELP))));
    assert!(matches!(parse(&args(&["help", "clipboard"])), Ok(Request::Help(CLIPBOARD_HELP))));
    assert!(matches!(
        parse(&args(&["help", "--help"])),
        Err(error) if error == "unknown command '--help'"
    ));
}

#[test]
fn rejects_options_and_text_that_is_not_utf8() {
    assert!(matches!(
        parse(&args(&["--bad"])),
        Err(error) if error == "unknown option '--bad'"
    ));
    assert!(matches!(
        parse(&args(&["start", "now", "please"])),
        Err(error) if error == "unexpected argument 'now'"
    ));
    assert!(matches!(
        parse(&[Some("varde".to_string()), None]),
        Err(error) if error == "arguments must be UTF-8"
    ));
    assert!(matches!(parse(&[]), Ok(Request::Help(HELP))));
    assert!(matches!(parse(&[None]), Ok(Request::Help(HELP))));
}

fn describe(request: Result<Request, String>) -> String {
    match request {
        Ok(Request::Help(text)) => format!("help:{text}"),
        Ok(_) => "other".to_string(),
        Err(error) => format!("error:{error}"),
    }
}

#[test]
fn help_is_the_same_asked_either_way() {
    for command in ["start", "launcher", "clipboard", "notifications", "dmenu", "bogus"] {
        for flag in ["-h", "--help"] {
            assert_eq!(
                describe(parse(&args(&["help", command]))),
                describe(parse(&args(&[command, flag])))
            );
        }
    }
    assert_eq!(describe(parse(&args(&["help", "dmenu"]))), format!("help:{DMENU_HELP}"));
    assert_eq!(
        describe(parse(&args(&["help", "bogus"]))),
        "error:unknown command 'bogus'"
    );
}
