use onui::codec::{Command, Input, LineJoiner, Signal, UserMsg};

fn cmd(c: Command, arg: &str, body: &str) -> Option<UserMsg> {
    Some(UserMsg::Input(Input::Command { cmd: c, arg: arg.to_string(), body: body.to_string() }))
}

#[test]
fn plain_line_is_text_as_typed() {
    assert_eq!(Input::from_raw("  hi there "), Some(UserMsg::Input(Input::Text("  hi there ".to_string()))));
}

#[test]
fn blank_line_gives_nothing() {
    assert_eq!(Input::from_raw(""), None);
    assert_eq!(Input::from_raw(" \t \u{3000}"), None);
}

#[test]
fn exit_and_cancel_names_are_signals() {
    for name in ["/exit", "/quit", "/q", "  /QUIT  "] {
        assert_eq!(Input::from_raw(name), Some(UserMsg::Signal(Signal::Exit)));
    }
    for name in ["/cancel", "/c", "/Stop"] {
        assert_eq!(Input::from_raw(name), Some(UserMsg::Signal(Signal::Cancel)));
    }
}

#[test]
fn command_argument_and_body() {
    assert_eq!(Input::from_raw("/approve  t1 \n more text "), cmd(Command::Approve, "t1", " more text"));
    assert_eq!(Input::from_raw("/ help"), cmd(Command::Help, "", ""));
    assert_eq!(Input::from_raw("/help\nline two"), cmd(Command::Help, "", "line two"));
    assert_eq!(Input::from_raw("/help x\n  indented\n"), cmd(Command::Help, "x", "  indented"));
}

#[test]
fn command_synonyms() {
    assert_eq!(Input::from_raw("/resetvm"), cmd(Command::ResetVM, "", ""));
    assert_eq!(Input::from_raw("/Reset-VM"), cmd(Command::ResetVM, "", ""));
    assert_eq!(Input::from_raw("/a"), cmd(Command::Approve, "", ""));
    assert_eq!(Input::from_raw("/r"), cmd(Command::Reject, "", ""));
    assert_eq!(Input::from_raw("/always"), cmd(Command::ApproveAlways, "", ""));
    assert_eq!(Input::from_raw("/compact"), cmd(Command::Compact, "", ""));
    assert_eq!(Input::from_raw("/status"), cmd(Command::Status, "", ""));
}

#[test]
fn unknown_slash_word_stays_text() {
    assert_eq!(Input::from_raw("/foo bar"), Some(UserMsg::Input(Input::Text("/foo bar".to_string()))));
    assert_eq!(Input::from_raw("/"), Some(UserMsg::Input(Input::Text("/".to_string()))));
}

#[test]
fn from_name_ignores_ascii_case() {
    assert_eq!(Command::from_name("HeLp"), Some(Command::Help));
    assert_eq!(Command::from_name("nope"), None);
    assert_eq!(Command::from_name(""), None);
}

#[test]
fn canonical_command_lines_round_trip() {
    for c in [
        Command::Help,
        Command::Status,
        Command::ResetVM,
        Command::Compact,
        Command::Approve,
        Command::Reject,
        Command::ApproveAlways,
    ] {
        let line = Input::Command { cmd: c, arg: String::new(), body: String::new() }.render();
        assert_eq!(Input::from_raw(&line), cmd(c, "", ""));
    }
    let line = Input::Command { cmd: Command::Exit, arg: String::new(), body: String::new() }.render();
    assert_eq!(line, "/exit");
    assert_eq!(Input::from_raw(&line), Some(UserMsg::Signal(Signal::Exit)));
}

#[test]
fn render_with_argument_and_body() {
    let i = Input::Command { cmd: Command::ResetVM, arg: "now".to_string(), body: "x".to_string() };
    assert_eq!(i.render(), "/reset-vm now\nx");
}

#[test]
fn continued_lines_join_into_one_message() {
    let mut j = LineJoiner::new();
    assert_eq!(j.push_line("first \\\n"), None);
    assert_eq!(j.push_line("second\\"), None);
    assert_eq!(
        j.push_line("third\n"),
        Some(UserMsg::Input(Input::Text("first \nsecond\nthird".to_string())))
    );
    assert_eq!(j.push_line("next\n"), Some(UserMsg::Input(Input::Text("next".to_string()))));
}

#[test]
fn continued_command_gets_a_body() {
    let mut j = LineJoiner::new();
    assert_eq!(j.push_line("/approve t1\\"), None);
    assert_eq!(j.push_line("why not"), cmd(Command::Approve, "t1", "why not"));
}

#[test]
fn blank_line_through_joiner_gives_nothing() {
    let mut j = LineJoiner::new();
    assert_eq!(j.push_line("   \n"), None);
    assert_eq!(j.push_line("\n"), None);
    assert_eq!(j.push_line("x"), Some(UserMsg::Input(Input::Text("x".to_string()))));
}
