use onui::adapter::Status;
use onui::agent::{Action, Agent, Event, CANCELLED, GOODBYE, NOT_RECOGNIZED, BUSY, NO_PENDING, VM_RESET};
use onui::codec::{Command, Input, Output, Signal};
use onui::registry::ExecRequest;
use onui::script::{LuaExecution, REJECTED_OUTPUT};

fn text(s: &str) -> Event {
    Event::Input(Input::Text(s.to_string()))
}

fn command(cmd: Command) -> Event {
    Event::Input(Input::Command { cmd, arg: String::new(), body: String::new() })
}

fn tool_call(id: &str, code: &str, timeout_sec: Option<u64>) -> Event {
    Event::ToolCall { id: id.to_string(), code: Some(code.to_string()), timeout_sec }
}

fn executed(id: &str, stdout: &str, returns: &[&str], error: Option<&str>) -> Event {
    Event::Executed {
        id: id.to_string(),
        execution: LuaExecution {
            stdout: stdout.to_string(),
            error: error.map(|e| e.to_string()),
            returns: returns.iter().map(|r| r.to_string()).collect(),
        },
    }
}

fn out(o: Output) -> Action {
    Action::Output(o)
}

fn system(m: &str) -> Action {
    Action::Output(Output::SystemMsg(m.to_string()))
}

fn exec(id: &str, code: &str, timeout_sec: u64) -> Action {
    Action::Execute(ExecRequest { id: id.to_string(), code: code.to_string(), timeout_sec })
}

fn lua_result(id: &str, output: &str) -> Action {
    out(Output::LuaResult { id: id.to_string(), output: output.to_string() })
}

fn results(pairs: &[(&str, &str)]) -> Action {
    Action::SendToolResults(pairs.iter().map(|(a, b)| (a.to_string(), b.to_string())).collect())
}

/// Sends "hi" and has the model request the given tool calls, then finish.
fn agent_with_tools(calls: &[(&str, &str, Option<u64>)]) -> Agent {
    let mut agent = Agent::new("test-model");
    assert_eq!(agent.step(text("hi")), vec![Action::SendUser("hi".to_string())]);
    for (id, code, t) in calls {
        assert_eq!(
            agent.step(tool_call(id, code, *t)),
            vec![out(Output::LuaCode { id: id.to_string(), code: code.to_string() })]
        );
    }
    assert_eq!(agent.step(Event::Finished), vec![out(Output::InputReady)]);
    assert_eq!(agent.status(), Status::WaitForLuaResult);
    agent
}

#[test]
fn pure_text_turn() {
    let mut agent = Agent::new("test-model");
    assert_eq!(agent.step(text("hi")), vec![Action::SendUser("hi".to_string())]);
    assert_eq!(agent.status(), Status::Generating);
    let mut outputs = Vec::new();
    outputs.extend(agent.step(Event::AssistantChunk("hello".to_string())));
    outputs.extend(agent.step(Event::AssistantChunk(String::new())));
    outputs.extend(agent.step(Event::Finished));
    assert_eq!(
        outputs,
        vec![
            out(Output::AssistantMsg("hello".to_string())),
            out(Output::AssistantMsg(String::new())),
            out(Output::InputReady),
        ]
    );
    assert_eq!(agent.status(), Status::Idle);
}

#[test]
fn finished_closes_open_segment() {
    let mut agent = Agent::new("m");
    agent.step(text("hi"));
    agent.step(Event::AssistantChunk("hello".to_string()));
    assert_eq!(
        agent.step(Event::Finished),
        vec![out(Output::AssistantMsg(String::new())), out(Output::InputReady)]
    );
}

#[test]
fn approve_single_tool() {
    let mut agent = agent_with_tools(&[("t1", "return 2+3", None)]);
    assert_eq!(agent.step(text("y")), vec![exec("t1", "return 2+3", 10), out(Output::InputReady)]);
    assert_eq!(
        agent.step(executed("t1", "", &["5"], None)),
        vec![lua_result("t1", "** Ret[1]: 5"), results(&[("t1", "** Ret[1]: 5")])]
    );
    assert_eq!(agent.status(), Status::Generating);
    assert!(agent.registry().is_empty());
    assert_eq!(agent.step(Event::Finished), vec![out(Output::InputReady)]);
    assert_eq!(agent.status(), Status::Idle);
}

#[test]
fn reject_single_tool() {
    let mut agent = agent_with_tools(&[("t1", "return 2+3", None)]);
    let acts = agent.step(text("n"));
    assert_eq!(acts, vec![lua_result("t1", REJECTED_OUTPUT), results(&[("t1", REJECTED_OUTPUT)])]);
    assert!(!acts.iter().any(|a| matches!(a, Action::Execute(_))));
    assert_eq!(REJECTED_OUTPUT, "Lua execution rejected by user.");
}

#[test]
fn batch_of_two_decided_one_by_one() {
    let mut agent = agent_with_tools(&[("t1", "return 1", None), ("t2", "return 2", None)]);
    // approving t2 while t1 waits runs nothing yet
    assert_eq!(agent.step(text("approve t2")), vec![out(Output::InputReady)]);
    assert_eq!(agent.registry().len(), 2);
    assert_eq!(agent.registry().pending_ids(), vec!["t1".to_string()]);
    // rejecting t1 leaves nothing waiting: t2's run is asked for in that step
    assert_eq!(agent.step(text("n")), vec![exec("t2", "return 2", 10), out(Output::InputReady)]);
    assert_eq!(
        agent.step(executed("t2", "", &["2"], None)),
        vec![
            lua_result("t1", REJECTED_OUTPUT),
            lua_result("t2", "** Ret[1]: 2"),
            results(&[("t1", REJECTED_OUTPUT), ("t2", "** Ret[1]: 2")]),
        ]
    );
}

#[test]
fn double_cancel_exits() {
    let mut agent = Agent::new("m");
    assert_eq!(
        agent.step(Event::Signal(Signal::Cancel)),
        vec![Action::CancelModel, system(CANCELLED), out(Output::InputReady)]
    );
    assert!(!agent.is_done());
    assert_eq!(
        agent.step(Event::Signal(Signal::Cancel)),
        vec![Action::CancelModel, system(GOODBYE), Action::Exit]
    );
    assert!(agent.is_done());
    assert_eq!(GOODBYE, "Goodbye.");
    assert_eq!(agent.step(text("hi")), vec![]);
}

#[test]
fn input_between_cancels_keeps_loop() {
    let mut agent = Agent::new("m");
    agent.step(Event::Signal(Signal::Cancel));
    agent.step(command(Command::Help));
    let acts = agent.step(Event::Signal(Signal::Cancel));
    assert!(!agent.is_done());
    assert!(!acts.contains(&Action::Exit));
}

#[test]
fn script_timeout_is_reported() {
    let mut agent = agent_with_tools(&[("t9", "while true do end", Some(1))]);
    assert_eq!(agent.step(text("y")), vec![exec("t9", "while true do end", 1), out(Output::InputReady)]);
    assert_eq!(
        agent.step(executed("t9", "", &[], Some("Lua execution timed out"))),
        vec![
            lua_result("t9", "** Err: Lua execution timed out"),
            results(&[("t9", "** Err: Lua execution timed out")]),
        ]
    );
}

#[test]
fn absent_timeout_defaults_to_ten_seconds() {
    let mut agent = agent_with_tools(&[("a", "x()", None), ("b", "y()", Some(3))]);
    assert_eq!(
        agent.step(command(Command::Approve)),
        vec![exec("a", "x()", 10), exec("b", "y()", 3), out(Output::InputReady)]
    );
}

#[test]
fn cancel_rejects_pending_and_reports_them() {
    let mut agent = agent_with_tools(&[("t1", "return 1", None)]);
    assert_eq!(
        agent.step(Event::Signal(Signal::Cancel)),
        vec![
            Action::CancelModel,
            lua_result("t1", REJECTED_OUTPUT),
            results(&[("t1", REJECTED_OUTPUT)]),
            system(CANCELLED),
            out(Output::InputReady),
        ]
    );
}

#[test]
fn exit_signal_reports_pending_and_stops() {
    let mut agent = agent_with_tools(&[("t1", "return 1", None)]);
    assert_eq!(
        agent.step(Event::Signal(Signal::Exit)),
        vec![Action::CancelModel, lua_result("t1", REJECTED_OUTPUT), system(GOODBYE), Action::Exit]
    );
    assert!(agent.is_done());
}

#[test]
fn unrecognized_approval_prompts_again() {
    let mut agent = agent_with_tools(&[("t1", "return 1", None)]);
    assert_eq!(agent.step(text("maybe later")), vec![system(NOT_RECOGNIZED), out(Output::InputReady)]);
    assert_eq!(NOT_RECOGNIZED, "Lua approval input not recognized.");
    assert_eq!(agent.registry().len(), 1);
}

#[test]
fn approval_by_id_alone_and_all_keyword() {
    let mut agent = agent_with_tools(&[("t1", "a()", None), ("t2", "b()", None)]);
    assert_eq!(agent.step(text("t1")), vec![out(Output::InputReady)]);
    assert_eq!(agent.step(text("no all")), vec![exec("t1", "a()", 10), out(Output::InputReady)]);
    assert_eq!(
        agent.step(executed("t1", "ok", &[], None)),
        vec![
            lua_result("t1", "ok"),
            lua_result("t2", REJECTED_OUTPUT),
            results(&[("t1", "ok"), ("t2", REJECTED_OUTPUT)]),
        ]
    );
}

#[test]
fn text_while_generating_is_dropped() {
    let mut agent = Agent::new("m");
    agent.step(text("hi"));
    assert_eq!(agent.step(text("again")), vec![system(BUSY)]);
}

#[test]
fn approve_without_pending_says_so() {
    let mut agent = Agent::new("m");
    assert_eq!(agent.step(command(Command::Reject)), vec![system(NO_PENDING), out(Output::InputReady)]);
}

#[test]
fn reset_vm_clears_registry() {
    let mut agent = agent_with_tools(&[("t1", "a()", None)]);
    assert_eq!(
        agent.step(command(Command::ResetVM)),
        vec![Action::ResetRuntime, system(VM_RESET), out(Output::InputReady)]
    );
    assert!(agent.registry().is_empty());
    assert_eq!(agent.status(), Status::Idle);
}

#[test]
fn unsupported_commands_are_named() {
    let mut agent = Agent::new("m");
    assert_eq!(
        agent.step(command(Command::Compact)),
        vec![system("Command not supported: /compact"), out(Output::InputReady)]
    );
}

#[test]
fn status_block_lists_model_and_pending() {
    let mut agent = agent_with_tools(&[("t1", "a()", None), ("t2", "b()", None)]);
    assert_eq!(
        agent.step(command(Command::Status)),
        vec![
            system("Model: test-model\nStatus: waiting for tool decisions\nPending tools: 2\nContext: 0/0"),
            out(Output::InputReady),
        ]
    );
}

#[test]
fn transport_failure_returns_to_idle() {
    let mut agent = Agent::new("m");
    agent.step(text("hi"));
    assert_eq!(
        agent.step(Event::Failed("timeout".to_string())),
        vec![system("Failed to send message to LLM: timeout"), out(Output::InputReady)]
    );
    assert_eq!(agent.status(), Status::Idle);
}

#[test]
fn duplicate_tool_call_is_ignored() {
    let mut agent = Agent::new("m");
    agent.step(text("hi"));
    agent.step(tool_call("t1", "a()", None));
    assert_eq!(agent.step(tool_call("t1", "b()", None)), vec![system("Duplicate tool call ignored: t1")]);
    assert_eq!(agent.registry().len(), 1);
}

#[test]
fn events_after_cancel_are_discarded() {
    let mut agent = Agent::new("m");
    agent.step(text("hi"));
    agent.step(Event::Signal(Signal::Cancel));
    assert_eq!(agent.step(Event::AssistantChunk("late".to_string())), vec![]);
    assert_eq!(agent.step(tool_call("t1", "a()", None)), vec![]);
    assert_eq!(agent.step(Event::Finished), vec![]);
    assert_eq!(agent.status(), Status::Idle);
}

#[test]
fn tool_call_without_code_is_skipped() {
    let mut agent = Agent::new("m");
    agent.step(text("hi"));
    let event = Event::ToolCall { id: "t1".to_string(), code: None, timeout_sec: None };
    assert_eq!(agent.step(event), vec![system("Tool call without code skipped: t1")]);
    assert!(agent.registry().is_empty());
    assert_eq!(agent.step(Event::Finished), vec![out(Output::InputReady)]);
    assert_eq!(agent.status(), Status::Idle);
}

#[test]
fn status_block_shows_context_size() {
    let mut agent = Agent::new("gpt");
    agent.set_context_size(1200, 262144);
    assert_eq!(
        agent.step(command(Command::Status)),
        vec![system("Model: gpt\nStatus: idle\nPending tools: 0\nContext: 1200/262144"), out(Output::InputReady)]
    );
}

#[test]
fn second_cancel_command_repeats_the_first() {
    let mut agent = Agent::new("m");
    let first = agent.step(command(Command::Cancel));
    let second = agent.step(command(Command::Cancel));
    assert_eq!(first, vec![Action::CancelModel, system(CANCELLED), out(Output::InputReady)]);
    assert_eq!(first, second);
    assert!(!agent.is_done());
}

#[test]
fn approval_for_unknown_id_is_not_recognized() {
    let mut agent = agent_with_tools(&[("t1", "a()", None)]);
    assert_eq!(agent.step(text("y t7")), vec![system(NOT_RECOGNIZED), out(Output::InputReady)]);
    assert_eq!(agent.registry().len(), 1);
}

#[test]
fn cancel_runs_what_was_approved() {
    let mut agent = agent_with_tools(&[("t1", "a()", None), ("t2", "b()", None)]);
    assert_eq!(agent.step(text("t2 y")), vec![out(Output::InputReady)]);
    assert_eq!(
        agent.step(Event::Signal(Signal::Cancel)),
        vec![Action::CancelModel, exec("t2", "b()", 10), system(CANCELLED), out(Output::InputReady)]
    );
    assert_eq!(
        agent.step(executed("t2", "x", &[], None)),
        vec![lua_result("t1", REJECTED_OUTPUT), lua_result("t2", "x"), results(&[("t1", REJECTED_OUTPUT), ("t2", "x")])]
    );
}
