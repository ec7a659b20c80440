use onui::adapter::{advance, ChatMessage, Status, StatusEvent};
use onui::agent::{parse_decision, parse_lua_approval, AgentResources, ApprovalTarget};
use onui::config::{Config, ConfigError, LLMConfig, LLMOpenAIConfig};
use onui::registry::{ExecRequest, LuaCallStatus, Manager, RegistryError};
use onui::script::{decimal_string, effective_timeout, parse_timeout_text, render_tool_output, run_error_text, LuaExecution};
use onui::stream::{CallDelta, PartialCall, SseItem, SseLines, StreamAssembler};
use onui::text::trimmed;

fn run(stdout: &str, returns: &[&str], error: Option<&str>) -> LuaExecution {
    LuaExecution {
        stdout: stdout.to_string(),
        error: error.map(|e| e.to_string()),
        returns: returns.iter().map(|r| r.to_string()).collect(),
    }
}

#[test]
fn registry_insert_rejects_duplicates() {
    let mut m = Manager::new();
    assert_eq!(m.insert("t1", "a()", None), Ok(()));
    assert_eq!(m.insert("t1", "b()", Some(4)), Err(RegistryError::DuplicateId));
    assert_eq!(m.len(), 1);
    assert_eq!(m.item(0).code, "a()");
    assert!(!m.all_ready());
}

#[test]
fn registry_decisions_are_final() {
    let mut m = Manager::new();
    m.insert("t1", "a()", None).unwrap();
    assert_eq!(m.reject("t1", "no"), Ok(()));
    assert_eq!(m.approve("t1"), Err(RegistryError::NotFound));
    assert_eq!(m.item(0).status, LuaCallStatus::Rejected);
    assert_eq!(m.item(0).output, "no");
    assert!(m.all_ready());
}

#[test]
fn registry_approve_then_executed() {
    let mut m = Manager::new();
    m.insert("t1", "a()", Some(2)).unwrap();
    assert_eq!(m.executed("t1", "out"), Err(RegistryError::NotFound));
    assert_eq!(m.approve("t1"), Ok(()));
    assert_eq!(m.item(0).status, LuaCallStatus::Accepted);
    assert_eq!(m.executed("t1", "out"), Err(RegistryError::NotFound));
    assert_eq!(
        m.start_runs(),
        vec![ExecRequest { id: "t1".to_string(), code: "a()".to_string(), timeout_sec: 2 }]
    );
    assert_eq!(m.item(0).status, LuaCallStatus::Executing);
    assert_eq!(m.start_runs(), vec![]);
    assert_eq!(m.take_batch_if_complete().is_none(), true);
    assert_eq!(m.executed("t1", "out"), Ok(()));
    assert_eq!(m.item(0).status, LuaCallStatus::Approved);
    let batch = m.take_batch_if_complete().unwrap();
    assert_eq!(batch.len(), 1);
    assert_eq!(batch[0].output, "out");
    assert!(m.is_empty());
}

#[test]
fn registry_batch_keeps_insertion_order() {
    let mut m = Manager::new();
    m.insert("x", "1", None).unwrap();
    m.insert("y", "2", None).unwrap();
    m.insert("z", "3", None).unwrap();
    assert_eq!(m.pending_ids(), vec!["x".to_string(), "y".to_string(), "z".to_string()]);
    m.decide("z", false).unwrap();
    m.decide("x", false).unwrap();
    assert_eq!(m.pending_ids(), vec!["y".to_string()]);
    m.decide("y", false).unwrap();
    let ids: Vec<String> = m.take_batch_if_complete().unwrap().into_iter().map(|i| i.id).collect();
    assert_eq!(ids, vec!["x", "y", "z"]);
}

#[test]
fn registry_decide_all_yields_runs() {
    let mut m = Manager::new();
    m.insert("a", "f()", None).unwrap();
    m.insert("b", "g()", Some(5)).unwrap();
    m.insert("c", "h()", None).unwrap();
    m.decide("a", false).unwrap();
    m.decide("c", true).unwrap();
    assert_eq!(m.start_runs(), vec![]);
    m.decide_all(true);
    assert_eq!(m.item(1).status, LuaCallStatus::Accepted);
    assert_eq!(
        m.start_runs(),
        vec![
            ExecRequest { id: "b".to_string(), code: "g()".to_string(), timeout_sec: 5 },
            ExecRequest { id: "c".to_string(), code: "h()".to_string(), timeout_sec: 10 },
        ]
    );
    m.decide_all(false);
    assert_eq!(m.item(1).status, LuaCallStatus::Executing);
    assert_eq!(m.item(0).output, "Lua execution rejected by user.");
    assert_eq!(m.decide("zz", true), Err(RegistryError::NotFound));
}

#[test]
fn registry_clear_twice() {
    let mut m = Manager::new();
    m.insert("a", "f()", None).unwrap();
    m.clear();
    assert!(m.is_empty());
    m.clear();
    assert!(m.is_empty());
    assert!(m.take_batch_if_complete().is_none());
}

#[test]
fn agent_resources_start_empty() {
    let r = AgentResources::new(7u8);
    assert_eq!(r.lua, 7);
    assert!(r.registry.is_empty());
}

#[test]
fn decision_words() {
    assert_eq!(parse_decision("Y"), Some(true));
    assert_eq!(parse_decision("ok"), Some(true));
    assert_eq!(parse_decision("APPROVE"), Some(true));
    assert_eq!(parse_decision("no"), Some(false));
    assert_eq!(parse_decision("Reject"), Some(false));
    assert_eq!(parse_decision("maybe"), None);
}

#[test]
fn approval_grammar() {
    let mut m = Manager::new();
    m.insert("t1", "a()", None).unwrap();
    m.insert("t2", "b()", None).unwrap();
    assert_eq!(parse_lua_approval(" yes ", &m), Some((true, ApprovalTarget::All)));
    assert_eq!(parse_lua_approval("t2", &m), Some((true, ApprovalTarget::One("t2".to_string()))));
    assert_eq!(parse_lua_approval("t2 n", &m), Some((false, ApprovalTarget::One("t2".to_string()))));
    assert_eq!(parse_lua_approval("reject all", &m), Some((false, ApprovalTarget::All)));
    assert_eq!(parse_lua_approval("all y extra", &m), Some((true, ApprovalTarget::All)));
    assert_eq!(parse_lua_approval("t3 y", &m), None);
    assert_eq!(parse_lua_approval("t3", &m), None);
    assert_eq!(parse_lua_approval("   ", &m), None);
}

#[test]
fn render_output_lines() {
    assert_eq!(render_tool_output(&run("", &["5"], None)), "** Ret[1]: 5");
    assert_eq!(render_tool_output(&run("  hello\n", &["a", "b "], None)), "hello\n** Ret[1]: a\n** Ret[2]: b");
    assert_eq!(render_tool_output(&run("x", &[], Some("boom"))), "x\n** Err: boom");
    assert_eq!(render_tool_output(&run("", &[], None)), "");
    assert_eq!(render_tool_output(&run("", &["x "], Some("e"))), "** Ret[1]: x \n** Err: e");
    assert_eq!(render_tool_output(&run(" out ", &[" v"], None)), "out\n** Ret[1]:  v");
}

#[test]
fn run_errors_name_the_timeout() {
    assert_eq!(run_error_text("runtime error: Lua execution timed out"), "Lua execution timed out");
    assert_eq!(run_error_text("syntax error near 'x'"), "Lua execution failed: syntax error near 'x'");
    assert_eq!(run_error_text(""), "Lua execution failed: ");
}

#[test]
fn render_numbers_many_returns() {
    let returns: Vec<String> = (0..12).map(|i| i.to_string()).collect();
    let refs: Vec<&str> = returns.iter().map(|s| s.as_str()).collect();
    let r = render_tool_output(&run("", &refs, None));
    assert!(r.ends_with("** Ret[12]: 11"));
}

#[test]
fn decimal_and_timeout() {
    assert_eq!(decimal_string(0), "0");
    assert_eq!(decimal_string(907), "907");
    assert_eq!(decimal_string(u64::MAX), u64::MAX.to_string());
    assert_eq!(effective_timeout(None), 10);
    assert_eq!(effective_timeout(Some(1)), 1);
}

#[test]
fn trimming_uses_unicode_whitespace() {
    assert_eq!(trimmed("\u{a0} a b \u{2003}\n"), "a b");
}

#[test]
fn sse_lines_split_across_chunks() {
    let mut s = SseLines::new();
    assert_eq!(s.push_text("data: {\"a\""), vec![]);
    assert_eq!(
        s.push_text(":1}\n\n: comment\nevent: x\ndata: [DONE]\ndata: tail"),
        vec![SseItem::Data("{\"a\":1}".to_string()), SseItem::Done]
    );
    assert_eq!(s.push_text("\n"), vec![SseItem::Data("tail".to_string())]);
}

#[test]
fn sse_bytes_are_decoded() {
    let mut s = SseLines::new();
    assert_eq!(s.push_bytes("data: h\u{e9}\r\n".as_bytes()), vec![SseItem::Data("h\u{e9}".to_string())]);
    assert_eq!(s.push_bytes(&[b'd', b'a', b't', b'a', b':', b' ', 0xff, b'\n']), vec![SseItem::Data("\u{fffd}".to_string())]);
}

#[test]
fn assembler_joins_fragments_by_index() {
    let mut a = StreamAssembler::new();
    a.push_content("Hel");
    a.push_content("lo");
    a.push_call_delta(CallDelta { index: 1, id: Some("c2"), kind: Some("function"), name: Some("lua"), arguments: Some("{\"co") });
    a.push_call_delta(CallDelta { index: 0, id: Some("c1"), kind: None, name: Some("lua"), arguments: None });
    a.push_call_delta(CallDelta { index: 1, id: None, kind: None, name: None, arguments: Some("de\":1}") });
    let (role, content, calls) = a.finish();
    assert_eq!(role, "assistant");
    assert_eq!(content, Some("Hello".to_string()));
    assert_eq!(
        calls,
        vec![
            PartialCall { id: "c1".into(), kind: "".into(), name: "lua".into(), arguments: "".into() },
            PartialCall { id: "c2".into(), kind: "function".into(), name: "lua".into(), arguments: "{\"code\":1}".into() },
        ]
    );
}

#[test]
fn assembler_without_text() {
    let mut a = StreamAssembler::new();
    a.set_role("tool");
    let (role, content, calls) = a.finish();
    assert_eq!(role, "tool");
    assert_eq!(content, None);
    assert!(calls.is_empty());
}

#[test]
fn status_graph_edges() {
    assert_eq!(advance(Status::Idle, StatusEvent::Sent), Status::Generating);
    assert_eq!(advance(Status::Generating, StatusEvent::RespondedWithTools), Status::WaitForLuaResult);
    assert_eq!(advance(Status::Generating, StatusEvent::RespondedWithoutTools), Status::Idle);
    assert_eq!(advance(Status::WaitForLuaResult, StatusEvent::Sent), Status::Generating);
    assert_eq!(advance(Status::Idle, StatusEvent::RespondedWithTools), Status::Idle);
    assert_eq!(advance(Status::Generating, StatusEvent::Failed), Status::Idle);
    let once = advance(Status::WaitForLuaResult, StatusEvent::Cancelled);
    assert_eq!(once, Status::Idle);
    assert_eq!(advance(once, StatusEvent::Cancelled), once);
}

#[test]
fn chat_message_builders() {
    let m = ChatMessage::tool("c1", "out");
    assert_eq!(m.role, "tool");
    assert_eq!(m.tool_call_id, Some("c1".to_string()));
    assert_eq!(m.content, Some("out".to_string()));
    assert_eq!(ChatMessage::system("s").role, "system");
    assert_eq!(ChatMessage::user("u").content, Some("u".to_string()));
    let a = ChatMessage::assistant(None, Some("x".to_string()), Some("c".to_string()));
    assert_eq!(a.role, "assistant");
    assert_eq!(a.lua_code, Some("x".to_string()));
}

fn provider() -> LLMOpenAIConfig {
    LLMOpenAIConfig {
        api_key: None,
        api_key_env: Some("KEY_VAR".to_string()),
        base_url: Some("http://local".to_string()),
        base_url_env: Some("URL_VAR".to_string()),
        model: None,
        reasoning_effort: None,
        system_prompt: None,
        stream: None,
    }
}

#[test]
fn config_validation() {
    let mut c = Config {
        config_path: None,
        path: None,
        default_llm: "main".to_string(),
        llm: vec![("other".to_string(), LLMConfig::OpenAI(provider()))],
    };
    assert_eq!(c.validate(), Err(ConfigError::UnknownDefaultLlm));
    c.llm.push(("main".to_string(), LLMConfig::OpenAI(provider())));
    assert_eq!(c.validate(), Ok(()));
    assert_eq!(c.provider_index(), Some(1));
    c.llm.push(("other".to_string(), LLMConfig::OpenAI(provider())));
    assert_eq!(c.validate(), Err(ConfigError::DuplicateLlmName));
}

#[test]
fn provider_settings_resolution() {
    let p = provider();
    assert_eq!(p.get_api_key(Some("k".to_string())), Some("k".to_string()));
    assert_eq!(p.get_base_url(Some("ignored".to_string())), Some("http://local".to_string()));
    assert_eq!(p.model_or_default(), "gpt-5-nano");
    assert!(p.stream_enabled());
    let mut q = provider();
    q.api_key_env = None;
    assert_eq!(q.get_api_key(Some("k".to_string())), None);
}

#[test]
fn timeout_text_reads_like_u64_parse() {
    for t in ["12", "+7", "", "+", "1a", " 5", "007", "18446744073709551615", "18446744073709551616", "-1"] {
        assert_eq!(parse_timeout_text(t), t.parse::<u64>().ok(), "{}", t);
    }
}
