//! The agent control loop as a state machine: each event from the operator, the
//! model or the script runtime yields the next state and the actions to perform.
use vstd::prelude::*;
use crate::adapter::{advance, allowed, Status, StatusEvent};
use crate::codec::{canonical_name, Command, Input, InputView, Output, OutputView, Signal};
use crate::registry::{
    all_terminal, decided, decided_all, exec_views, has_id, ids_unique, index_with, is_pending, item_views,
    none_waiting, pending_ids, request_for, requests_for_accepted, runs_due, started, with_status, ExecRequest, ExecView,
    ItemView, LuaCallStatus, Manager,
};
use crate::registry::str_eq;
use crate::script::{decimal, render_tool_output, rendered, LuaExecution, LuaExecutionView, REJECTED_OUTPUT};
use crate::text::{eq_ignore_case, range_eq_ignore_case, scan_word, scan_ws, skip_word, skip_ws};

verus! {

pub const GOODBYE: &'static str = "Goodbye.";

pub const CANCELLED: &'static str = "Cancelled. One more time to exit.";

pub const HELP: &'static str =
    "Commands: /help, /status, /reset-vm, /approve, /reject, /cancel, /exit";

pub const NO_PENDING: &'static str = "No pending tool calls.";

pub const BUSY: &'static str = "The model is still answering; input dropped.";

pub const TOOLS_RUNNING: &'static str = "Tool calls are still running; input dropped.";

pub const NOT_RECOGNIZED: &'static str = "Lua approval input not recognized.";

pub const VM_RESET: &'static str = "Lua VM reset.";

pub const NOT_SUPPORTED: &'static str = "Command not supported: /";

pub const SEND_FAILED: &'static str = "Failed to send message to LLM: ";

pub const DUPLICATE_CALL: &'static str = "Duplicate tool call ignored: ";

pub const NO_CODE: &'static str = "Tool call without code skipped: ";

/// The state shared by the agent and the model-event handler: the script runtime
/// and the pending-tool registry.
pub struct AgentResources<R> {
    pub lua: R,
    pub registry: Manager,
}

impl<R> AgentResources<R> {
    pub fn new(lua: R) -> (r: AgentResources<R>)
        ensures
            r.lua == lua,
            r.registry@ == Seq::<ItemView>::empty(),
            r.registry.wf(),
    {
        AgentResources { lua, registry: Manager::new() }
    }
}

/// A decision word: `y`, `yes`, `approve`, `ok` approve; `n`, `no`, `reject` reject
/// (ASCII case ignored).
pub open spec fn decision_of(t: Seq<char>) -> Option<bool> {
    if eq_ignore_case(t, "y"@) || eq_ignore_case(t, "yes"@) || eq_ignore_case(t, "approve"@)
        || eq_ignore_case(t, "ok"@) {
        Some(true)
    } else if eq_ignore_case(t, "n"@) || eq_ignore_case(t, "no"@) || eq_ignore_case(t, "reject"@) {
        Some(false)
    } else {
        None
    }
}

fn decision_in(s: &str, lo: usize, hi: usize) -> (r: Option<bool>)
    requires
        lo <= hi <= s@.len(),
    ensures
        r == decision_of(s@.subrange(lo as int, hi as int)),
{
    if range_eq_ignore_case(s, lo, hi, "y") || range_eq_ignore_case(s, lo, hi, "yes")
        || range_eq_ignore_case(s, lo, hi, "approve") || range_eq_ignore_case(s, lo, hi, "ok") {
        Some(true)
    } else if range_eq_ignore_case(s, lo, hi, "n") || range_eq_ignore_case(s, lo, hi, "no")
        || range_eq_ignore_case(s, lo, hi, "reject") {
        Some(false)
    } else {
        None
    }
}

/// Reads a decision word.
pub fn parse_decision(token: &str) -> (r: Option<bool>)
    ensures
        r == decision_of(token@),
{
    let n = token.unicode_len();
    assert(token@.subrange(0, n as int) =~= token@);
    decision_in(token, 0, n)
}

/// Which pending tools an approval utterance decides.
#[derive(PartialEq, Eq, Debug)]
pub enum ApprovalTarget {
    All,
    One(String),
}

pub enum ApprovalView {
    All(bool),
    One(Seq<char>, bool),
}

pub open spec fn approval_view(r: Option<(bool, ApprovalTarget)>) -> Option<ApprovalView> {
    match r {
        Some((d, ApprovalTarget::All)) => Some(ApprovalView::All(d)),
        Some((d, ApprovalTarget::One(id))) => Some(ApprovalView::One(id@, d)),
        None => None,
    }
}

/// The approval grammar over the first two whitespace-separated tokens of `s`.
///
/// One token: a decision word decides all pending tools; a pending id approves that
/// one. Two or more: a decision word with `all` decides all, a decision word with a
/// pending id decides that one, in either order. Anything else is not recognized.
pub open spec fn approval_of(s: Seq<char>, reg: Seq<ItemView>) -> Option<ApprovalView> {
    let n = s.len() as int;
    let a0 = skip_ws(s, 0, n);
    let b0 = skip_word(s, a0, n);
    let a1 = skip_ws(s, b0, n);
    let b1 = skip_word(s, a1, n);
    let t0 = s.subrange(a0, b0);
    let t1 = s.subrange(a1, b1);
    if a0 == n {
        None
    } else if a1 == n {
        if decision_of(t0) is Some {
            Some(ApprovalView::All(decision_of(t0)->0))
        } else if is_pending(reg, t0) {
            Some(ApprovalView::One(t0, true))
        } else {
            None
        }
    } else if decision_of(t0) is Some && t1 == "all"@ {
        Some(ApprovalView::All(decision_of(t0)->0))
    } else if decision_of(t0) is Some && is_pending(reg, t1) {
        Some(ApprovalView::One(t1, decision_of(t0)->0))
    } else if decision_of(t1) is Some && t0 == "all"@ {
        Some(ApprovalView::All(decision_of(t1)->0))
    } else if decision_of(t1) is Some && is_pending(reg, t0) {
        Some(ApprovalView::One(t0, decision_of(t1)->0))
    } else {
        None
    }
}

/// Reads an approval utterance against the tools pending in `registry`.
pub fn parse_lua_approval(input: &str, registry: &Manager) -> (r: Option<(bool, ApprovalTarget)>)
    requires
        registry.wf(),
    ensures
        approval_view(r) == approval_of(input@, registry@),
{
    let n = input.unicode_len();
    let a0 = scan_ws(input, 0, n);
    if a0 == n {
        return None;
    }
    let b0 = scan_word(input, a0, n);
    let a1 = scan_ws(input, b0, n);
    let b1 = scan_word(input, a1, n);
    let t0 = input.substring_char(a0, b0);
    let t1 = input.substring_char(a1, b1);
    let d0 = decision_in(input, a0, b0);
    if a1 == n {
        if let Some(d) = d0 {
            return Some((d, ApprovalTarget::All));
        }
        if registry.find(t0, LuaCallStatus::WaitingReview).is_some() {
            return Some((true, ApprovalTarget::One(t0.to_owned())));
        }
        return None;
    }
    let d1 = decision_in(input, a1, b1);
    if let Some(d) = d0 {
        if str_eq(t1, "all") {
            return Some((d, ApprovalTarget::All));
        }
        if registry.find(t1, LuaCallStatus::WaitingReview).is_some() {
            return Some((d, ApprovalTarget::One(t1.to_owned())));
        }
    }
    if let Some(d) = d1 {
        if str_eq(t0, "all") {
            return Some((d, ApprovalTarget::All));
        }
        if registry.find(t0, LuaCallStatus::WaitingReview).is_some() {
            return Some((d, ApprovalTarget::One(t0.to_owned())));
        }
    }
    None
}

/// Something that happened, handed to the agent.
pub enum Event {
    /// Ctrl-C or a termination signal.
    Signal(Signal),
    /// A decoded operator line.
    Input(Input),
    /// A piece of assistant text from the model; empty ends a segment.
    AssistantChunk(String),
    /// The model requests a script run; `code` is `None` when its arguments carry none.
    ToolCall { id: String, code: Option<String>, timeout_sec: Option<u64> },
    /// The model call finished, after all its chunks and tool calls.
    Finished,
    /// The model call failed in transport.
    Failed(String),
    /// The runtime finished a script that the agent asked for.
    Executed { id: String, execution: LuaExecution },
}

/// Something the agent asks its surroundings to do, in order.
#[derive(PartialEq, Eq, Debug)]
pub enum Action {
    Output(Output),
    /// Append a user message to the history and start a model call.
    SendUser(String),
    /// Append `(id, output)` tool results to the history and start a model call.
    SendToolResults(Vec<(String, String)>),
    /// Run a script and report back with `Event::Executed`.
    Execute(ExecRequest),
    /// Abort the outstanding model call.
    CancelModel,
    /// Discard all script VM state.
    ResetRuntime,
    /// Leave the loop.
    Exit,
}

pub enum EventView {
    Signal(Signal),
    Input(InputView),
    AssistantChunk(Seq<char>),
    ToolCall { id: Seq<char>, code: Option<Seq<char>>, timeout_sec: Option<u64> },
    Finished,
    Failed(Seq<char>),
    Executed { id: Seq<char>, execution: LuaExecutionView },
}

pub enum ActionView {
    Output(OutputView),
    SendUser(Seq<char>),
    SendToolResults(Seq<(Seq<char>, Seq<char>)>),
    Execute(ExecView),
    CancelModel,
    ResetRuntime,
    Exit,
}

pub open spec fn pair_views(p: Seq<(String, String)>) -> Seq<(Seq<char>, Seq<char>)> {
    p.map_values(|x: (String, String)| (x.0@, x.1@))
}

impl View for Event {
    type V = EventView;

    open spec fn view(&self) -> EventView {
        match self {
            Event::Signal(s) => EventView::Signal(*s),
            Event::Input(i) => EventView::Input(i@),
            Event::AssistantChunk(t) => EventView::AssistantChunk(t@),
            Event::ToolCall { id, code, timeout_sec } => EventView::ToolCall {
                id: id@,
                code: match code {
                    Some(c) => Some(c@),
                    None => None,
                },
                timeout_sec: *timeout_sec,
            },
            Event::Finished => EventView::Finished,
            Event::Failed(m) => EventView::Failed(m@),
            Event::Executed { id, execution } => EventView::Executed {
                id: id@,
                execution: execution@,
            },
        }
    }
}

impl View for Action {
    type V = ActionView;

    open spec fn view(&self) -> ActionView {
        match self {
            Action::Output(o) => ActionView::Output(o@),
            Action::SendUser(t) => ActionView::SendUser(t@),
            Action::SendToolResults(p) => ActionView::SendToolResults(pair_views(p@)),
            Action::Execute(e) => ActionView::Execute(e@),
            Action::CancelModel => ActionView::CancelModel,
            Action::ResetRuntime => ActionView::ResetRuntime,
            Action::Exit => ActionView::Exit,
        }
    }
}

pub open spec fn action_views(a: Seq<Action>) -> Seq<ActionView> {
    a.map_values(|x: Action| x@)
}

/// The results shown for a batch: one per entry, in order.
pub open spec fn result_outputs(b: Seq<ItemView>) -> Seq<ActionView> {
    Seq::new(
        b.len(),
        |i: int| ActionView::Output(OutputView::LuaResult { id: b[i].id, output: b[i].output }),
    )
}

/// The `(id, output)` pairs a batch sends to the model.
pub open spec fn result_pairs(b: Seq<ItemView>) -> Seq<(Seq<char>, Seq<char>)> {
    Seq::new(b.len(), |i: int| (b[i].id, b[i].output))
}

/// No action sends a user message.
pub open spec fn quiet(a: Seq<ActionView>) -> bool {
    forall|i: int| 0 <= i < a.len() ==> !(#[trigger] a[i] is SendUser)
}

pub open spec fn has_tool_results(a: Seq<ActionView>) -> bool {
    exists|i: int| 0 <= i < a.len() && a[i] is SendToolResults
}

/// The observable state of the agent.
pub struct AgentView {
    pub registry: Seq<ItemView>,
    pub status: Status,
    /// Consecutive cancel signals since the last operator input.
    pub cancels: nat,
    /// The loop has ended.
    pub done: bool,
    /// The outstanding model call has delivered a tool call.
    pub call_has_tools: bool,
    /// Assistant text was shown and its segment not yet ended.
    pub segment_open: bool,
    /// The model named in the status block.
    pub model_name: Seq<char>,
    /// Tokens of the context in use, and the context's size, as last reported.
    pub context_used: u64,
    pub context_limit: u64,
}

pub open spec fn is_cancel_signal(e: EventView) -> bool {
    e == EventView::Signal(Signal::Cancel)
}

pub open spec fn is_input(e: EventView) -> bool {
    e is Input
}

pub open spec fn is_reset_vm(e: EventView) -> bool {
    e is Input && e->Input_0 is Command && e->Input_0->Command_cmd == Command::ResetVM
}

/// What every step of the agent guarantees, from state `o` under event `e` to state
/// `n` with actions `a`.
pub open spec fn step_ok(o: AgentView, e: EventView, n: AgentView, a: Seq<ActionView>) -> bool {
    // A finished agent does nothing more.
    &&& o.done ==> n == o && a.len() == 0
    &&& n.done && !o.done ==> a.len() > 0 && a.last() == ActionView::Exit
    // A cancel signal counts; a second one with no input in between ends the loop.
    &&& is_cancel_signal(e) && !o.done ==> n.done || n.cancels == o.cancels + 1
    &&& is_cancel_signal(e) && o.cancels >= 1 ==> n.done
    &&& !is_cancel_signal(e) && !is_input(e) ==> n.done || n.cancels == o.cancels
    // The status moves along the edges of the adapter's graph.
    &&& allowed(o.status, n.status)
    // A user message is sent only with no tool calls outstanding.
    &&& !quiet(a) ==> o.registry.len() == 0
    // Entries arrive only from tool calls, and leave only in a submitted batch,
    // on a VM reset, or at exit.
    &&& !(e is ToolCall) ==> n.registry.len() <= o.registry.len()
    &&& o.registry.len() > 0 && n.registry.len() == 0 ==> has_tool_results(a) || is_reset_vm(e)
        || n.done
}

/// The step that submits a complete batch: every result is shown in order and, if
/// `send` and no model call is outstanding, the batch goes to the model.
pub open spec fn deliver(o: AgentView, send: bool) -> (AgentView, Seq<ActionView>) {
    let v = o.registry;
    if (!send || o.status != Status::Generating) && v.len() > 0 && all_terminal(v) {
        if send {
            (
                AgentView {
                    registry: Seq::empty(),
                    status: Status::Generating,
                    call_has_tools: false,
                    segment_open: false,
                    ..o
                },
                result_outputs(v) + seq![ActionView::SendToolResults(result_pairs(v))],
            )
        } else {
            (AgentView { registry: Seq::empty(), ..o }, result_outputs(v))
        }
    } else {
        (o, Seq::empty())
    }
}

pub open spec fn system_msg(m: Seq<char>) -> ActionView {
    ActionView::Output(OutputView::SystemMsg(m))
}

pub open spec fn input_ready() -> ActionView {
    ActionView::Output(OutputView::InputReady)
}

/// Exit: abort the model call, reject what waits, show the results, say goodbye.
pub open spec fn exit_step(o: AgentView) -> (AgentView, Seq<ActionView>) {
    let o1 = AgentView { status: Status::Idle, registry: decided_all(o.registry, false), ..o };
    let (o2, a2) = deliver(o1, false);
    (
        AgentView { done: true, ..o2 },
        seq![ActionView::CancelModel] + a2 + seq![system_msg(GOODBYE@), ActionView::Exit],
    )
}

/// A cancel: the second in a row exits; the first aborts the model call, rejects what
/// waits and submits the batch.
pub open spec fn cancel_step(o: AgentView) -> (AgentView, Seq<ActionView>) {
    if o.cancels >= 1 {
        exit_step(o)
    } else {
        let reg = decided_all(o.registry, false);
        let o1 = AgentView {
            cancels: o.cancels + 1,
            status: Status::Idle,
            segment_open: false,
            registry: started(reg),
            ..o
        };
        let (o2, a2) = deliver(o1, true);
        (
            o2,
            seq![ActionView::CancelModel] + execute_actions(runs_due(reg)) + a2 + seq![
                system_msg(CANCELLED@),
                input_ready(),
            ],
        )
    }
}

pub open spec fn execute_actions(r: Seq<ExecView>) -> Seq<ActionView> {
    Seq::new(r.len(), |i: int| ActionView::Execute(r[i]))
}

/// An approval decision: once no entry waits any more, the runs of the accepted
/// entries; then the batch if complete; then the prompt unless a model call is now
/// outstanding.
pub open spec fn approval_step(o: AgentView, ap: ApprovalView) -> (AgentView, Seq<ActionView>) {
    if ap is One && index_with(o.registry, ap->One_0, LuaCallStatus::WaitingReview) is None {
        // nothing waits under that id: nothing changes and nothing is shown
        (o, Seq::empty())
    } else {
        approval_applied(o, ap)
    }
}

/// The registry after an approval decision.
pub open spec fn approval_registry(reg: Seq<ItemView>, ap: ApprovalView) -> Seq<ItemView> {
    match ap {
        ApprovalView::All(d) => decided_all(reg, d),
        ApprovalView::One(id, d) => match index_with(reg, id, LuaCallStatus::WaitingReview) {
            Some(i) => reg.update(i, decided(reg[i], d)),
            None => reg,
        },
    }
}

/// An approval decision on waiting entries.
pub open spec fn approval_applied(o: AgentView, ap: ApprovalView) -> (AgentView, Seq<ActionView>) {
    let reg = approval_registry(o.registry, ap);
    let execs = execute_actions(runs_due(reg));
    let (o2, a2) = deliver(AgentView { registry: started(reg), ..o }, true);
    (o2, execs + a2 + if o2.status != Status::Generating {
        seq![input_ready()]
    } else {
        Seq::empty()
    })
}

/// Free text: an approval utterance while tools wait; dropped while the model answers;
/// otherwise sent as a user message.
pub open spec fn text_step(o: AgentView, line: Seq<char>) -> (AgentView, Seq<ActionView>) {
    if !none_waiting(o.registry) {
        match approval_of(line, o.registry) {
            Some(ap) => approval_step(o, ap),
            None => (o, seq![system_msg(NOT_RECOGNIZED@), input_ready()]),
        }
    } else if o.status == Status::Generating {
        (o, seq![system_msg(BUSY@)])
    } else if o.status == Status::Idle && o.registry.len() == 0 {
        (
            AgentView {
                status: Status::Generating,
                call_has_tools: false,
                segment_open: false,
                ..o
            },
            seq![ActionView::SendUser(line)],
        )
    } else {
        (o, seq![system_msg(TOOLS_RUNNING@), input_ready()])
    }
}

pub open spec fn status_word(s: Status) -> Seq<char> {
    match s {
        Status::Idle => "idle"@,
        Status::Generating => "generating"@,
        Status::WaitForLuaResult => "waiting for tool decisions"@,
    }
}

/// The `/status` block.
pub open spec fn status_block(o: AgentView) -> Seq<char> {
    "Model: "@ + o.model_name + "\nStatus: "@ + status_word(o.status) + "\nPending tools: "@
        + decimal(pending_ids(o.registry).len()) + "\nContext: "@ + decimal(o.context_used as nat)
        + "/"@ + decimal(o.context_limit as nat)
}

/// A slash command.
pub open spec fn command_step(o: AgentView, cmd: Command) -> (AgentView, Seq<ActionView>) {
    match cmd {
        Command::Exit => exit_step(o),
        Command::Cancel => cancel_step(o),
        Command::Help => (o, seq![system_msg(HELP@), input_ready()]),
        Command::Status => (o, seq![system_msg(status_block(o)), input_ready()]),
        Command::ResetVM => (
            AgentView {
                registry: Seq::empty(),
                status: if o.status == Status::WaitForLuaResult {
                    Status::Idle
                } else {
                    o.status
                },
                ..o
            },
            seq![ActionView::ResetRuntime, system_msg(VM_RESET@), input_ready()],
        ),
        Command::Approve | Command::Reject => if !none_waiting(o.registry) {
            approval_step(o, ApprovalView::All(cmd == Command::Approve))
        } else {
            (o, seq![system_msg(NO_PENDING@), input_ready()])
        },
        Command::Compact | Command::ApproveAlways => (
            o,
            seq![system_msg(NOT_SUPPORTED@ + canonical_name(cmd)), input_ready()],
        ),
    }
}

/// The end of a model call.
pub open spec fn finish_step(o: AgentView) -> (AgentView, Seq<ActionView>) {
    if o.status != Status::Generating {
        (o, Seq::empty())
    } else {
        let o1 = AgentView {
            status: if o.call_has_tools {
                Status::WaitForLuaResult
            } else {
                Status::Idle
            },
            segment_open: false,
            ..o
        };
        let a1 = if o.segment_open {
            seq![ActionView::Output(OutputView::AssistantMsg(Seq::empty()))]
        } else {
            Seq::empty()
        };
        let (o2, a2) = deliver(o1, true);
        (o2, a1 + a2 + seq![input_ready()])
    }
}

/// The new entry for a tool call.
pub open spec fn new_entry(id: Seq<char>, code: Seq<char>, t: Option<u64>) -> ItemView {
    ItemView {
        id,
        code,
        timeout_sec: t,
        status: LuaCallStatus::WaitingReview,
        output: Seq::empty(),
    }
}

/// The agent's transition: the next state and the actions, for each event.
pub open spec fn step_spec(o: AgentView, e: EventView) -> (AgentView, Seq<ActionView>) {
    if o.done {
        (o, Seq::empty())
    } else {
        match e {
            EventView::Signal(Signal::Exit) => exit_step(o),
            EventView::Signal(Signal::Cancel) => cancel_step(o),
            EventView::Input(i) => {
                let o0 = AgentView { cancels: 0, ..o };
                match i {
                    InputView::Text(line) => text_step(o0, line),
                    InputView::Command { cmd, .. } => command_step(o0, cmd),
                }
            },
            EventView::AssistantChunk(t) => if o.status == Status::Generating {
                (
                    AgentView { segment_open: t.len() > 0, ..o },
                    seq![ActionView::Output(OutputView::AssistantMsg(t))],
                )
            } else {
                (o, Seq::empty())
            },
            EventView::ToolCall { id, code, timeout_sec } => if o.status != Status::Generating {
                (o, Seq::empty())
            } else if code is None {
                (o, seq![system_msg(NO_CODE@ + id)])
            } else if has_id(o.registry, id) {
                (o, seq![system_msg(DUPLICATE_CALL@ + id)])
            } else {
                (
                    AgentView {
                        registry: o.registry.push(new_entry(id, code->0, timeout_sec)),
                        call_has_tools: true,
                        ..o
                    },
                    seq![ActionView::Output(OutputView::LuaCode { id, code: code->0 })],
                )
            },
            EventView::Finished => finish_step(o),
            EventView::Failed(m) => if o.status == Status::Generating {
                (
                    AgentView { status: Status::Idle, segment_open: false, ..o },
                    seq![system_msg(SEND_FAILED@ + m), input_ready()],
                )
            } else {
                (o, Seq::empty())
            },
            EventView::Executed { id, execution } => match index_with(
                o.registry,
                id,
                LuaCallStatus::Executing,
            ) {
                Some(i) => deliver(
                    AgentView {
                        registry: with_status(
                            o.registry,
                            i,
                            LuaCallStatus::Approved,
                            rendered(execution),
                        ),
                        ..o
                    },
                    true,
                ),
                None => (o, Seq::empty()),
            },
        }
    }
}

/// Event `es[k]` takes `states[k]` to `states[k + 1]` with actions `acts[k]`.
pub open spec fn is_run(states: Seq<AgentView>, es: Seq<EventView>, acts: Seq<Seq<ActionView>>) -> bool {
    &&& states.len() == es.len() + 1
    &&& acts.len() == es.len()
    &&& forall|k: int| 0 <= k < es.len() ==> step_ok(states[k], #[trigger] es[k], states[k + 1], acts[k])
}

/// From position `k` to the last event, with no input in between, a pending cancel
/// (or the end of the loop) is kept.
proof fn lemma_cancel_kept(
    states: Seq<AgentView>,
    es: Seq<EventView>,
    acts: Seq<Seq<ActionView>>,
    k: int,
)
    requires
        is_run(states, es, acts),
        1 <= k <= es.len() - 1,
        forall|j: int| 0 < j < es.len() - 1 ==> !is_input(#[trigger] es[j]),
        states[k].done || states[k].cancels >= 1,
    ensures
        states[es.len() - 1].done || states[es.len() - 1].cancels >= 1,
    decreases es.len() - 1 - k,
{
    if k < es.len() - 1 {
        assert(step_ok(states[k], es[k], states[k + 1], acts[k]));
        assert(!is_input(es[k]));
        lemma_cancel_kept(states, es, acts, k + 1);
    }
}

/// Two cancel signals with no operator input in between end the loop.
pub proof fn lemma_double_cancel_exits(
    states: Seq<AgentView>,
    es: Seq<EventView>,
    acts: Seq<Seq<ActionView>>,
)
    requires
        is_run(states, es, acts),
        es.len() >= 2,
        is_cancel_signal(es[0]),
        is_cancel_signal(es.last()),
        forall|k: int| 0 < k < es.len() - 1 ==> !is_input(#[trigger] es[k]),
    ensures
        states.last().done,
{
    let m = es.len() - 1;
    assert(step_ok(states[0], es[0], states[1], acts[0]));
    lemma_cancel_kept(states, es, acts, 1);
    assert(step_ok(states[m], es[m], states[m + 1], acts[m]));
}

/// With no tool call among the events, an empty registry stays empty.
pub proof fn lemma_registry_fills_only_by_tool_calls(
    states: Seq<AgentView>,
    es: Seq<EventView>,
    acts: Seq<Seq<ActionView>>,
)
    requires
        is_run(states, es, acts),
        states[0].registry.len() == 0,
        forall|k: int| 0 <= k < es.len() ==> !(#[trigger] es[k] is ToolCall),
    ensures
        forall|k: int| 0 <= k < states.len() ==> (#[trigger] states[k]).registry.len() == 0,
    decreases es.len(),
{
    if es.len() > 0 {
        let n = es.len() - 1;
        lemma_registry_fills_only_by_tool_calls(states.drop_last(), es.drop_last(), acts.drop_last());
        assert(states.drop_last()[n] == states[n]);
        assert(step_ok(states[n], es[n], states[n + 1], acts[n]));
        assert forall|k: int| 0 <= k < states.len() implies (#[trigger] states[k]).registry.len() == 0 by {
            if k < n + 1 {
                assert(states.drop_last()[k] == states[k]);
            }
        };
    }
}

/// A registry that held entries and is empty at the end of a run was drained by a
/// step that submitted a batch, reset the VM, or ended the loop.
pub proof fn lemma_registry_drains_only_by_batch(
    states: Seq<AgentView>,
    es: Seq<EventView>,
    acts: Seq<Seq<ActionView>>,
)
    requires
        is_run(states, es, acts),
        states[0].registry.len() > 0,
        states.last().registry.len() == 0,
    ensures
        exists|k: int|
            0 <= k < es.len() && (has_tool_results(#[trigger] acts[k]) || is_reset_vm(es[k])
                || states[k + 1].done),
    decreases es.len(),
{
    let n = es.len() - 1;
    assert(step_ok(states[n], es[n], states[n + 1], acts[n]));
    if states[n].registry.len() > 0 {
        assert(has_tool_results(acts[n]) || is_reset_vm(es[n]) || states[n + 1].done);
    } else {
        assert(n >= 1);
        assert forall|k: int| 0 <= k < n implies step_ok(
            states.drop_last()[k],
            #[trigger] es.drop_last()[k],
            states.drop_last()[k + 1],
            acts.drop_last()[k],
        ) by {
            assert(step_ok(states[k], es[k], states[k + 1], acts[k]));
        };
        lemma_registry_drains_only_by_batch(states.drop_last(), es.drop_last(), acts.drop_last());
        let k = choose|k: int|
            0 <= k < n && (has_tool_results(#[trigger] acts.drop_last()[k]) || is_reset_vm(
                es.drop_last()[k],
            ) || states.drop_last()[k + 1].done);
        assert(acts[k] == acts.drop_last()[k]);
    }
}

/// Once a tool call has put an entry in the registry, a later user message is sent
/// only after a step that submitted a batch, reset the VM, or ended the loop.
pub proof fn lemma_user_message_waits_for_batch(
    states: Seq<AgentView>,
    es: Seq<EventView>,
    acts: Seq<Seq<ActionView>>,
)
    requires
        is_run(states, es, acts),
        es.len() >= 1,
        states[0].registry.len() > 0,
        !quiet(acts.last()),
    ensures
        exists|k: int|
            0 <= k < es.len() - 1 && (has_tool_results(#[trigger] acts[k]) || is_reset_vm(es[k])
                || states[k + 1].done),
{
    let n = es.len() - 1;
    assert(step_ok(states[n], es[n], states[n + 1], acts[n]));
    assert(states[n].registry.len() == 0);
    assert(n >= 1);
    let st = states.drop_last();
    let ev = es.drop_last();
    let ac = acts.drop_last();
    assert forall|k: int| 0 <= k < ev.len() implies step_ok(st[k], #[trigger] ev[k], st[k + 1], ac[k]) by {
        assert(step_ok(states[k], es[k], states[k + 1], acts[k]));
    };
    assert(st.last() == states[n]);
    lemma_registry_drains_only_by_batch(st, ev, ac);
    let k = choose|k: int|
        0 <= k < ev.len() && (has_tool_results(#[trigger] ac[k]) || is_reset_vm(ev[k]) || st[k
            + 1].done);
    assert(acts[k] == ac[k]);
}

/// A batch reports each of its entries exactly once, with the entry's output.
pub proof fn lemma_batch_reports_each_once(v: Seq<ItemView>, i: int)
    requires
        ids_unique(v),
        0 <= i < v.len(),
    ensures
        result_outputs(v)[i] == ActionView::Output(
            OutputView::LuaResult { id: v[i].id, output: v[i].output },
        ),
        result_pairs(v)[i] == (v[i].id, v[i].output),
        forall|j: int|
            0 <= j < v.len() && (#[trigger] result_outputs(v)[j])->Output_0->LuaResult_id == v[i].id
                ==> j == i,
{
    assert forall|j: int|
        0 <= j < v.len() && (#[trigger] result_outputs(v)[j])->Output_0->LuaResult_id == v[i].id
            implies j == i by {
        assert(result_outputs(v)[j] == ActionView::Output(
            OutputView::LuaResult { id: v[j].id, output: v[j].output },
        ));
    };
}

/// With no entry accepted, no run is due.
proof fn lemma_no_accepted_no_runs(w: Seq<ItemView>)
    requires
        forall|i: int| 0 <= i < w.len() ==> #[trigger] w[i].status != LuaCallStatus::Accepted,
    ensures
        requests_for_accepted(w) == Seq::<ExecView>::empty(),
    decreases w.len(),
{
    if w.len() > 0 {
        let u = w.drop_last();
        assert forall|i: int| 0 <= i < u.len() implies #[trigger] u[i].status != LuaCallStatus::Accepted by {
            assert(u[i] == w[i]);
        };
        lemma_no_accepted_no_runs(u);
        assert(w.last() == w[w.len() - 1]);
    }
}

/// Once its runs are asked for, a registry with no waiting entry has no accepted one,
/// and asking again changes nothing.
proof fn lemma_started_settles(v: Seq<ItemView>)
    requires
        none_waiting(v),
    ensures
        none_waiting(started(v)),
        forall|i: int| 0 <= i < started(v).len() ==> #[trigger] started(v)[i].status != LuaCallStatus::Accepted,
        started(started(v)) == started(v),
        decided_all(started(v), false) == started(v),
        runs_due(started(v)) == Seq::<ExecView>::empty(),
{
    let w = started(v);
    assert forall|i: int| 0 <= i < w.len() implies #[trigger] w[i].status != LuaCallStatus::WaitingReview by {};
    assert forall|i: int| 0 <= i < w.len() implies #[trigger] w[i].status != LuaCallStatus::Accepted by {};
    assert(started(w) =~= w);
    assert(decided_all(w, false) =~= w);
    lemma_no_accepted_no_runs(w);
}

/// Runs are asked for only when no entry waits any more, and only once: after they
/// are asked for, none is due.
pub proof fn lemma_runs_asked_once(v: Seq<ItemView>)
    ensures
        runs_due(v).len() > 0 ==> none_waiting(v),
        runs_due(started(v)) == Seq::<ExecView>::empty(),
{
    if none_waiting(v) {
        lemma_started_settles(v);
    } else {
        assert(started(v) == v);
    }
}

/// After an approval decision (with no model call outstanding, on a non-empty
/// registry), the registry is empty exactly when every entry is decided and has run;
/// exactly then the batch of all its entries goes to the model. Otherwise every entry
/// stays, and the step asks only for the runs that became due.
pub proof fn lemma_approval_drains_iff_complete(o: AgentView, ap: ApprovalView)
    requires
        o.status != Status::Generating,
        o.registry.len() > 0,
        !(ap is One && index_with(o.registry, ap->One_0, LuaCallStatus::WaitingReview) is None),
    ensures
        ({
            let reg = approval_registry(o.registry, ap);
            let runs = execute_actions(runs_due(reg));
            let (n, a) = approval_step(o, ap);
            &&& reg.len() == o.registry.len()
            &&& (n.registry.len() == 0 <==> all_terminal(reg))
            &&& n.registry.len() == 0 ==> a == result_outputs(reg) + seq![
                ActionView::SendToolResults(result_pairs(reg)),
            ]
            &&& n.registry.len() != 0 ==> n.registry == started(reg) && a == runs + seq![
                input_ready(),
            ]
        }),
{
    let reg = approval_registry(o.registry, ap);
    assert(reg.len() == o.registry.len());
    let reg2 = started(reg);
    if all_terminal(reg) {
        assert(none_waiting(reg));
        assert(reg2 =~= reg);
        assert forall|i: int| 0 <= i < reg.len() implies #[trigger] reg[i].status != LuaCallStatus::Accepted by {};
        lemma_no_accepted_no_runs(reg);
        assert(runs_due(reg) =~= Seq::<ExecView>::empty());
        assert(execute_actions(runs_due(reg)) =~= Seq::<ActionView>::empty());
        assert(approval_step(o, ap).1 =~= Seq::<ActionView>::empty() + result_outputs(reg) + seq![
            ActionView::SendToolResults(result_pairs(reg)),
        ] + Seq::<ActionView>::empty());
    } else {
        let i = choose|i: int|
            0 <= i < reg.len() && !(reg[i].status == LuaCallStatus::Approved || reg[i].status
                == LuaCallStatus::Rejected);
        assert(!(reg2[i].status == LuaCallStatus::Approved || reg2[i].status == LuaCallStatus::Rejected));
        assert(!all_terminal(reg2));
        assert(approval_step(o, ap).1 =~= execute_actions(runs_due(reg)) + Seq::<ActionView>::empty()
            + seq![input_ready()]);
    }
}

/// A submitted batch shows one result per entry, in insertion order, and then sends
/// exactly those entries' `(id, output)` pairs, in the same order.
pub proof fn lemma_batch_shape(o: AgentView)
    requires
        o.status != Status::Generating,
        o.registry.len() > 0,
        all_terminal(o.registry),
    ensures
        ({
            let v = o.registry;
            let a = deliver(o, true).1;
            &&& a.len() == v.len() + 1
            &&& forall|i: int|
                0 <= i < v.len() ==> #[trigger] a[i] == ActionView::Output(
                    OutputView::LuaResult { id: v[i].id, output: v[i].output },
                )
            &&& a[v.len() as int] == ActionView::SendToolResults(result_pairs(v))
            &&& forall|i: int| 0 <= i < v.len() ==> #[trigger] result_pairs(v)[i] == (v[i].id, v[i].output)
            &&& deliver(o, true).0.registry.len() == 0
        }),
{
    let v = o.registry;
    let a = deliver(o, true).1;
    assert forall|i: int| 0 <= i < v.len() implies #[trigger] a[i] == ActionView::Output(
        OutputView::LuaResult { id: v[i].id, output: v[i].output },
    ) by {
        assert(a[i] == result_outputs(v)[i]);
    };
}

/// `x` is the run of an accepted entry of `v`.
pub open spec fn is_run_of_accepted(v: Seq<ItemView>, x: ExecView) -> bool {
    exists|i: int| 0 <= i < v.len() && v[i].status == LuaCallStatus::Accepted && x == request_for(v[i])
}

/// Every run asked for is that of an accepted entry, with its recorded code and its
/// timeout (ten seconds when none was given); every accepted entry gets one; and the
/// runs name distinct ids, so no entry runs twice.
pub proof fn lemma_runs_match_accepted(v: Seq<ItemView>)
    requires
        ids_unique(v),
    ensures
        ({
            let r = requests_for_accepted(v);
            &&& forall|k: int| 0 <= k < r.len() ==> is_run_of_accepted(v, #[trigger] r[k])
            &&& forall|i: int|
                0 <= i < v.len() && #[trigger] v[i].status == LuaCallStatus::Accepted
                    ==> exists|k: int| 0 <= k < r.len() && r[k] == request_for(v[i])
            &&& forall|k1: int, k2: int| 0 <= k1 < k2 < r.len() ==> r[k1].id != r[k2].id
        }),
    decreases v.len(),
{
    if v.len() > 0 {
        let w = v.drop_last();
        assert forall|i: int, j: int| 0 <= i < w.len() && 0 <= j < w.len() && i != j implies w[i].id != w[j].id by {
            assert(w[i] == v[i] && w[j] == v[j]);
        };
        lemma_runs_match_accepted(w);
        let rw = requests_for_accepted(w);
        let r = requests_for_accepted(v);
        let last = v.len() - 1;
        assert(v.last() == v[last]);
        assert(r == if v[last].status == LuaCallStatus::Accepted {
            rw.push(request_for(v[last]))
        } else {
            rw
        });
        assert forall|k: int| 0 <= k < r.len() implies is_run_of_accepted(v, #[trigger] r[k]) by {
            if k < rw.len() {
                assert(r[k] == rw[k]);
                assert(is_run_of_accepted(w, rw[k]));
                let i = choose|i: int|
                    0 <= i < w.len() && w[i].status == LuaCallStatus::Accepted && rw[k]
                        == request_for(w[i]);
                assert(w[i] == v[i]);
            } else {
                assert(v[last].status == LuaCallStatus::Accepted);
                assert(r[k] == request_for(v[last]));
            }
        };
        assert forall|i: int|
            0 <= i < v.len() && #[trigger] v[i].status == LuaCallStatus::Accepted implies exists|k: int|
                0 <= k < r.len() && r[k] == request_for(v[i]) by {
            if i < last {
                assert(w[i] == v[i]);
                assert(w[i].status == LuaCallStatus::Accepted);
                let k = choose|k: int| 0 <= k < rw.len() && rw[k] == request_for(w[i]);
                assert(r[k] == rw[k]);
            } else {
                assert(r[rw.len() as int] == request_for(v[last]));
            }
        };
        assert forall|k1: int, k2: int| 0 <= k1 < k2 < r.len() implies r[k1].id != r[k2].id by {
            if k2 < rw.len() {
                assert(r[k1] == rw[k1] && r[k2] == rw[k2]);
            } else {
                assert(r[k1] == rw[k1]);
                assert(is_run_of_accepted(w, rw[k1]));
                let i = choose|i: int|
                    0 <= i < w.len() && w[i].status == LuaCallStatus::Accepted && rw[k1]
                        == request_for(w[i]);
                assert(w[i] == v[i]);
                assert(r[k2] == request_for(v[last]));
            }
        };
    }
}

/// A rejected entry never runs: no run that is due names it, and rejecting gives it the
/// rejection text, which is the output its batch reports.
pub proof fn lemma_rejected_never_run(v: Seq<ItemView>, i: int)
    requires
        ids_unique(v),
        0 <= i < v.len(),
        v[i].status == LuaCallStatus::Rejected,
    ensures
        forall|k: int| 0 <= k < runs_due(v).len() ==> #[trigger] runs_due(v)[k].id != v[i].id,
        decided(v[i], false).output == REJECTED_OUTPUT@,
{
    lemma_runs_match_accepted(v);
    assert forall|k: int| 0 <= k < runs_due(v).len() implies #[trigger] runs_due(v)[k].id != v[i].id by {
        let r = requests_for_accepted(v);
        assert(runs_due(v) == r);
        assert(0 <= k < r.len());
        assert(is_run_of_accepted(v, r[k]));
        let j = choose|j: int|
            0 <= j < v.len() && v[j].status == LuaCallStatus::Accepted && r[k] == request_for(v[j]);
        assert(j != i);
    };
}

/// Every step moves the adapter status along an edge of its graph.
pub proof fn lemma_step_follows_status_graph(o: AgentView, e: EventView)
    ensures
        allowed(o.status, step_spec(o, e).0.status),
{
}

/// `/cancel` twice in a row acts as `/cancel` once, unless the first submitted a batch
/// (which starts a model call that the second aborts): the same state, and the second
/// only aborts the model call, says so and prompts.
pub proof fn lemma_cancel_command_idempotent(o: AgentView)
    requires
        !o.done,
        step_spec(
            o,
            EventView::Input(InputView::Command { cmd: Command::Cancel, arg: Seq::empty(), body: Seq::empty() }),
        ).0.status != Status::Generating,
    ensures
        ({
            let c = EventView::Input(InputView::Command { cmd: Command::Cancel, arg: Seq::empty(), body: Seq::empty() });
            let (o1, a1) = step_spec(o, c);
            let (o2, a2) = step_spec(o1, c);
            &&& o2 == o1
            &&& a2 == seq![ActionView::CancelModel, system_msg(CANCELLED@), input_ready()]
        }),
{
    let c = EventView::Input(InputView::Command { cmd: Command::Cancel, arg: Seq::empty(), body: Seq::empty() });
    let reg = decided_all(o.registry, false);
    assert(none_waiting(reg));
    lemma_started_settles(reg);
    let r = started(reg);
    let o1 = step_spec(o, c).0;
    assert(o1.registry == r);
    assert(execute_actions(Seq::<ExecView>::empty()) =~= Seq::<ActionView>::empty());
    assert(step_spec(o1, c).1 =~= seq![ActionView::CancelModel] + Seq::<ActionView>::empty()
        + Seq::<ActionView>::empty() + seq![system_msg(CANCELLED@), input_ready()]);
}

/// The agent.
pub struct Agent {
    registry: Manager,
    status: Status,
    cancels: u64,
    done: bool,
    /// The outstanding model call has delivered a tool call.
    call_has_tools: bool,
    /// Assistant text was shown and its segment not yet ended.
    segment_open: bool,
    model_name: String,
    context_used: u64,
    context_limit: u64,
}

impl View for Agent {
    type V = AgentView;

    closed spec fn view(&self) -> AgentView {
        AgentView {
            registry: self.registry@,
            status: self.status,
            cancels: self.cancels as nat,
            done: self.done,
            call_has_tools: self.call_has_tools,
            segment_open: self.segment_open,
            model_name: self.model_name@,
            context_used: self.context_used,
            context_limit: self.context_limit,
        }
    }
}

fn push_action(acts: &mut Vec<Action>, a: Action)
    ensures
        action_views(final(acts)@) == action_views(old(acts)@).push(a@),
        has_tool_results(action_views(old(acts)@)) ==> has_tool_results(action_views(final(acts)@)),
        quiet(action_views(old(acts)@)) && !(a@ is SendUser) ==> quiet(action_views(final(acts)@)),
{
    let ghost before = action_views(acts@);
    acts.push(a);
    assert(action_views(acts@) =~= before.push(a@));
    proof {
        if has_tool_results(before) {
            let i = choose|i: int| 0 <= i < before.len() && before[i] is SendToolResults;
            assert(action_views(acts@)[i] is SendToolResults);
        }
    }
}

fn say(acts: &mut Vec<Action>, msg: &str)
    ensures
        action_views(final(acts)@) == action_views(old(acts)@).push(
            ActionView::Output(OutputView::SystemMsg(msg@)),
        ),
        has_tool_results(action_views(old(acts)@)) ==> has_tool_results(action_views(final(acts)@)),
        quiet(action_views(old(acts)@)) ==> quiet(action_views(final(acts)@)),
{
    push_action(acts, Action::Output(Output::SystemMsg(msg.to_owned())));
}

fn prompt(acts: &mut Vec<Action>)
    ensures
        action_views(final(acts)@) == action_views(old(acts)@).push(
            ActionView::Output(OutputView::InputReady),
        ),
        has_tool_results(action_views(old(acts)@)) ==> has_tool_results(action_views(final(acts)@)),
        quiet(action_views(old(acts)@)) ==> quiet(action_views(final(acts)@)),
{
    push_action(acts, Action::Output(Output::InputReady));
}

fn concat(a: &str, b: &str) -> (r: String)
    ensures
        r@ == a@ + b@,
{
    let mut r = a.to_owned();
    r.append(b);
    r
}

/// Every rejected entry carries the rejection text.
pub open spec fn rejections_fixed(v: Seq<ItemView>) -> bool {
    forall|i: int|
        0 <= i < v.len() && #[trigger] v[i].status == LuaCallStatus::Rejected ==> v[i].output
            == REJECTED_OUTPUT@
}

proof fn lemma_decided_all_fixed(v: Seq<ItemView>, approve: bool)
    requires
        rejections_fixed(v),
    ensures
        rejections_fixed(decided_all(v, approve)),
{
    let w = decided_all(v, approve);
    assert forall|i: int|
        0 <= i < w.len() && #[trigger] w[i].status == LuaCallStatus::Rejected implies w[i].output
        == REJECTED_OUTPUT@ by {
        assert(w[i] == (if v[i].status == LuaCallStatus::WaitingReview {
            decided(v[i], approve)
        } else {
            v[i]
        }));
    };
}

proof fn lemma_decided_fixed(v: Seq<ItemView>, i: int, approve: bool)
    requires
        rejections_fixed(v),
        0 <= i < v.len(),
    ensures
        rejections_fixed(v.update(i, decided(v[i], approve))),
{
    let w = v.update(i, decided(v[i], approve));
    assert forall|k: int|
        0 <= k < w.len() && #[trigger] w[k].status == LuaCallStatus::Rejected implies w[k].output
        == REJECTED_OUTPUT@ by {
        if k != i {
            assert(w[k] == v[k]);
        }
    };
}

proof fn lemma_started_fixed(v: Seq<ItemView>)
    requires
        rejections_fixed(v),
    ensures
        rejections_fixed(started(v)),
        started(v).len() == v.len(),
{
    let w = started(v);
    assert forall|i: int|
        0 <= i < w.len() && #[trigger] w[i].status == LuaCallStatus::Rejected implies w[i].output
        == REJECTED_OUTPUT@ by {
        if none_waiting(v) {
            assert(w[i] == (if v[i].status == LuaCallStatus::Accepted {
                ItemView { status: LuaCallStatus::Executing, ..v[i] }
            } else {
                v[i]
            }));
        }
    };
}

impl Agent {
    pub closed spec fn wf(&self) -> bool {
        &&& self.registry.wf()
        &&& self.cancels <= 1
        &&& rejections_fixed(self.registry@)
    }

    pub fn new(model_name: &str) -> (r: Agent)
        ensures
            r.wf(),
            r@ == (AgentView {
                registry: Seq::empty(),
                status: Status::Idle,
                cancels: 0,
                done: false,
                call_has_tools: false,
                segment_open: false,
                model_name: model_name@,
                context_used: 0,
                context_limit: 0,
            }),
    {
        Agent {
            registry: Manager::new(),
            status: Status::Idle,
            cancels: 0,
            done: false,
            call_has_tools: false,
            segment_open: false,
            model_name: model_name.to_owned(),
            context_used: 0,
            context_limit: 0,
        }
    }

    pub fn status(&self) -> (r: Status)
        ensures
            r == self@.status,
    {
        self.status
    }

    pub fn is_done(&self) -> (r: bool)
        ensures
            r == self@.done,
    {
        self.done
    }

    pub fn registry(&self) -> (r: &Manager)
        ensures
            r@ == self@.registry,
            self.wf() ==> r.wf(),
    {
        &self.registry
    }

    /// When every entry is decided and executed, shows each result and, if `send`,
    /// submits the batch; with `send` this waits while a model call is outstanding.
    fn deliver_batch(&mut self, acts: &mut Vec<Action>, send: bool)
        requires
            old(self).wf(),
        ensures
            final(self).wf(),
            final(self)@.done == old(self)@.done,
            final(self)@.cancels == old(self)@.cancels,
            allowed(old(self)@.status, final(self)@.status),
            final(self)@.registry.len() <= old(self)@.registry.len(),
            quiet(action_views(old(acts)@)) ==> quiet(action_views(final(acts)@)),
            has_tool_results(action_views(old(acts)@)) ==> has_tool_results(action_views(final(acts)@)),
            send && old(self)@.registry.len() > 0 && final(self)@.registry.len() == 0
                ==> has_tool_results(action_views(final(acts)@)),
            final(self)@ == deliver(old(self)@, send).0,
            action_views(final(acts)@) == action_views(old(acts)@) + deliver(old(self)@, send).1,
    {
        if send && self.status == Status::Generating {
            return;
        }
        let ghost v = self.registry@;
        let ghost acts0 = action_views(acts@);
        match self.registry.take_batch_if_complete() {
            Some(batch) => {
                let mut pairs: Vec<(String, String)> = Vec::new();
                let mut i: usize = 0;
                while i < batch.len()
                    invariant
                        item_views(batch@) == v,
                        i <= batch@.len(),
                        action_views(acts@) == acts0 + result_outputs(v).subrange(0, i as int),
                        pair_views(pairs@) == result_pairs(v).subrange(0, i as int),
                    decreases batch@.len() - i,
                {
                    let ghost p0 = pairs@;
                    let ghost ac = action_views(acts@);
                    assert(v[i as int] == batch@[i as int]@);
                    let id = batch[i].id.clone();
                    let output = batch[i].output.clone();
                    pairs.push((batch[i].id.clone(), batch[i].output.clone()));
                    push_action(acts, Action::Output(Output::LuaResult { id, output }));
                    assert(result_outputs(v).subrange(0, i + 1) =~= result_outputs(v).subrange(
                        0,
                        i as int,
                    ).push(result_outputs(v)[i as int]));
                    assert(pair_views(pairs@) =~= pair_views(p0).push(result_pairs(v)[i as int]));
                    assert(result_pairs(v).subrange(0, i + 1) =~= result_pairs(v).subrange(
                        0,
                        i as int,
                    ).push(result_pairs(v)[i as int]));
                    i = i + 1;
                }
                assert(action_views(acts@).subrange(0, acts0.len() as int) =~= acts0);
                proof {
                    if has_tool_results(acts0) {
                        let j = choose|j: int| 0 <= j < acts0.len() && acts0[j] is SendToolResults;
                        assert(action_views(acts@)[j] is SendToolResults);
                    }
                }
                assert(result_outputs(v).subrange(0, v.len() as int) =~= result_outputs(v));
                assert(self.registry@ =~= Seq::<ItemView>::empty());
                assert(result_pairs(v).subrange(0, v.len() as int) =~= result_pairs(v));
                assert forall|k: int| 0 <= k < result_outputs(v).len() implies !(
                #[trigger] result_outputs(v)[k] is SendUser) by {};
                if send {
                    self.status = advance(self.status, StatusEvent::Sent);
                    self.call_has_tools = false;
                    self.segment_open = false;
                    push_action(acts, Action::SendToolResults(pairs));
                    assert(action_views(acts@) =~= acts0 + result_outputs(v) + seq![
                        ActionView::SendToolResults(result_pairs(v)),
                    ]);
                    assert(action_views(acts@)[action_views(acts@).len() - 1] is SendToolResults);
                } else {
                    assert(action_views(acts@) =~= acts0 + result_outputs(v) + Seq::empty());
                }
            },
            None => {},
        }
    }

    /// Rejects what is pending, shows the results, says goodbye and ends the loop.
    fn exit(&mut self, acts: &mut Vec<Action>)
        requires
            old(self).wf(),
            !old(self)@.done,
        ensures
            final(self).wf(),
            final(self)@.done,
            final(self)@.status == Status::Idle,
            final(self)@.registry.len() <= old(self)@.registry.len(),
            action_views(final(acts)@).len() > 0,
            action_views(final(acts)@).last() == ActionView::Exit,
            quiet(action_views(old(acts)@)) ==> quiet(action_views(final(acts)@)),
            final(self)@ == exit_step(old(self)@).0,
            action_views(final(acts)@) == action_views(old(acts)@) + exit_step(old(self)@).1,
    {
        let ghost a0 = action_views(acts@);
        push_action(acts, Action::CancelModel);
        self.status = advance(self.status, StatusEvent::Cancelled);
        let ghost v = self.registry@;
        self.registry.decide_all(false);
        proof {
            lemma_decided_all_fixed(v, false);
        }
        let ghost o1 = self@;
        let ghost a1 = action_views(acts@);
        self.deliver_batch(acts, false);
        let ghost a2 = deliver(o1, false).1;
        say(acts, GOODBYE);
        push_action(acts, Action::Exit);
        self.done = true;
        assert(action_views(acts@) =~= a0 + (seq![ActionView::CancelModel] + a2 + seq![
            system_msg(GOODBYE@),
            ActionView::Exit,
        ]));
    }
    /// Counts a cancel signal: the first aborts the model call, rejects what is pending
    /// and reports the batch; a second in a row exits.
    fn cancel(&mut self, acts: &mut Vec<Action>)
        requires
            old(self).wf(),
            !old(self)@.done,
        ensures
            final(self).wf(),
            final(self)@.done || final(self)@.cancels == old(self)@.cancels + 1,
            old(self)@.cancels >= 1 ==> final(self)@.done,
            final(self)@.done ==> action_views(final(acts)@).len() > 0 && action_views(
                final(acts)@,
            ).last() == ActionView::Exit,
            allowed(old(self)@.status, final(self)@.status),
            final(self)@.registry.len() <= old(self)@.registry.len(),
            quiet(action_views(old(acts)@)) ==> quiet(action_views(final(acts)@)),
            old(self)@.registry.len() > 0 && final(self)@.registry.len() == 0 && !final(self)@.done
                ==> has_tool_results(action_views(final(acts)@)),
            final(self)@ == cancel_step(old(self)@).0,
            action_views(final(acts)@) == action_views(old(acts)@) + cancel_step(old(self)@).1,
    {
        let ghost a0 = action_views(acts@);
        if self.cancels >= 1 {
            self.exit(acts);
            return;
        }
        self.cancels = self.cancels + 1;
        push_action(acts, Action::CancelModel);
        self.status = advance(self.status, StatusEvent::Cancelled);
        self.segment_open = false;
        let ghost v = self.registry@;
        self.registry.decide_all(false);
        proof {
            lemma_decided_all_fixed(v, false);
        }
        let ghost reg = self.registry@;
        self.ask_runs(acts);
        let ghost o1 = self@;
        self.deliver_batch(acts, true);
        let ghost a2 = deliver(o1, true).1;
        say(acts, CANCELLED);
        prompt(acts);
        assert(action_views(acts@) =~= a0 + (seq![ActionView::CancelModel] + execute_actions(
            runs_due(reg),
        ) + a2 + seq![system_msg(CANCELLED@), input_ready()]));
    }

    /// Applies an approval decision; once no entry waits, asks for the runs of the
    /// accepted entries, and submits the batch once it is complete.
    fn apply_approval(&mut self, approve: bool, target: ApprovalTarget, acts: &mut Vec<Action>)
        requires
            old(self).wf(),
            !old(self)@.done,
        ensures
            final(self).wf(),
            final(self)@.done == old(self)@.done,
            final(self)@.cancels == old(self)@.cancels,
            allowed(old(self)@.status, final(self)@.status),
            final(self)@.registry.len() <= old(self)@.registry.len(),
            quiet(action_views(old(acts)@)) ==> quiet(action_views(final(acts)@)),
            old(self)@.registry.len() > 0 && final(self)@.registry.len() == 0 ==> has_tool_results(
                action_views(final(acts)@),
            ),
            final(self)@ == approval_step(old(self)@, approval_view(Some((approve, target)))->0).0,
            action_views(final(acts)@) == action_views(old(acts)@) + approval_step(
                old(self)@,
                approval_view(Some((approve, target)))->0,
            ).1,
    {
        let ghost v = self.registry@;
        let ghost o = self@;
        let ghost a0 = action_views(acts@);
        match target {
            ApprovalTarget::All => {
                self.registry.decide_all(approve);
                proof {
                    lemma_decided_all_fixed(v, approve);
                }
            },
            ApprovalTarget::One(id) => {
                let r = self.registry.decide(id.as_str(), approve);
                if r.is_err() {
                    assert(action_views(acts@) =~= a0 + Seq::<ActionView>::empty());
                    return;
                }
                proof {
                    lemma_decided_fixed(
                        v,
                        index_with(v, id@, LuaCallStatus::WaitingReview)->0,
                        approve,
                    );
                }
            },
        }
        let ghost reg = self.registry@;
        self.ask_runs(acts);
        let ghost execs = execute_actions(runs_due(reg));
        let ghost o1 = self@;
        assert(o1 == AgentView { registry: started(reg), ..o });
        self.deliver_batch(acts, true);
        let ghost a2 = deliver(o1, true).1;
        if self.status != Status::Generating {
            prompt(acts);
            assert(action_views(acts@) =~= a0 + (execs + a2 + seq![input_ready()]));
        } else {
            assert(action_views(acts@) =~= a0 + (execs + a2 + Seq::<ActionView>::empty()));
        }
    }

    /// Asks for the runs that are due: once no entry waits, one per accepted entry.
    fn ask_runs(&mut self, acts: &mut Vec<Action>)
        requires
            old(self).wf(),
        ensures
            final(self).wf(),
            final(self)@ == (AgentView { registry: started(old(self)@.registry), ..old(self)@ }),
            final(self)@.registry.len() == old(self)@.registry.len(),
            action_views(final(acts)@) == action_views(old(acts)@) + execute_actions(
                runs_due(old(self)@.registry),
            ),
            quiet(action_views(old(acts)@)) ==> quiet(action_views(final(acts)@)),
            has_tool_results(action_views(old(acts)@)) ==> has_tool_results(action_views(final(acts)@)),
    {
        let ghost v = self.registry@;
        let ghost a0 = action_views(acts@);
        let reqs = self.registry.start_runs();
        proof {
            lemma_started_fixed(v);
        }
        let ghost execs = execute_actions(exec_views(reqs@));
        let mut i: usize = 0;
        while i < reqs.len()
            invariant
                i <= reqs@.len(),
                execs == execute_actions(exec_views(reqs@)),
                action_views(acts@) == a0 + execs.subrange(0, i as int),
                quiet(action_views(old(acts)@)) ==> quiet(action_views(acts@)),
                has_tool_results(action_views(old(acts)@)) ==> has_tool_results(action_views(acts@)),
            decreases reqs@.len() - i,
        {
            let req = ExecRequest {
                id: reqs[i].id.clone(),
                code: reqs[i].code.clone(),
                timeout_sec: reqs[i].timeout_sec,
            };
            assert(req@ == exec_views(reqs@)[i as int]);
            push_action(acts, Action::Execute(req));
            assert(execs.subrange(0, i + 1) =~= execs.subrange(0, i as int).push(execs[i as int]));
            i = i + 1;
        }
        assert(execs.subrange(0, reqs@.len() as int) =~= execs);
    }

    /// A status block: model, adapter status and number of pending tools.
    fn status_text(&self) -> (r: String)
        ensures
            r@ == status_block(self@),
    {
        let mut r = String::new();
        r.append("Model: ");
        r.append(self.model_name.as_str());
        r.append("\nStatus: ");
        match self.status {
            Status::Idle => r.append("idle"),
            Status::Generating => r.append("generating"),
            Status::WaitForLuaResult => r.append("waiting for tool decisions"),
        }
        r.append("\nPending tools: ");
        let ids = self.registry.pending_ids();
        let n = ids.len();
        assert(pending_ids(self.registry@).len() == n);
        r.append(crate::script::decimal_string(n as u64).as_str());
        r.append("\nContext: ");
        r.append(crate::script::decimal_string(self.context_used).as_str());
        r.append("/");
        r.append(crate::script::decimal_string(self.context_limit).as_str());
        r
    }

    /// Records the context size the model adapter reports: tokens in use and the limit.
    pub fn set_context_size(&mut self, used: u64, limit: u64)
        requires
            old(self).wf(),
        ensures
            final(self).wf(),
            final(self)@ == (AgentView { context_used: used, context_limit: limit, ..old(self)@ }),
    {
        self.context_used = used;
        self.context_limit = limit;
    }

    /// Free text: an approval utterance while tools are pending, dropped while the
    /// model answers, otherwise a prompt for the model.
    fn handle_text(&mut self, line: String, acts: &mut Vec<Action>)
        requires
            old(self).wf(),
            !old(self)@.done,
            quiet(action_views(old(acts)@)),
        ensures
            final(self).wf(),
            final(self)@.done == old(self)@.done,
            final(self)@.cancels == old(self)@.cancels,
            allowed(old(self)@.status, final(self)@.status),
            final(self)@.registry.len() <= old(self)@.registry.len(),
            !quiet(action_views(final(acts)@)) ==> old(self)@.registry.len() == 0,
            old(self)@.registry.len() > 0 && final(self)@.registry.len() == 0 ==> has_tool_results(
                action_views(final(acts)@),
            ),
            final(self)@ == text_step(old(self)@, line@).0,
            action_views(final(acts)@) == action_views(old(acts)@) + text_step(old(self)@, line@).1,
    {
        let ghost a0 = action_views(acts@);
        let ghost l = line@;
        if !self.registry.all_ready() {
            match parse_lua_approval(line.as_str(), &self.registry) {
                Some((d, target)) => self.apply_approval(d, target, acts),
                None => {
                    say(acts, NOT_RECOGNIZED);
                    prompt(acts);
                    assert(action_views(acts@) =~= a0 + seq![system_msg(NOT_RECOGNIZED@), input_ready()]);
                },
            }
        } else if self.status == Status::Generating {
            say(acts, BUSY);
            assert(action_views(acts@) =~= a0 + seq![system_msg(BUSY@)]);
        } else if self.status == Status::Idle && self.registry.is_empty() {
            self.status = advance(self.status, StatusEvent::Sent);
            self.call_has_tools = false;
            self.segment_open = false;
            push_action(acts, Action::SendUser(line));
            assert(action_views(acts@) =~= a0 + seq![ActionView::SendUser(l)]);
        } else {
            say(acts, TOOLS_RUNNING);
            prompt(acts);
            assert(action_views(acts@) =~= a0 + seq![system_msg(TOOLS_RUNNING@), input_ready()]);
        }
    }

    fn handle_command(&mut self, cmd: Command, acts: &mut Vec<Action>)
        requires
            old(self).wf(),
            !old(self)@.done,
            quiet(action_views(old(acts)@)),
        ensures
            final(self).wf(),
            final(self)@.done ==> action_views(final(acts)@).len() > 0 && action_views(
                final(acts)@,
            ).last() == ActionView::Exit,
            allowed(old(self)@.status, final(self)@.status),
            final(self)@.registry.len() <= old(self)@.registry.len(),
            quiet(action_views(final(acts)@)),
            old(self)@.registry.len() > 0 && final(self)@.registry.len() == 0 ==> has_tool_results(
                action_views(final(acts)@),
            ) || cmd == Command::ResetVM || final(self)@.done,
            final(self)@ == command_step(old(self)@, cmd).0,
            action_views(final(acts)@) == action_views(old(acts)@) + command_step(old(self)@, cmd).1,
    {
        let ghost a0 = action_views(acts@);
        match cmd {
            Command::Exit => self.exit(acts),
            Command::Cancel => self.cancel(acts),
            Command::Help => {
                say(acts, HELP);
                prompt(acts);
                assert(action_views(acts@) =~= a0 + seq![system_msg(HELP@), input_ready()]);
            },
            Command::Status => {
                let text = self.status_text();
                say(acts, text.as_str());
                prompt(acts);
                assert(action_views(acts@) =~= a0 + seq![system_msg(text@), input_ready()]);
            },
            Command::ResetVM => {
                push_action(acts, Action::ResetRuntime);
                self.registry.clear();
                if self.status == Status::WaitForLuaResult {
                    // with no entries left, nothing is awaited
                    self.status = Status::Idle;
                }
                say(acts, VM_RESET);
                prompt(acts);
                assert(action_views(acts@) =~= a0 + seq![
                    ActionView::ResetRuntime,
                    system_msg(VM_RESET@),
                    input_ready(),
                ]);
            },
            Command::Approve | Command::Reject => {
                if !self.registry.all_ready() {
                    self.apply_approval(cmd == Command::Approve, ApprovalTarget::All, acts);
                } else {
                    say(acts, NO_PENDING);
                    prompt(acts);
                    assert(action_views(acts@) =~= a0 + seq![system_msg(NO_PENDING@), input_ready()]);
                }
            },
            Command::Compact | Command::ApproveAlways => {
                let text = concat(NOT_SUPPORTED, cmd.name());
                say(acts, text.as_str());
                prompt(acts);
                assert(action_views(acts@) =~= a0 + seq![system_msg(text@), input_ready()]);
            },
        }
    }

    /// The model call finished: its status follows from whether it asked for tools;
    /// an open assistant segment is closed; a batch decided meanwhile is submitted.
    fn finish(&mut self, acts: &mut Vec<Action>)
        requires
            old(self).wf(),
            !old(self)@.done,
        ensures
            final(self).wf(),
            final(self)@.done == old(self)@.done,
            final(self)@.cancels == old(self)@.cancels,
            allowed(old(self)@.status, final(self)@.status),
            final(self)@.registry.len() <= old(self)@.registry.len(),
            quiet(action_views(old(acts)@)) ==> quiet(action_views(final(acts)@)),
            old(self)@.registry.len() > 0 && final(self)@.registry.len() == 0 ==> has_tool_results(
                action_views(final(acts)@),
            ),
            final(self)@ == finish_step(old(self)@).0,
            action_views(final(acts)@) == action_views(old(acts)@) + finish_step(old(self)@).1,
    {
        let ghost a0 = action_views(acts@);
        if self.status != Status::Generating {
            assert(action_views(acts@) =~= a0 + Seq::<ActionView>::empty());
            return;
        }
        let ghost was_open = self.segment_open;
        let e = if self.call_has_tools {
            StatusEvent::RespondedWithTools
        } else {
            StatusEvent::RespondedWithoutTools
        };
        self.status = advance(self.status, e);
        if self.segment_open {
            let empty = String::new();
            push_action(acts, Action::Output(Output::AssistantMsg(empty)));
            self.segment_open = false;
        }
        let ghost o1 = self@;
        let ghost a1 = action_views(acts@).subrange(a0.len() as int, action_views(acts@).len() as int);
        assert(action_views(acts@) =~= a0 + a1);
        assert(a1 =~= (if was_open {
            seq![ActionView::Output(OutputView::AssistantMsg(Seq::empty()))]
        } else {
            Seq::<ActionView>::empty()
        }));
        self.deliver_batch(acts, true);
        let ghost a2 = deliver(o1, true).1;
        prompt(acts);
        assert(action_views(acts@) =~= a0 + (a1 + a2 + seq![input_ready()]));
    }

    /// Handles one event and returns the actions to perform, in order.
    pub fn step(&mut self, event: Event) -> (acts: Vec<Action>)
        requires
            old(self).wf(),
        ensures
            final(self).wf(),
            (final(self)@, action_views(acts@)) == step_spec(old(self)@, event@),
            step_ok(old(self)@, event@, final(self)@, action_views(acts@)),
    {
        let mut acts: Vec<Action> = Vec::new();
        assert(action_views(acts@) =~= Seq::<ActionView>::empty());
        if self.done {
            return acts;
        }
        match event {
            Event::Signal(Signal::Exit) => self.exit(&mut acts),
            Event::Signal(Signal::Cancel) => self.cancel(&mut acts),
            Event::Input(input) => {
                self.cancels = 0;
                match input {
                    Input::Text(line) => self.handle_text(line, &mut acts),
                    Input::Command { cmd, arg: _, body: _ } => self.handle_command(cmd, &mut acts),
                }
            },
            Event::AssistantChunk(text) => {
                if self.status == Status::Generating {
                    self.segment_open = text.unicode_len() > 0;
                    push_action(&mut acts, Action::Output(Output::AssistantMsg(text)));
                }
            },
            Event::ToolCall { id, code: None, timeout_sec: _ } => {
                if self.status == Status::Generating {
                    let text = concat(NO_CODE, id.as_str());
                    say(&mut acts, text.as_str());
                }
            },
            Event::ToolCall { id, code: Some(code), timeout_sec } => {
                if self.status == Status::Generating {
                    let ghost v = self.registry@;
                    match self.registry.insert(id.as_str(), code.as_str(), timeout_sec) {
                        Ok(()) => {
                            assert(rejections_fixed(self.registry@)) by {
                                assert forall|i: int|
                                    0 <= i < self.registry@.len()
                                        && #[trigger] self.registry@[i].status
                                        == LuaCallStatus::Rejected implies self.registry@[i].output
                                    == REJECTED_OUTPUT@ by {
                                    if i < v.len() {
                                        assert(self.registry@[i] == v[i]);
                                    }
                                };
                            };
                            self.call_has_tools = true;
                            push_action(&mut acts, Action::Output(Output::LuaCode { id, code }));
                        },
                        Err(_) => {
                            let text = concat(DUPLICATE_CALL, id.as_str());
                            say(&mut acts, text.as_str());
                        },
                    }
                }
            },
            Event::Finished => self.finish(&mut acts),
            Event::Failed(msg) => {
                if self.status == Status::Generating {
                    self.status = advance(self.status, StatusEvent::Failed);
                    self.segment_open = false;
                    let text = concat(SEND_FAILED, msg.as_str());
                    say(&mut acts, text.as_str());
                    prompt(&mut acts);
                }
            },
            Event::Executed { id, execution } => {
                let out = render_tool_output(&execution);
                let ghost v = self.registry@;
                let r = self.registry.executed(id.as_str(), out.as_str());
                if r.is_ok() {
                    assert(rejections_fixed(self.registry@)) by {
                        let k = index_with(v, id@, LuaCallStatus::Executing)->0;
                        assert forall|i: int|
                            0 <= i < self.registry@.len() && #[trigger] self.registry@[i].status
                                == LuaCallStatus::Rejected implies self.registry@[i].output
                            == REJECTED_OUTPUT@ by {
                            if i != k {
                                assert(self.registry@[i] == v[i]);
                            }
                        };
                    };
                    self.deliver_batch(&mut acts, true);
                }
            },
        }
        acts
    }
}

} // verus!
