//! Classifies operator lines into signals, commands and free text.
use vstd::prelude::*;
use crate::text::{
    ascii_lower, eq_ignore_case, find_nl, is_ws, lemma_skip_ws_bounds, lemma_trim_bounds,
    range_eq_ignore_case, scan_nl, scan_word, scan_ws, skip_word, skip_ws, trim, trim_bounds,
    trim_hi, trim_lo, trim_range, trimmed_range, ws_back,
};

verus! {

/// A slash command, after its synonyms are resolved.
#[derive(PartialEq, Eq, Structural, Clone, Copy, Debug)]
pub enum Command {
    Exit,
    Cancel,
    Help,
    Status,
    ResetVM,
    Compact,
    Approve,
    Reject,
    ApproveAlways,
}

/// An out-of-band request from the operator.
#[derive(PartialEq, Eq, Structural, Clone, Copy, Debug)]
pub enum Signal {
    Cancel,
    Exit,
}

/// An operator line that carries content.
#[derive(PartialEq, Eq, Debug)]
pub enum Input {
    /// Free-form prompt or approval utterance, as typed.
    Text(String),
    /// `/<cmd> [<arg>]` on the first line, `body` after the first newline, as typed.
    Command { cmd: Command, arg: String, body: String },
}

/// What one finished operator line decodes to.
#[derive(PartialEq, Eq, Debug)]
pub enum UserMsg {
    Signal(Signal),
    Input(Input),
}

/// What the core shows the operator.
#[derive(PartialEq, Eq, Debug)]
pub enum Output {
    /// Complete lines from the system.
    SystemMsg(String),
    /// Assistant text, possibly a streaming fragment; empty marks the end of a segment.
    AssistantMsg(String),
    /// A script the model wants to run, awaiting approval.
    LuaCode { id: String, code: String },
    /// The result reported for a script.
    LuaResult { id: String, output: String },
    /// Prompt cue: the core is ready for a line.
    InputReady,
}

pub enum OutputView {
    SystemMsg(Seq<char>),
    AssistantMsg(Seq<char>),
    LuaCode { id: Seq<char>, code: Seq<char> },
    LuaResult { id: Seq<char>, output: Seq<char> },
    InputReady,
}

impl View for Output {
    type V = OutputView;

    open spec fn view(&self) -> OutputView {
        match self {
            Output::SystemMsg(m) => OutputView::SystemMsg(m@),
            Output::AssistantMsg(m) => OutputView::AssistantMsg(m@),
            Output::LuaCode { id, code } => OutputView::LuaCode { id: id@, code: code@ },
            Output::LuaResult { id, output } => OutputView::LuaResult { id: id@, output: output@ },
            Output::InputReady => OutputView::InputReady,
        }
    }
}

pub enum InputView {
    Text(Seq<char>),
    Command { cmd: Command, arg: Seq<char>, body: Seq<char> },
}

pub enum UserMsgView {
    Signal(Signal),
    Input(InputView),
}

impl View for Input {
    type V = InputView;

    open spec fn view(&self) -> InputView {
        match self {
            Input::Text(t) => InputView::Text(t@),
            Input::Command { cmd, arg, body } => InputView::Command {
                cmd: *cmd,
                arg: arg@,
                body: body@,
            },
        }
    }
}

impl View for UserMsg {
    type V = UserMsgView;

    open spec fn view(&self) -> UserMsgView {
        match self {
            UserMsg::Signal(s) => UserMsgView::Signal(*s),
            UserMsg::Input(i) => UserMsgView::Input(i@),
        }
    }
}

pub open spec fn opt_msg_view(m: Option<UserMsg>) -> Option<UserMsgView> {
    match m {
        Some(u) => Some(u@),
        None => None,
    }
}

/// The command a name stands for, compared without regard to ASCII case.
pub open spec fn command_of(name: Seq<char>) -> Option<Command> {
    if eq_ignore_case(name, "exit"@) || eq_ignore_case(name, "quit"@) || eq_ignore_case(name, "q"@) {
        Some(Command::Exit)
    } else if eq_ignore_case(name, "cancel"@) || eq_ignore_case(name, "c"@) || eq_ignore_case(
        name,
        "stop"@,
    ) {
        Some(Command::Cancel)
    } else if eq_ignore_case(name, "help"@) {
        Some(Command::Help)
    } else if eq_ignore_case(name, "status"@) {
        Some(Command::Status)
    } else if eq_ignore_case(name, "reset-vm"@) || eq_ignore_case(name, "resetvm"@) {
        Some(Command::ResetVM)
    } else if eq_ignore_case(name, "compact"@) {
        Some(Command::Compact)
    } else if eq_ignore_case(name, "approve"@) || eq_ignore_case(name, "a"@) {
        Some(Command::Approve)
    } else if eq_ignore_case(name, "reject"@) || eq_ignore_case(name, "r"@) {
        Some(Command::Reject)
    } else if eq_ignore_case(name, "always"@) {
        Some(Command::ApproveAlways)
    } else {
        None
    }
}

/// The canonical spelling of each command.
pub open spec fn canonical_name(c: Command) -> Seq<char> {
    match c {
        Command::Exit => "exit"@,
        Command::Cancel => "cancel"@,
        Command::Help => "help"@,
        Command::Status => "status"@,
        Command::ResetVM => "reset-vm"@,
        Command::Compact => "compact"@,
        Command::Approve => "approve"@,
        Command::Reject => "reject"@,
        Command::ApproveAlways => "always"@,
    }
}

/// Decoding of one finished line `s`; `None` means the line is ignored.
///
/// Trimmed empty lines are ignored. A trimmed line starting with `/` whose first
/// word names a command becomes that command (or signal); the rest of its first
/// line, trimmed, is `arg`, and what follows the first newline is `body`.
/// Every other line is text, kept as typed.
pub open spec fn decode(s: Seq<char>) -> Option<UserMsgView> {
    let n = s.len() as int;
    let a = trim_lo(s, 0, n);
    let e = trim_hi(s, 0, n);
    let b = skip_ws(s, a + 1, e);
    let c = skip_word(s, b, e);
    let l = find_nl(s, c, e);
    if a == e {
        None
    } else if s[a] == '/' && b < e && command_of(s.subrange(b, c)) is Some {
        let cmd = command_of(s.subrange(b, c))->0;
        if cmd == Command::Exit {
            Some(UserMsgView::Signal(Signal::Exit))
        } else if cmd == Command::Cancel {
            Some(UserMsgView::Signal(Signal::Cancel))
        } else {
            Some(
                UserMsgView::Input(
                    InputView::Command {
                        cmd,
                        arg: trim_range(s, c, l),
                        body: if l < e {
                            s.subrange(l + 1, e)
                        } else {
                            Seq::empty()
                        },
                    },
                ),
            )
        }
    } else {
        Some(UserMsgView::Input(InputView::Text(s)))
    }
}

/// The canonical line for an input: `/<name>`, then ` <arg>` and `\n<body>` where non-empty.
pub open spec fn render(i: InputView) -> Seq<char> {
    match i {
        InputView::Text(t) => t,
        InputView::Command { cmd, arg, body } => "/"@ + canonical_name(cmd) + (if arg.len() > 0 {
            " "@ + arg
        } else {
            Seq::empty()
        }) + (if body.len() > 0 {
            "\n"@ + body
        } else {
            Seq::empty()
        }),
    }
}

fn command_in(s: &str, lo: usize, hi: usize) -> (r: Option<Command>)
    requires
        lo <= hi <= s@.len(),
    ensures
        r == command_of(s@.subrange(lo as int, hi as int)),
{
    if range_eq_ignore_case(s, lo, hi, "exit") || range_eq_ignore_case(s, lo, hi, "quit")
        || range_eq_ignore_case(s, lo, hi, "q") {
        Some(Command::Exit)
    } else if range_eq_ignore_case(s, lo, hi, "cancel") || range_eq_ignore_case(s, lo, hi, "c")
        || range_eq_ignore_case(s, lo, hi, "stop") {
        Some(Command::Cancel)
    } else if range_eq_ignore_case(s, lo, hi, "help") {
        Some(Command::Help)
    } else if range_eq_ignore_case(s, lo, hi, "status") {
        Some(Command::Status)
    } else if range_eq_ignore_case(s, lo, hi, "reset-vm") || range_eq_ignore_case(
        s,
        lo,
        hi,
        "resetvm",
    ) {
        Some(Command::ResetVM)
    } else if range_eq_ignore_case(s, lo, hi, "compact") {
        Some(Command::Compact)
    } else if range_eq_ignore_case(s, lo, hi, "approve") || range_eq_ignore_case(s, lo, hi, "a") {
        Some(Command::Approve)
    } else if range_eq_ignore_case(s, lo, hi, "reject") || range_eq_ignore_case(s, lo, hi, "r") {
        Some(Command::Reject)
    } else if range_eq_ignore_case(s, lo, hi, "always") {
        Some(Command::ApproveAlways)
    } else {
        None
    }
}

impl Command {
    /// The command that `name` stands for, ignoring ASCII case.
    pub fn from_name(name: &str) -> (r: Option<Command>)
        ensures
            r == command_of(name@),
    {
        let n = name.unicode_len();
        assert(name@.subrange(0, n as int) =~= name@);
        command_in(name, 0, n)
    }

    /// The canonical spelling, without the slash.
    pub fn name(&self) -> (r: &'static str)
        ensures
            r@ == canonical_name(*self),
    {
        match self {
            Command::Exit => "exit",
            Command::Cancel => "cancel",
            Command::Help => "help",
            Command::Status => "status",
            Command::ResetVM => "reset-vm",
            Command::Compact => "compact",
            Command::Approve => "approve",
            Command::Reject => "reject",
            Command::ApproveAlways => "always",
        }
    }
}

impl Input {
    /// Decodes one finished line; `None` when the line is blank.
    pub fn from_raw(raw: &str) -> (r: Option<UserMsg>)
        ensures
            opt_msg_view(r) == decode(raw@),
    {
        let n = raw.unicode_len();
        let (a, e) = trim_bounds(raw, 0, n);
        if a == e {
            return None;
        }
        if raw.get_char(a) == '/' {
            let b = scan_ws(raw, a + 1, e);
            let c = scan_word(raw, b, e);
            let l = scan_nl(raw, c, e);
            if b < e {
                match command_in(raw, b, c) {
                    Some(Command::Exit) => {
                        return Some(UserMsg::Signal(Signal::Exit));
                    },
                    Some(Command::Cancel) => {
                        return Some(UserMsg::Signal(Signal::Cancel));
                    },
                    Some(cmd) => {
                        let arg = trimmed_range(raw, c, l);
                        let body = if l < e {
                            raw.substring_char(l + 1, e).to_owned()
                        } else {
                            String::new()
                        };
                        return Some(UserMsg::Input(Input::Command { cmd, arg, body }));
                    },
                    None => {},
                }
            }
        }
        Some(UserMsg::Input(Input::Text(raw.to_owned())))
    }

    /// The canonical line for this input.
    pub fn render(&self) -> (r: String)
        ensures
            r@ == render(self@),
    {
        match self {
            Input::Text(t) => t.clone(),
            Input::Command { cmd, arg, body } => {
                let mut r = String::new();
                r.append("/");
                r.append(cmd.name());
                if arg.unicode_len() > 0 {
                    r.append(" ");
                    r.append(arg.as_str());
                }
                if body.unicode_len() > 0 {
                    r.append("\n");
                    r.append(body.as_str());
                }
                r
            },
        }
    }
}

/// `line` without one trailing newline.
pub open spec fn strip_newline(line: Seq<char>) -> Seq<char> {
    if line.len() > 0 && line.last() == '\n' {
        line.drop_last()
    } else {
        line
    }
}

/// An accumulated line that ends in a backslash continues on the next line.
pub open spec fn continues(acc: Seq<char>) -> bool {
    acc.len() > 0 && acc.last() == '\\'
}

/// One line into the joiner holding `buf`: the new buffer, and the decoded message
/// once the accumulated line is finished.
pub open spec fn join_step(buf: Seq<char>, line: Seq<char>) -> (Seq<char>, Option<UserMsgView>) {
    let acc = buf + strip_newline(line);
    if continues(acc) {
        (acc.drop_last() + "\n"@, None)
    } else {
        (Seq::empty(), decode(acc))
    }
}

/// Feeding `lines` in order, from buffer `buf`: the final buffer and each line's result.
pub open spec fn join_run(buf: Seq<char>, lines: Seq<Seq<char>>) -> (Seq<char>, Seq<Option<UserMsgView>>)
    decreases lines.len(),
{
    if lines.len() == 0 {
        (buf, Seq::empty())
    } else {
        let (b1, o) = join_step(buf, lines[0]);
        let (b2, os) = join_run(b1, lines.drop_first());
        (b2, seq![o] + os)
    }
}

/// Continued lines with their backslashes turned into newlines, concatenated.
pub open spec fn continued(lines: Seq<Seq<char>>) -> Seq<char>
    decreases lines.len(),
{
    if lines.len() == 0 {
        Seq::empty()
    } else {
        strip_newline(lines[0]).drop_last() + "\n"@ + continued(lines.drop_first())
    }
}

/// Joins operator lines that end in a backslash with the lines after them.
pub struct LineJoiner {
    buf: String,
}

impl LineJoiner {
    pub closed spec fn pending(&self) -> Seq<char> {
        self.buf@
    }

    pub fn new() -> (r: LineJoiner)
        ensures
            r.pending() == Seq::<char>::empty(),
    {
        LineJoiner { buf: String::new() }
    }

    /// Takes one line as read (with or without its newline). Returns the decoded
    /// message when the accumulated line is finished and not blank.
    pub fn push_line(&mut self, line: &str) -> (r: Option<UserMsg>)
        ensures
            (final(self).pending(), opt_msg_view(r)) == join_step(old(self).pending(), line@),
    {
        let n = line.unicode_len();
        let end = if n > 0 && line.get_char(n - 1) == '\n' {
            n - 1
        } else {
            n
        };
        assert(line@.subrange(0, end as int) =~= strip_newline(line@));
        self.buf.append(line.substring_char(0, end));
        let m = self.buf.as_str().unicode_len();
        if m > 0 && self.buf.as_str().get_char(m - 1) == '\\' {
            let mut nb = self.buf.as_str().substring_char(0, m - 1).to_owned();
            nb.append("\n");
            assert(nb@ =~= (old(self).pending() + strip_newline(line@)).drop_last() + "\n"@);
            self.buf = nb;
            None
        } else {
            let mut acc = String::new();
            std::mem::swap(&mut acc, &mut self.buf);
            Input::from_raw(acc.as_str())
        }
    }
}

/// A line that is blank after trimming produces no message.
pub proof fn lemma_blank_line_ignored(line: Seq<char>)
    requires
        trim(strip_newline(line)).len() == 0,
    ensures
        join_step(Seq::empty(), line) == (Seq::<char>::empty(), None::<UserMsgView>),
{
    let s = strip_newline(line);
    let n = s.len() as int;
    assert(Seq::<char>::empty() + s =~= s);
    lemma_trim_bounds(s, 0, n);
    lemma_skip_ws_bounds(s, 0, n);
    let a = skip_ws(s, 0, n);
    if n > 0 {
        if a < n {
            assert(ws_back(s, a, n) == a);
            assert(is_ws(s[n - 1]));
        } else {
            assert(is_ws(s[n - 1]));
        }
        assert(!is_ws('\\'));
    }
}

/// Lines ending in a backslash, then one that does not, decode as one message: the
/// continued lines give nothing and the last gives the decoding of them all, joined
/// with newlines in place of the backslashes.
pub proof fn lemma_continued_lines_join(buf: Seq<char>, lines: Seq<Seq<char>>)
    requires
        !continues(buf),
        lines.len() >= 1,
        forall|i: int|
            0 <= i < lines.len() - 1 ==> #[trigger] strip_newline(lines[i]).len() > 0
                && continues(strip_newline(lines[i])),
        !continues(strip_newline(lines.last())),
    ensures
        join_run(buf, lines).0 == Seq::<char>::empty(),
        join_run(buf, lines).1 == Seq::new((lines.len() - 1) as nat, |i: int| None::<UserMsgView>)
            + seq![decode(buf + continued(lines.drop_last()) + strip_newline(lines.last()))],
    decreases lines.len(),
{
    reveal_strlit("\n");
    let s0 = strip_newline(lines[0]);
    if lines.len() == 1 {
        assert(lines.last() == lines[0]);
        assert(lines.drop_last() =~= Seq::<Seq<char>>::empty());
        assert(buf + continued(lines.drop_last()) + s0 =~= buf + s0);
        assert(lines.drop_first() =~= Seq::<Seq<char>>::empty());
        if s0.len() == 0 {
            assert(buf + s0 =~= buf);
        } else {
            assert((buf + s0).last() == s0.last());
        }
        assert(!continues(buf + s0));
        assert(join_step(buf, lines[0]) == (Seq::<char>::empty(), decode(buf + s0)));
        assert(join_run(Seq::<char>::empty(), lines.drop_first()) == (
            Seq::<char>::empty(),
            Seq::<Option<UserMsgView>>::empty(),
        ));
        assert(join_run(buf, lines).1 =~= Seq::new(0, |i: int| None::<UserMsgView>) + seq![
            decode(buf + s0),
        ]);
    } else {
        assert(strip_newline(lines[0]).len() > 0 && continues(strip_newline(lines[0])));
        let acc = buf + s0;
        assert(acc.last() == s0.last());
        let b1 = acc.drop_last() + "\n"@;
        assert(b1.last() == '\n');
        let rest = lines.drop_first();
        assert forall|i: int| 0 <= i < rest.len() - 1 implies #[trigger] strip_newline(rest[i]).len()
            > 0 && continues(strip_newline(rest[i])) by {
            assert(rest[i] == lines[i + 1]);
        };
        assert(rest.last() == lines.last());
        lemma_continued_lines_join(b1, rest);
        assert(lines.drop_last().drop_first() =~= rest.drop_last());
        assert(lines.drop_last()[0] == lines[0]);
        assert(continued(lines.drop_last()) == s0.drop_last() + "\n"@ + continued(rest.drop_last()));
        assert(b1 + continued(rest.drop_last()) + strip_newline(rest.last()) =~= buf
            + continued(lines.drop_last()) + strip_newline(lines.last()));
        assert(join_run(buf, lines).1 =~= Seq::new((lines.len() - 1) as nat, |i: int| None::<UserMsgView>)
            + seq![decode(buf + continued(lines.drop_last()) + strip_newline(lines.last()))]);
    }
}

proof fn lemma_skip_word_all(s: Seq<char>, i: int, hi: int)
    requires
        0 <= i <= hi <= s.len(),
        forall|k: int| i <= k < hi ==> !is_ws(#[trigger] s[k]),
    ensures
        skip_word(s, i, hi) == hi,
    decreases hi - i,
{
    if i < hi {
        lemma_skip_word_all(s, i + 1, hi);
    }
}

/// A slash and a word without whitespace decode as that word's command, if any.
proof fn lemma_decode_slash_word(w: Seq<char>)
    requires
        w.len() > 0,
        forall|i: int| 0 <= i < w.len() ==> !is_ws(#[trigger] w[i]),
        command_of(w) is Some,
    ensures
        decode("/"@ + w) == if command_of(w)->0 == Command::Exit {
            Some(UserMsgView::Signal(Signal::Exit))
        } else if command_of(w)->0 == Command::Cancel {
            Some(UserMsgView::Signal(Signal::Cancel))
        } else {
            Some(
                UserMsgView::Input(
                    InputView::Command {
                        cmd: command_of(w)->0,
                        arg: Seq::empty(),
                        body: Seq::empty(),
                    },
                ),
            )
        },
{
    reveal_strlit("/");
    let s = "/"@ + w;
    let n = s.len() as int;
    assert(s[0] == '/');
    assert(!is_ws('/'));
    assert forall|k: int| 1 <= k < n implies !is_ws(#[trigger] s[k]) by {
        assert(s[k] == w[k - 1]);
    };
    assert(skip_ws(s, 0, n) == 0);
    assert(!is_ws(s[n - 1]));
    assert(ws_back(s, 0, n) == n);
    assert(skip_ws(s, 1, n) == 1);
    lemma_skip_word_all(s, 1, n);
    assert(find_nl(s, n, n) == n);
    assert(s.subrange(1, n) =~= w);
    assert(skip_ws(s, n, n) == n);
    assert(ws_back(s, n, n) == n);
    assert(trim_range(s, n, n) =~= Seq::<char>::empty());
}

proof fn lemma_ne_by_first(a: Seq<char>, b: Seq<char>)
    ensures
        a.len() != b.len() || (a.len() > 0 && b.len() > 0 && ascii_lower(a[0] as u32)
            != ascii_lower(b[0] as u32)) ==> !eq_ignore_case(a, b),
{
}

/// `w` is one of the spellings of `c`.
pub open spec fn spells(w: Seq<char>, c: Command) -> bool {
    (w == "exit"@ && c == Command::Exit) || (w == "quit"@ && c == Command::Exit) || (w == "q"@ && c == Command::Exit) || (w == "cancel"@ && c == Command::Cancel) || (w == "c"@ && c == Command::Cancel) || (w == "stop"@ && c == Command::Cancel) || (w == "help"@ && c == Command::Help) || (w == "status"@ && c == Command::Status) || (w == "reset-vm"@ && c == Command::ResetVM) || (w == "resetvm"@ && c == Command::ResetVM) || (w == "compact"@ && c == Command::Compact) || (w == "approve"@ && c == Command::Approve) || (w == "a"@ && c == Command::Approve) || (w == "reject"@ && c == Command::Reject) || (w == "r"@ && c == Command::Reject) || (w == "always"@ && c == Command::ApproveAlways)
}

/// What a line holding only command `c` decodes to.
pub open spec fn command_line_message(c: Command) -> Option<UserMsgView> {
    if c == Command::Exit {
        Some(UserMsgView::Signal(Signal::Exit))
    } else if c == Command::Cancel {
        Some(UserMsgView::Signal(Signal::Cancel))
    } else {
        Some(UserMsgView::Input(InputView::Command { cmd: c, arg: Seq::empty(), body: Seq::empty() }))
    }
}

/// A slash followed by any spelling of a command decodes to that command.
pub proof fn lemma_command_word(w: Seq<char>, c: Command)
    requires
        spells(w, c),
    ensures
        decode("/"@ + w) == command_line_message(c),
{
    reveal_strlit("exit");
    reveal_strlit("quit");
    reveal_strlit("q");
    reveal_strlit("cancel");
    reveal_strlit("c");
    reveal_strlit("stop");
    reveal_strlit("help");
    reveal_strlit("status");
    reveal_strlit("reset-vm");
    reveal_strlit("resetvm");
    reveal_strlit("compact");
    reveal_strlit("approve");
    reveal_strlit("a");
    reveal_strlit("reject");
    reveal_strlit("r");
    reveal_strlit("always");
    assert(forall|i: int| 0 <= i < w.len() ==> !is_ws(#[trigger] w[i]));
    lemma_ne_by_first(w, "exit"@);
    lemma_ne_by_first(w, "quit"@);
    lemma_ne_by_first(w, "q"@);
    lemma_ne_by_first(w, "cancel"@);
    lemma_ne_by_first(w, "c"@);
    lemma_ne_by_first(w, "stop"@);
    lemma_ne_by_first(w, "help"@);
    lemma_ne_by_first(w, "status"@);
    lemma_ne_by_first(w, "reset-vm"@);
    lemma_ne_by_first(w, "resetvm"@);
    lemma_ne_by_first(w, "compact"@);
    lemma_ne_by_first(w, "approve"@);
    lemma_ne_by_first(w, "a"@);
    lemma_ne_by_first(w, "reject"@);
    lemma_ne_by_first(w, "r"@);
    lemma_ne_by_first(w, "always"@);
    assert(command_of(w) == Some(c));
    lemma_decode_slash_word(w);
}

/// Every command's canonical line decodes back to it, with empty argument and body;
/// `/exit` and `/cancel` decode to their signals.
pub proof fn lemma_command_round_trip(c: Command)
    ensures
        decode(render(InputView::Command { cmd: c, arg: Seq::empty(), body: Seq::empty() }))
            == command_line_message(c),
{
    let w = canonical_name(c);
    assert(spells(w, c));
    assert(render(InputView::Command { cmd: c, arg: Seq::empty(), body: Seq::empty() }) =~= "/"@ + w);
    lemma_command_word(w, c);
}

/// The short and alternative spellings `/a`, `/r` and `/resetvm` decode to the commands
/// they name, with empty argument and body.
pub proof fn lemma_synonym_lines_decode()
    ensures
        decode("/a"@) == command_line_message(Command::Approve),
        decode("/r"@) == command_line_message(Command::Reject),
        decode("/resetvm"@) == command_line_message(Command::ResetVM),
{
    reveal_strlit("/");
    reveal_strlit("a");
    reveal_strlit("r");
    reveal_strlit("resetvm");
    reveal_strlit("/a");
    reveal_strlit("/r");
    reveal_strlit("/resetvm");
    assert("/a"@ =~= "/"@ + "a"@);
    assert("/r"@ =~= "/"@ + "r"@);
    assert("/resetvm"@ =~= "/"@ + "resetvm"@);
    lemma_command_word("a"@, Command::Approve);
    lemma_command_word("r"@, Command::Reject);
    lemma_command_word("resetvm"@, Command::ResetVM);
}

} // verus!
