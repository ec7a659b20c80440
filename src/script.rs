//! What a script run hands back, and how it is rendered for the model and the operator.
use vstd::prelude::*;
use crate::text::{trim, trimmed};
use crate::registry::str_eq;

verus! {

/// Seconds a script may run when the model gives no timeout.
pub const DEFAULT_TIMEOUT_SEC: u64 = 10;

/// The tool result sent for a script the operator rejected.
pub const REJECTED_OUTPUT: &'static str = "Lua execution rejected by user.";

/// Result of executing a script.
pub struct LuaExecution {
    pub stdout: String,
    pub error: Option<String>,
    pub returns: Vec<String>,
}

pub struct LuaExecutionView {
    pub stdout: Seq<char>,
    pub error: Option<Seq<char>>,
    pub returns: Seq<Seq<char>>,
}

impl View for LuaExecution {
    type V = LuaExecutionView;

    open spec fn view(&self) -> LuaExecutionView {
        LuaExecutionView {
            stdout: self.stdout@,
            error: match self.error {
                Some(e) => Some(e@),
                None => None,
            },
            returns: self.returns@.map_values(|r: String| r@),
        }
    }
}

/// The timeout a script runs under: the requested one, else the default.
pub open spec fn timeout_of(requested: Option<u64>) -> u64 {
    match requested {
        Some(t) => t,
        None => DEFAULT_TIMEOUT_SEC,
    }
}

pub fn effective_timeout(requested: Option<u64>) -> (r: u64)
    ensures
        r == timeout_of(requested),
{
    match requested {
        Some(t) => t,
        None => DEFAULT_TIMEOUT_SEC,
    }
}

pub open spec fn digit(d: nat) -> Seq<char> {
    if d == 0 {
        "0"@
    } else if d == 1 {
        "1"@
    } else if d == 2 {
        "2"@
    } else if d == 3 {
        "3"@
    } else if d == 4 {
        "4"@
    } else if d == 5 {
        "5"@
    } else if d == 6 {
        "6"@
    } else if d == 7 {
        "7"@
    } else if d == 8 {
        "8"@
    } else {
        "9"@
    }
}

/// Decimal digits of `n`, without leading zeros.
pub open spec fn decimal(n: nat) -> Seq<char>
    decreases n,
{
    if n < 10 {
        digit(n)
    } else {
        decimal(n / 10) + digit(n % 10)
    }
}

/// Lines joined with `\n` between them.
pub open spec fn join_lines(lines: Seq<Seq<char>>) -> Seq<char>
    decreases lines.len(),
{
    if lines.len() == 0 {
        Seq::empty()
    } else if lines.len() == 1 {
        lines[0]
    } else {
        join_lines(lines.drop_last()) + "\n"@ + lines.last()
    }
}

/// The line reporting return value number `k` (counted from 1).
pub open spec fn ret_line(k: nat, v: Seq<char>) -> Seq<char> {
    "** Ret["@ + decimal(k) + "]: "@ + v
}

pub open spec fn err_line(e: Seq<char>) -> Seq<char> {
    "** Err: "@ + e
}

/// The lines of a rendered result: trimmed stdout, one line per return value, then the error.
pub open spec fn output_lines(x: LuaExecutionView) -> Seq<Seq<char>> {
    seq![trim(x.stdout)] + Seq::new(x.returns.len(), |k: int| ret_line((k + 1) as nat, x.returns[k]))
        + match x.error {
        Some(e) => seq![err_line(e)],
        None => Seq::empty(),
    }
}

/// The textual result of a run, as fed to the model and shown to the operator.
pub open spec fn rendered(x: LuaExecutionView) -> Seq<char> {
    trim(join_lines(output_lines(x)))
}

fn digit_str(d: u64) -> (r: &'static str)
    requires
        d < 10,
    ensures
        r@ == digit(d as nat),
{
    if d == 0 {
        "0"
    } else if d == 1 {
        "1"
    } else if d == 2 {
        "2"
    } else if d == 3 {
        "3"
    } else if d == 4 {
        "4"
    } else if d == 5 {
        "5"
    } else if d == 6 {
        "6"
    } else if d == 7 {
        "7"
    } else if d == 8 {
        "8"
    } else {
        "9"
    }
}

/// `n` in decimal.
pub fn decimal_string(n: u64) -> (r: String)
    ensures
        r@ == decimal(n as nat),
    decreases n,
{
    if n < 10 {
        let mut r = String::new();
        r.append(digit_str(n));
        r
    } else {
        let mut r = decimal_string(n / 10);
        r.append(digit_str(n % 10));
        r
    }
}

/// Joins lines with `\n` between them.
pub fn join_with_newlines(lines: &Vec<String>) -> (r: String)
    ensures
        r@ == join_lines(lines@.map_values(|s: String| s@)),
{
    let ghost v = lines@.map_values(|s: String| s@);
    let mut out = String::new();
    let mut i: usize = 0;
    while i < lines.len()
        invariant
            i <= lines@.len(),
            v == lines@.map_values(|s: String| s@),
            out@ == join_lines(v.subrange(0, i as int)),
        decreases lines@.len() - i,
    {
        assert(v.subrange(0, i + 1).drop_last() =~= v.subrange(0, i as int));
        assert(v[i as int] == lines@[i as int]@);
        if i > 0 {
            out.append("\n");
        }
        out.append(lines[i].as_str());
        i = i + 1;
    }
    assert(v.subrange(0, lines@.len() as int) =~= v);
    out
}

/// Renders a run: trimmed stdout, then `** Ret[i]: v` for each return value, then
/// `** Err: e` if there was an error, joined by newlines, the whole trimmed.
pub fn render_tool_output(execution: &LuaExecution) -> (r: String)
    ensures
        r@ == rendered(execution@),
{
    let ghost x = execution@;
    let ghost want = output_lines(x);
    let mut lines: Vec<String> = Vec::new();
    lines.push(trimmed(execution.stdout.as_str()));
    let n = execution.returns.len();
    let mut k: usize = 0;
    while k < n
        invariant
            n == execution.returns@.len(),
            x == execution@,
            want == output_lines(x),
            k <= n,
            lines@.len() == k + 1,
            forall|j: int| 0 <= j <= k ==> #[trigger] lines@[j]@ == want[j],
        decreases n - k,
    {
        let mut line = String::new();
        line.append("** Ret[");
        let num = decimal_string(k as u64 + 1);
        line.append(num.as_str());
        line.append("]: ");
        line.append(execution.returns[k].as_str());
        assert(x.returns[k as int] == execution.returns@[k as int]@);
        assert(line@ == ret_line((k + 1) as nat, x.returns[k as int]));
        lines.push(line);
        k = k + 1;
    }
    match &execution.error {
        Some(e) => {
            let mut line = String::new();
            line.append("** Err: ");
            line.append(e.as_str());
            lines.push(line);
        },
        None => {},
    }
    assert(lines@.map_values(|s: String| s@) =~= want);
    let joined = join_with_newlines(&lines);
    trimmed(joined.as_str())
}

/// The error a run reports when it exceeds its timeout.
pub const TIMED_OUT: &'static str = "Lua execution timed out";

/// Prefix of every other runtime error.
pub const RUN_FAILED: &'static str = "Lua execution failed: ";

/// `t` occurs in `s`.
pub open spec fn occurs_in(t: Seq<char>, s: Seq<char>) -> bool {
    exists|i: int| 0 <= i && i + t.len() <= s.len() && #[trigger] s.subrange(i, i + t.len()) == t
}

/// The error text of a failed run: the timeout error as it is, any other error after
/// the failure prefix.
pub open spec fn run_error(message: Seq<char>) -> Seq<char> {
    if occurs_in(TIMED_OUT@, message) {
        TIMED_OUT@
    } else {
        RUN_FAILED@ + message
    }
}

/// Whether `t` occurs in `s`.
pub fn find_in(t: &str, s: &str) -> (r: bool)
    ensures
        r == occurs_in(t@, s@),
{
    let n = s.unicode_len();
    let m = t.unicode_len();
    if m > n {
        return false;
    }
    if m == 0 {
        assert(s@.subrange(0int, 0int + t@.len()) =~= t@);
        return true;
    }
    let mut i: usize = 0;
    while i <= n - m
        invariant
            n == s@.len(),
            m == t@.len(),
            1 <= m <= n,
            i <= n - m + 1,
            forall|j: int| 0 <= j < i ==> #[trigger] s@.subrange(j, j + m) != t@,
        decreases n - m + 1 - i,
    {
        if str_eq(s.substring_char(i, i + m), t) {
            return true;
        }
        i = i + 1;
    }
    assert forall|j: int| 0 <= j && j + t@.len() <= s@.len() implies #[trigger] s@.subrange(j, j + t@.len()) != t@ by {
        assert(j < i);
    };
    false
}

/// The error text reported for a run that failed with `message`.
pub fn run_error_text(message: &str) -> (r: String)
    ensures
        r@ == run_error(message@),
{
    if find_in(TIMED_OUT, message) {
        TIMED_OUT.to_owned()
    } else {
        let mut r = RUN_FAILED.to_owned();
        r.append(message);
        r
    }
}

pub open spec fn is_digit(c: char) -> bool {
    '0' <= c && c <= '9'
}

/// The number the decimal digits `d` spell.
pub open spec fn digits_value(d: Seq<char>) -> nat
    decreases d.len(),
{
    if d.len() == 0 {
        0
    } else {
        digits_value(d.drop_last()) * 10 + (d.last() as nat - '0' as nat) as nat
    }
}

/// `s` without one leading `+`.
pub open spec fn unsigned_part(s: Seq<char>) -> Seq<char> {
    if s.len() > 0 && s[0] == '+' {
        s.drop_first()
    } else {
        s
    }
}

pub open spec fn all_digits(d: Seq<char>) -> bool {
    forall|i: int| 0 <= i < d.len() ==> is_digit(#[trigger] d[i])
}

/// A timeout written as text, read as `str::parse::<u64>` reads it: an optional `+`,
/// then one or more decimal digits, whose value fits in a `u64`.
pub open spec fn timeout_text_value(s: Seq<char>) -> Option<u64> {
    let d = unsigned_part(s);
    if d.len() > 0 && all_digits(d) && digits_value(d) <= u64::MAX {
        Some(digits_value(d) as u64)
    } else {
        None
    }
}

/// Reads a timeout given as text.
pub fn parse_timeout_text(s: &str) -> (r: Option<u64>)
    ensures
        r == timeout_text_value(s@),
{
    let n = s.unicode_len();
    let start: usize = if n > 0 && s.get_char(0) == '+' {
        1
    } else {
        0
    };
    let ghost d = unsigned_part(s@);
    assert(d =~= s@.subrange(start as int, n as int));
    if start == n {
        return None;
    }
    let mut value: u64 = 0;
    let mut i: usize = start;
    while i < n
        invariant
            start <= i <= n,
            n == s@.len(),
            d =~= s@.subrange(start as int, n as int),
            d == unsigned_part(s@),
            forall|j: int| 0 <= j < i - start ==> is_digit(#[trigger] d[j]),
            value as nat == digits_value(d.subrange(0, i - start)),
        decreases n - i,
    {
        let c = s.get_char(i);
        assert(d[i - start] == c);
        if !('0' <= c && c <= '9') {
            assert(!is_digit(d[i - start]));
            assert(!all_digits(d));
            return None;
        }
        assert(d.subrange(0, i + 1 - start).drop_last() =~= d.subrange(0, i - start));
        let digit = (c as u32 - '0' as u32) as u64;
        let ghost k = i + 1 - start;
        assert(d.subrange(0, k).last() == c);
        assert(digits_value(d.subrange(0, k)) == value as nat * 10 + digit as nat);
        if value > (u64::MAX - digit) / 10 {
            proof {
                assert(value as int * 10 + digit as int > u64::MAX) by (nonlinear_arith)
                    requires
                        value as int > (u64::MAX - digit) as int / 10,
                        digit <= 9,
                ;
                if all_digits(d) {
                    lemma_digits_value_grows(d, k, d.len() as int);
                    assert(d.subrange(0, d.len() as int) =~= d);
                }
            }
            return None;
        }
        value = value * 10 + digit;
        i = i + 1;
    }
    assert(d.subrange(0, n - start) =~= d);
    assert(all_digits(d));
    Some(value)
}

/// A longer run of digits is worth at least as much as its prefix.
proof fn lemma_digits_value_grows(d: Seq<char>, k: int, m: int)
    requires
        0 <= k <= m <= d.len(),
        forall|j: int| 0 <= j < m ==> is_digit(#[trigger] d[j]),
    ensures
        digits_value(d.subrange(0, k)) <= digits_value(d.subrange(0, m)),
    decreases m - k,
{
    if k < m {
        lemma_digits_value_grows(d, k, m - 1);
        assert(d.subrange(0, m).drop_last() =~= d.subrange(0, m - 1));
    }
}

} // verus!
