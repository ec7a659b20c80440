//! Reassembly of a streamed model response: server-sent-event lines, assistant
//! text, and tool calls whose fields arrive in fragments keyed by index.
use vstd::prelude::*;
use crate::text::{find_nl, scan_nl, trim_range, trimmed_range};
use crate::registry::str_eq;

verus! {

/// Text of a byte chunk, with invalid UTF-8 replaced.
pub uninterp spec fn utf8_lossy(b: Seq<u8>) -> Seq<char>;

/// Relies on `String::from_utf8_lossy`: the text depends on the bytes alone.
#[verifier::external_body]
fn lossy_text(b: &[u8]) -> (r: String)
    ensures
        r@ == utf8_lossy(b@),
{
    String::from_utf8_lossy(b).into_owned()
}

/// One event line of the stream.
#[derive(PartialEq, Eq, Debug)]
pub enum SseItem {
    /// The payload of a `data: ` line.
    Data(String),
    /// The `data: [DONE]` terminator.
    Done,
}

pub enum SseItemView {
    Data(Seq<char>),
    Done,
}

impl View for SseItem {
    type V = SseItemView;

    open spec fn view(&self) -> SseItemView {
        match self {
            SseItem::Data(d) => SseItemView::Data(d@),
            SseItem::Done => SseItemView::Done,
        }
    }
}

/// What a trimmed line means: `data: [DONE]` ends the stream, `data: <payload>` carries
/// a payload, anything else (blank lines, comments, other fields) is skipped.
pub open spec fn item_of(line: Seq<char>) -> Option<SseItemView> {
    if line.len() >= 6 && line.subrange(0, 6) == "data: "@ {
        let d = line.subrange(6, line.len() as int);
        if d == "[DONE]"@ {
            Some(SseItemView::Done)
        } else {
            Some(SseItemView::Data(d))
        }
    } else {
        None
    }
}

/// The items of the complete lines of `s` from position `p` on.
pub open spec fn items_from(s: Seq<char>, p: int) -> Seq<SseItemView>
    decreases s.len() - p,
{
    let l = find_nl(s, p, s.len() as int);
    if p < 0 || p >= s.len() || l >= s.len() || l < p {
        Seq::empty()
    } else {
        let rest = items_from(s, l + 1);
        match item_of(trim_range(s, p, l)) {
            Some(it) => seq![it] + rest,
            None => rest,
        }
    }
}

/// The unfinished last line of `s` from position `p` on.
pub open spec fn tail_from(s: Seq<char>, p: int) -> Seq<char>
    decreases s.len() - p,
{
    let l = find_nl(s, p, s.len() as int);
    if p < 0 || p >= s.len() || l < p {
        Seq::empty()
    } else if l >= s.len() {
        s.subrange(p, s.len() as int)
    } else {
        tail_from(s, l + 1)
    }
}

pub open spec fn item_views(v: Seq<SseItem>) -> Seq<SseItemView> {
    v.map_values(|x: SseItem| x@)
}

/// Splits the stream into lines; keeps the unfinished last line for the next chunk.
pub struct SseLines {
    buffer: String,
}

impl SseLines {
    pub closed spec fn pending(&self) -> Seq<char> {
        self.buffer@
    }

    pub fn new() -> (r: SseLines)
        ensures
            r.pending() == Seq::<char>::empty(),
    {
        SseLines { buffer: String::new() }
    }

    /// Adds text; returns the items of the lines it completes, in order.
    pub fn push_text(&mut self, text: &str) -> (r: Vec<SseItem>)
        ensures
            item_views(r@) == items_from(old(self).pending() + text@, 0),
            final(self).pending() == tail_from(old(self).pending() + text@, 0),
    {
        self.buffer.append(text);
        let s = self.buffer.as_str();
        let ghost sv = s@;
        let n = s.unicode_len();
        let mut items: Vec<SseItem> = Vec::new();
        let mut p: usize = 0;
        loop
            invariant
                sv == s@,
                sv == old(self).pending() + text@,
                n == sv.len(),
                p <= n,
                item_views(items@) + items_from(sv, p as int) == items_from(sv, 0),
                tail_from(sv, p as int) == tail_from(sv, 0),
            ensures
                sv == old(self).pending() + text@,
                item_views(items@) == items_from(sv, 0),
                sv.subrange(p as int, n as int) == tail_from(sv, 0),
            decreases n - p,
        {
            let l = scan_nl(s, p, n);
            if p >= n || l >= n {
                assert(item_views(items@) + Seq::<SseItemView>::empty() =~= item_views(items@));
                assert(sv.subrange(p as int, n as int) =~= tail_from(sv, p as int));
                break;
            }
            let line = trimmed_range(s, p, l);
            let m = line.as_str().unicode_len();
            let ghost before = items@;
            let ghost rest = items_from(sv, l + 1);
            assert(items_from(sv, p as int) == match item_of(line@) {
                Some(it) => seq![it] + rest,
                None => rest,
            });
            assert(tail_from(sv, p as int) == tail_from(sv, l + 1));
            if m >= 6 && str_eq(line.as_str().substring_char(0, 6), "data: ") {
                let d = line.as_str().substring_char(6, m);
                if str_eq(d, "[DONE]") {
                    items.push(SseItem::Done);
                } else {
                    items.push(SseItem::Data(d.to_owned()));
                }
                assert(item_views(items@) =~= item_views(before).push(items@.last()@));
                assert(item_views(items@) + rest =~= item_views(before) + (seq![items@.last()@]
                    + rest));
            }
            p = l + 1;
        }
        let rest = s.substring_char(p, n).to_owned();
        self.buffer = rest;
        items
    }

    /// Adds a chunk of bytes, read as UTF-8 with invalid sequences replaced.
    pub fn push_bytes(&mut self, chunk: &[u8]) -> (r: Vec<SseItem>)
        ensures
            item_views(r@) == items_from(old(self).pending() + utf8_lossy(chunk@), 0),
            final(self).pending() == tail_from(old(self).pending() + utf8_lossy(chunk@), 0),
    {
        let text = lossy_text(chunk);
        self.push_text(text.as_str())
    }
}

/// A tool call as far as its fragments have arrived.
#[derive(PartialEq, Eq, Debug)]
pub struct PartialCall {
    pub id: String,
    pub kind: String,
    pub name: String,
    pub arguments: String,
}

pub struct PartialCallView {
    pub id: Seq<char>,
    pub kind: Seq<char>,
    pub name: Seq<char>,
    pub arguments: Seq<char>,
}

impl View for PartialCall {
    type V = PartialCallView;

    open spec fn view(&self) -> PartialCallView {
        PartialCallView {
            id: self.id@,
            kind: self.kind@,
            name: self.name@,
            arguments: self.arguments@,
        }
    }
}

pub open spec fn empty_call() -> PartialCallView {
    PartialCallView {
        id: Seq::empty(),
        kind: Seq::empty(),
        name: Seq::empty(),
        arguments: Seq::empty(),
    }
}

pub open spec fn or_empty(o: Option<Seq<char>>) -> Seq<char> {
    match o {
        Some(s) => s,
        None => Seq::empty(),
    }
}

pub open spec fn opt_view(o: Option<&str>) -> Option<Seq<char>> {
    match o {
        Some(s) => Some(s@),
        None => None,
    }
}

/// One fragment of a tool call, for the call at `index`.
pub struct CallDelta<'a> {
    pub index: usize,
    pub id: Option<&'a str>,
    pub kind: Option<&'a str>,
    pub name: Option<&'a str>,
    pub arguments: Option<&'a str>,
}

/// `c` with a fragment's fields appended.
pub open spec fn extended(c: PartialCallView, d: CallDelta) -> PartialCallView {
    PartialCallView {
        id: c.id + or_empty(opt_view(d.id)),
        kind: c.kind + or_empty(opt_view(d.kind)),
        name: c.name + or_empty(opt_view(d.name)),
        arguments: c.arguments + or_empty(opt_view(d.arguments)),
    }
}

/// The calls after a fragment: the list grows with empty calls up to `d.index`, and
/// that call's fields are extended.
pub open spec fn with_delta(v: Seq<PartialCallView>, d: CallDelta) -> Seq<PartialCallView> {
    let i = d.index as int;
    let grown = if i < v.len() {
        v
    } else {
        v + Seq::new((i + 1 - v.len()) as nat, |k: int| empty_call())
    };
    grown.update(i, extended(grown[i], d))
}

/// Assistant text and tool calls of one streamed response.
pub struct StreamAssembler {
    role: String,
    content: String,
    calls: Vec<PartialCall>,
}

pub open spec fn call_views(v: Seq<PartialCall>) -> Seq<PartialCallView> {
    v.map_values(|c: PartialCall| c@)
}

fn append_opt(s: &mut String, o: Option<&str>)
    ensures
        final(s)@ == old(s)@ + or_empty(opt_view(o)),
{
    match o {
        Some(t) => s.append(t),
        None => {
            assert(s@ =~= s@ + Seq::<char>::empty());
        },
    }
}

impl StreamAssembler {
    pub closed spec fn role_view(&self) -> Seq<char> {
        self.role@
    }

    pub closed spec fn content_view(&self) -> Seq<char> {
        self.content@
    }

    pub closed spec fn calls_view(&self) -> Seq<PartialCallView> {
        call_views(self.calls@)
    }

    pub fn new() -> (r: StreamAssembler)
        ensures
            r.role_view() == "assistant"@,
            r.content_view() == Seq::<char>::empty(),
            r.calls_view() == Seq::<PartialCallView>::empty(),
    {
        let r = StreamAssembler { role: "assistant".to_owned(), content: String::new(), calls: Vec::new() };
        assert(r.calls_view() =~= Seq::<PartialCallView>::empty());
        r
    }

    /// A role announced by the stream replaces the current one.
    pub fn set_role(&mut self, role: &str)
        ensures
            final(self).role_view() == role@,
            final(self).content_view() == old(self).content_view(),
            final(self).calls_view() == old(self).calls_view(),
    {
        self.role = role.to_owned();
    }

    /// Appends assistant text.
    pub fn push_content(&mut self, text: &str)
        ensures
            final(self).content_view() == old(self).content_view() + text@,
            final(self).role_view() == old(self).role_view(),
            final(self).calls_view() == old(self).calls_view(),
    {
        self.content.append(text);
    }

    /// Applies a tool-call fragment.
    pub fn push_call_delta(&mut self, d: CallDelta)
        requires
            d.index < usize::MAX,
        ensures
            final(self).calls_view() == with_delta(old(self).calls_view(), d),
            final(self).content_view() == old(self).content_view(),
            final(self).role_view() == old(self).role_view(),
    {
        let ghost v = self.calls_view();
        let ghost grown = if (d.index as int) < v.len() {
            v
        } else {
            v + Seq::new((d.index + 1 - v.len()) as nat, |k: int| empty_call())
        };
        while self.calls.len() <= d.index
            invariant
                d.index < usize::MAX,
                self.content_view() == old(self).content_view(),
                self.role_view() == old(self).role_view(),
                v.len() <= self.calls@.len(),
                self.calls@.len() <= d.index + 1 || self.calls@.len() == v.len(),
                forall|k: int| 0 <= k < v.len() ==> #[trigger] call_views(self.calls@)[k] == v[k],
                forall|k: int|
                    v.len() <= k < self.calls@.len() ==> #[trigger] call_views(self.calls@)[k]
                        == empty_call(),
            decreases d.index + 1 - self.calls@.len(),
        {
            let ghost before = self.calls@;
            self.calls.push(
                PartialCall {
                    id: String::new(),
                    kind: String::new(),
                    name: String::new(),
                    arguments: String::new(),
                },
            );
            assert(call_views(self.calls@) =~= call_views(before).push(empty_call()));
            assert forall|k: int| 0 <= k < v.len() implies #[trigger] call_views(self.calls@)[k] == v[k] by {
                assert(call_views(self.calls@)[k] == call_views(before)[k]);
            };
            assert forall|k: int|
                v.len() <= k < self.calls@.len() implies #[trigger] call_views(self.calls@)[k]
                == empty_call() by {
                if k < before.len() {
                    assert(call_views(self.calls@)[k] == call_views(before)[k]);
                }
            };
        }
        assert(self.calls_view() =~= grown);
        let i = d.index;
        let mut c = self.calls.remove(i);
        assert(c@ == grown[i as int]);
        append_opt(&mut c.id, d.id);
        append_opt(&mut c.kind, d.kind);
        append_opt(&mut c.name, d.name);
        append_opt(&mut c.arguments, d.arguments);
        self.calls.insert(i, c);
        assert(self.calls_view() =~= grown.update(i as int, extended(grown[i as int], d)));
    }

    /// The role, the text (`None` when empty) and the reassembled calls.
    pub fn finish(self) -> (r: (String, Option<String>, Vec<PartialCall>))
        ensures
            r.0@ == self.role_view(),
            match r.1 {
                Some(t) => t@ == self.content_view() && t@.len() > 0,
                None => self.content_view().len() == 0,
            },
            call_views(r.2@) == self.calls_view(),
    {
        let content = if self.content.as_str().unicode_len() == 0 {
            None
        } else {
            Some(self.content)
        };
        (self.role, content, self.calls)
    }
}

} // verus!
