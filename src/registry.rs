//! The table of script invocations requested by the model and awaiting the operator.
use vstd::prelude::*;
use crate::script::{effective_timeout, timeout_of, REJECTED_OUTPUT};

verus! {

/// Where a requested script stands. It only moves forward: `WaitingReview` to
/// `Accepted` to `Executing` to `Approved`, or `WaitingReview` to `Rejected`.
#[derive(PartialEq, Eq, Structural, Clone, Copy, Debug)]
pub enum LuaCallStatus {
    WaitingReview,
    /// Approved by the operator; its run is asked for once nothing else waits.
    Accepted,
    /// Its run was asked for; the result is not in yet.
    Executing,
    Approved,
    Rejected,
}

/// One requested script.
pub struct Item {
    pub id: String,
    pub code: String,
    pub timeout_sec: Option<u64>,
    pub status: LuaCallStatus,
    /// Rendered result of the execution, or the rejection reason.
    pub output: String,
}

pub struct ItemView {
    pub id: Seq<char>,
    pub code: Seq<char>,
    pub timeout_sec: Option<u64>,
    pub status: LuaCallStatus,
    pub output: Seq<char>,
}

impl View for Item {
    type V = ItemView;

    open spec fn view(&self) -> ItemView {
        ItemView {
            id: self.id@,
            code: self.code@,
            timeout_sec: self.timeout_sec,
            status: self.status,
            output: self.output@,
        }
    }
}

#[derive(PartialEq, Eq, Structural, Clone, Copy, Debug)]
pub enum RegistryError {
    /// `insert` with an id that the registry already holds.
    DuplicateId,
    /// No entry with that id is in the state the operation needs.
    NotFound,
}

/// The pending-tool registry: every entry of the current turn, in insertion order.
pub struct Manager {
    items: Vec<Item>,
}

pub open spec fn item_views(items: Seq<Item>) -> Seq<ItemView> {
    items.map_values(|it: Item| it@)
}

/// Ids are unique among the entries.
pub open spec fn ids_unique(v: Seq<ItemView>) -> bool {
    forall|i: int, j: int| 0 <= i < v.len() && 0 <= j < v.len() && i != j ==> v[i].id != v[j].id
}

pub open spec fn has_id(v: Seq<ItemView>, id: Seq<char>) -> bool {
    exists|i: int| 0 <= i < v.len() && v[i].id == id
}

/// Index of the entry with `id` in status `st`, if any.
pub open spec fn index_with(v: Seq<ItemView>, id: Seq<char>, st: LuaCallStatus) -> Option<int> {
    if exists|i: int| 0 <= i < v.len() && v[i].id == id && v[i].status == st {
        Some(choose|i: int| 0 <= i < v.len() && v[i].id == id && v[i].status == st)
    } else {
        None
    }
}

pub open spec fn is_pending(v: Seq<ItemView>, id: Seq<char>) -> bool {
    index_with(v, id, LuaCallStatus::WaitingReview) is Some
}

/// Every entry is decided and, if approved, executed.
pub open spec fn all_terminal(v: Seq<ItemView>) -> bool {
    forall|i: int|
        0 <= i < v.len() ==> #[trigger] v[i].status == LuaCallStatus::Approved || v[i].status
            == LuaCallStatus::Rejected
}

/// No entry still waits for the operator.
pub open spec fn none_waiting(v: Seq<ItemView>) -> bool {
    forall|i: int| 0 <= i < v.len() ==> #[trigger] v[i].status != LuaCallStatus::WaitingReview
}

/// Ids of the entries that wait for the operator, in insertion order.
pub open spec fn pending_ids(v: Seq<ItemView>) -> Seq<Seq<char>>
    decreases v.len(),
{
    if v.len() == 0 {
        Seq::empty()
    } else {
        let rest = pending_ids(v.drop_last());
        if v.last().status == LuaCallStatus::WaitingReview {
            rest.push(v.last().id)
        } else {
            rest
        }
    }
}

/// `v` with entry `i` moved to status `st`, its output set to `out`.
pub open spec fn with_status(v: Seq<ItemView>, i: int, st: LuaCallStatus, out: Seq<char>) -> Seq<
    ItemView,
> {
    v.update(i, ItemView { status: st, output: out, ..v[i] })
}

/// A script the runtime is to run.
#[derive(PartialEq, Eq, Debug)]
pub struct ExecRequest {
    pub id: String,
    pub code: String,
    pub timeout_sec: u64,
}

pub struct ExecView {
    pub id: Seq<char>,
    pub code: Seq<char>,
    pub timeout_sec: u64,
}

impl View for ExecRequest {
    type V = ExecView;

    open spec fn view(&self) -> ExecView {
        ExecView { id: self.id@, code: self.code@, timeout_sec: self.timeout_sec }
    }
}

/// The run that approving entry `it` asks for: its recorded code, under its timeout.
pub open spec fn request_for(it: ItemView) -> ExecView {
    ExecView { id: it.id, code: it.code, timeout_sec: timeout_of(it.timeout_sec) }
}

/// One run for each accepted entry, in insertion order.
pub open spec fn requests_for_accepted(v: Seq<ItemView>) -> Seq<ExecView>
    decreases v.len(),
{
    if v.len() == 0 {
        Seq::empty()
    } else {
        let rest = requests_for_accepted(v.drop_last());
        if v.last().status == LuaCallStatus::Accepted {
            rest.push(request_for(v.last()))
        } else {
            rest
        }
    }
}

/// The runs due: once no entry waits for the operator, one per accepted entry.
pub open spec fn runs_due(v: Seq<ItemView>) -> Seq<ExecView> {
    if none_waiting(v) {
        requests_for_accepted(v)
    } else {
        Seq::empty()
    }
}

/// `v` once its due runs are asked for: accepted entries are executing.
pub open spec fn started(v: Seq<ItemView>) -> Seq<ItemView> {
    if none_waiting(v) {
        Seq::new(
            v.len(),
            |i: int|
                if v[i].status == LuaCallStatus::Accepted {
                    ItemView { status: LuaCallStatus::Executing, ..v[i] }
                } else {
                    v[i]
                },
        )
    } else {
        v
    }
}

/// Entry `it` once decided: approved entries are accepted, rejected ones carry the
/// rejection text.
pub open spec fn decided(it: ItemView, approve: bool) -> ItemView {
    if approve {
        ItemView { status: LuaCallStatus::Accepted, ..it }
    } else {
        ItemView { status: LuaCallStatus::Rejected, output: REJECTED_OUTPUT@, ..it }
    }
}

/// `v` with every waiting entry decided.
pub open spec fn decided_all(v: Seq<ItemView>, approve: bool) -> Seq<ItemView> {
    Seq::new(
        v.len(),
        |i: int|
            if v[i].status == LuaCallStatus::WaitingReview {
                decided(v[i], approve)
            } else {
                v[i]
            },
    )
}

pub open spec fn exec_views(r: Seq<ExecRequest>) -> Seq<ExecView> {
    r.map_values(|e: ExecRequest| e@)
}

/// What `clear` guarantees, from registry `v` to registry `w`.
pub open spec fn clear_post(v: Seq<ItemView>, w: Seq<ItemView>) -> bool {
    w == Seq::<ItemView>::empty()
}

/// Clearing is idempotent: clearing again what `clear` left changes nothing.
pub proof fn lemma_clear_idempotent(u: Seq<ItemView>, v: Seq<ItemView>, w: Seq<ItemView>)
    requires
        clear_post(u, v),
        clear_post(v, w),
    ensures
        w == v,
{
}

impl View for Manager {
    type V = Seq<ItemView>;

    closed spec fn view(&self) -> Seq<ItemView> {
        item_views(self.items@)
    }
}

impl Manager {
    pub open spec fn wf(&self) -> bool {
        ids_unique(self@)
    }

    pub fn new() -> (r: Manager)
        ensures
            r@ == Seq::<ItemView>::empty(),
            r.wf(),
    {
        let r = Manager { items: Vec::new() };
        assert(r@ =~= Seq::<ItemView>::empty());
        r
    }

    /// Drops every entry.
    pub fn clear(&mut self)
        ensures
            clear_post(old(self)@, final(self)@),
            final(self).wf(),
    {
        self.items.clear();
        assert(self@ =~= Seq::<ItemView>::empty());
    }

    pub fn len(&self) -> (r: usize)
        ensures
            r == self@.len(),
    {
        self.items.len()
    }

    pub fn is_empty(&self) -> (r: bool)
        ensures
            r == (self@.len() == 0),
    {
        self.items.len() == 0
    }

    /// The entry at position `i`.
    pub fn item(&self, i: usize) -> (r: &Item)
        requires
            i < self@.len(),
        ensures
            r@ == self@[i as int],
    {
        assert(self@[i as int] == self.items@[i as int]@);
        &self.items[i]
    }

    /// No entry waits for the operator.
    pub fn all_ready(&self) -> (r: bool)
        ensures
            r == none_waiting(self@),
    {
        let mut i: usize = 0;
        while i < self.items.len()
            invariant
                i <= self@.len(),
                forall|k: int| 0 <= k < i ==> #[trigger] self@[k].status != LuaCallStatus::WaitingReview,
            decreases self@.len() - i,
        {
            assert(self@[i as int] == self.items@[i as int]@);
            if self.items[i].status == LuaCallStatus::WaitingReview {
                assert(self@[i as int].status == LuaCallStatus::WaitingReview);
                return false;
            }
            i = i + 1;
        }
        true
    }

    /// Every entry is decided and executed, and there is at least one.
    pub fn batch_ready(&self) -> (r: bool)
        ensures
            r == (self@.len() > 0 && all_terminal(self@)),
    {
        if self.items.len() == 0 {
            return false;
        }
        let mut i: usize = 0;
        while i < self.items.len()
            invariant
                i <= self@.len(),
                forall|k: int|
                    0 <= k < i ==> #[trigger] self@[k].status == LuaCallStatus::Approved
                        || self@[k].status == LuaCallStatus::Rejected,
            decreases self@.len() - i,
        {
            assert(self@[i as int] == self.items@[i as int]@);
            let st = self.items[i].status;
            if st != LuaCallStatus::Approved && st != LuaCallStatus::Rejected {
                assert(!(self@[i as int].status == LuaCallStatus::Approved || self@[i as int].status
                    == LuaCallStatus::Rejected));
                return false;
            }
            i = i + 1;
        }
        true
    }

    /// Whether any entry has this id.
    pub fn contains(&self, id: &str) -> (r: bool)
        ensures
            r == has_id(self@, id@),
    {
        let mut i: usize = 0;
        while i < self.items.len()
            invariant
                i <= self@.len(),
                forall|k: int| 0 <= k < i ==> #[trigger] self@[k].id != id@,
            decreases self@.len() - i,
        {
            assert(self@[i as int] == self.items@[i as int]@);
            if str_eq(self.items[i].id.as_str(), id) {
                return true;
            }
            i = i + 1;
        }
        false
    }

    /// Position of the entry with `id` in status `st`.
    pub fn find(&self, id: &str, st: LuaCallStatus) -> (r: Option<usize>)
        requires
            self.wf(),
        ensures
            r is Some <==> index_with(self@, id@, st) is Some,
            r is Some ==> r->0 == index_with(self@, id@, st)->0 && r->0 < self@.len(),
    {
        let mut i: usize = 0;
        while i < self.items.len()
            invariant
                self.wf(),
                i <= self@.len(),
                forall|k: int| 0 <= k < i ==> !(#[trigger] self@[k].id == id@ && self@[k].status == st),
            decreases self@.len() - i,
        {
            assert(self@[i as int] == self.items@[i as int]@);
            if self.items[i].status == st && str_eq(self.items[i].id.as_str(), id) {
                let ghost j = index_with(self@, id@, st)->0;
                assert(self@[i as int].id == id@ && self@[i as int].status == st);
                assert(j == i) by {
                    if j != i {
                        assert(self@[j].id == self@[i as int].id);
                    }
                };
                return Some(i);
            }
            i = i + 1;
        }
        None
    }

    /// Ids of the entries waiting for the operator, in insertion order.
    pub fn pending_ids(&self) -> (r: Vec<String>)
        ensures
            r@.map_values(|s: String| s@) == pending_ids(self@),
    {
        let mut r: Vec<String> = Vec::new();
        let mut i: usize = 0;
        while i < self.items.len()
            invariant
                i <= self@.len(),
                r@.map_values(|s: String| s@) == pending_ids(self@.subrange(0, i as int)),
            decreases self@.len() - i,
        {
            let ghost before = r@;
            assert(self@.subrange(0, i + 1).drop_last() =~= self@.subrange(0, i as int));
            assert(self@[i as int] == self.items@[i as int]@);
            if self.items[i].status == LuaCallStatus::WaitingReview {
                r.push(self.items[i].id.clone());
                assert(r@.map_values(|s: String| s@) =~= before.map_values(|s: String| s@).push(
                    self@[i as int].id,
                ));
            }
            i = i + 1;
        }
        assert(self@.subrange(0, self@.len() as int) =~= self@);
        r
    }

    /// Adds a request; fails when the id is already present.
    pub fn insert(&mut self, id: &str, code: &str, timeout_sec: Option<u64>) -> (r: Result<
        (),
        RegistryError,
    >)
        requires
            old(self).wf(),
        ensures
            final(self).wf(),
            r is Err <==> has_id(old(self)@, id@),
            r is Err ==> r == Err::<(), RegistryError>(RegistryError::DuplicateId) && final(self)@
                == old(self)@,
            r is Ok ==> final(self)@ == old(self)@.push(
                ItemView {
                    id: id@,
                    code: code@,
                    timeout_sec,
                    status: LuaCallStatus::WaitingReview,
                    output: Seq::empty(),
                },
            ),
    {
        if self.contains(id) {
            return Err(RegistryError::DuplicateId);
        }
        let ghost before = self.items@;
        self.items.push(
            Item {
                id: id.to_owned(),
                code: code.to_owned(),
                timeout_sec,
                status: LuaCallStatus::WaitingReview,
                output: String::new(),
            },
        );
        assert(self@ =~= item_views(before).push(self.items@.last()@));
        Ok(())
    }

    /// Moves entry `i` to status `st` with output `out`.
    fn set_status(&mut self, i: usize, st: LuaCallStatus, out: String)
        requires
            i < old(self)@.len(),
            old(self).wf(),
        ensures
            final(self)@ == with_status(old(self)@, i as int, st, out@),
            final(self).wf(),
    {
        let ghost before = self@;
        let mut it = self.items.remove(i);
        it.status = st;
        it.output = out;
        self.items.insert(i, it);
        assert(self@ =~= with_status(before, i as int, st, out@));
    }

    /// Approves a waiting entry: it is accepted and its run waits for the other decisions.
    pub fn approve(&mut self, id: &str) -> (r: Result<(), RegistryError>)
        requires
            old(self).wf(),
        ensures
            final(self).wf(),
            r is Ok <==> is_pending(old(self)@, id@),
            r is Ok ==> final(self)@ == with_status(
                old(self)@,
                index_with(old(self)@, id@, LuaCallStatus::WaitingReview)->0,
                LuaCallStatus::Accepted,
                old(self)@[index_with(old(self)@, id@, LuaCallStatus::WaitingReview)->0].output,
            ),
            r is Err ==> r == Err::<(), RegistryError>(RegistryError::NotFound) && final(self)@
                == old(self)@,
    {
        match self.find(id, LuaCallStatus::WaitingReview) {
            Some(i) => {
                let out = self.items[i].output.clone();
                self.set_status(i, LuaCallStatus::Accepted, out);
                Ok(())
            },
            None => Err(RegistryError::NotFound),
        }
    }

    /// Records the rendered result of an approved entry.
    pub fn executed(&mut self, id: &str, output: &str) -> (r: Result<(), RegistryError>)
        requires
            old(self).wf(),
        ensures
            final(self).wf(),
            r is Ok <==> index_with(old(self)@, id@, LuaCallStatus::Executing) is Some,
            r is Ok ==> final(self)@ == with_status(
                old(self)@,
                index_with(old(self)@, id@, LuaCallStatus::Executing)->0,
                LuaCallStatus::Approved,
                output@,
            ),
            r is Err ==> r == Err::<(), RegistryError>(RegistryError::NotFound) && final(self)@
                == old(self)@,
    {
        match self.find(id, LuaCallStatus::Executing) {
            Some(i) => {
                self.set_status(i, LuaCallStatus::Approved, output.to_owned());
                Ok(())
            },
            None => Err(RegistryError::NotFound),
        }
    }

    /// Rejects a waiting entry, with `reason` as its output.
    pub fn reject(&mut self, id: &str, reason: &str) -> (r: Result<(), RegistryError>)
        requires
            old(self).wf(),
        ensures
            final(self).wf(),
            r is Ok <==> is_pending(old(self)@, id@),
            r is Ok ==> final(self)@ == with_status(
                old(self)@,
                index_with(old(self)@, id@, LuaCallStatus::WaitingReview)->0,
                LuaCallStatus::Rejected,
                reason@,
            ),
            r is Err ==> r == Err::<(), RegistryError>(RegistryError::NotFound) && final(self)@
                == old(self)@,
    {
        match self.find(id, LuaCallStatus::WaitingReview) {
            Some(i) => {
                self.set_status(i, LuaCallStatus::Rejected, reason.to_owned());
                Ok(())
            },
            None => Err(RegistryError::NotFound),
        }
    }

    /// Decides the waiting entry `id`: approving accepts it, rejecting gives it the
    /// rejection text. No run is asked for here (see `start_runs`).
    pub fn decide(&mut self, id: &str, approve: bool) -> (r: Result<(), RegistryError>)
        requires
            old(self).wf(),
        ensures
            final(self).wf(),
            r is Ok <==> is_pending(old(self)@, id@),
            r is Err ==> r == Err::<(), RegistryError>(RegistryError::NotFound) && final(self)@
                == old(self)@,
            r is Ok ==> ({
                let i = index_with(old(self)@, id@, LuaCallStatus::WaitingReview)->0;
                final(self)@ == old(self)@.update(i, decided(old(self)@[i], approve))
            }),
    {
        match self.find(id, LuaCallStatus::WaitingReview) {
            Some(i) => {
                let ghost before = self@;
                if approve {
                    let out = self.items[i].output.clone();
                    proof {
                        assert(before[i as int] == self.items@[i as int]@);
                    }
                    self.set_status(i, LuaCallStatus::Accepted, out);
                    assert(self@ =~= before.update(i as int, decided(before[i as int], true)));
                } else {
                    self.set_status(i, LuaCallStatus::Rejected, REJECTED_OUTPUT.to_owned());
                    assert(self@ =~= before.update(i as int, decided(before[i as int], false)));
                }
                Ok(())
            },
            None => Err(RegistryError::NotFound),
        }
    }

    /// Decides every waiting entry the same way. Decided entries stay as they are.
    pub fn decide_all(&mut self, approve: bool)
        requires
            old(self).wf(),
        ensures
            final(self).wf(),
            final(self)@ == decided_all(old(self)@, approve),
    {
        let ghost v = self@;
        let n = self.items.len();
        let mut i: usize = 0;
        while i < n
            invariant
                n == v.len(),
                i <= n,
                self.wf(),
                self@.len() == n,
                forall|k: int| 0 <= k < i ==> #[trigger] self@[k] == decided_all(v, approve)[k],
                forall|k: int| i <= k < n ==> #[trigger] self@[k] == v[k],
            decreases n - i,
        {
            assert(self@[i as int] == self.items@[i as int]@);
            let ghost before = self@;
            if self.items[i].status == LuaCallStatus::WaitingReview {
                if approve {
                    let out = self.items[i].output.clone();
                    self.set_status(i, LuaCallStatus::Accepted, out);
                } else {
                    self.set_status(i, LuaCallStatus::Rejected, REJECTED_OUTPUT.to_owned());
                }
            }
            assert forall|k: int| 0 <= k <= i implies #[trigger] self@[k] == decided_all(v, approve)[k] by {
                if k < i {
                    assert(self@[k] == before[k]);
                }
            };
            assert forall|k: int| i + 1 <= k < n implies #[trigger] self@[k] == v[k] by {
                assert(self@[k] == before[k]);
            };
            i = i + 1;
        }
        assert(self@ =~= decided_all(v, approve));
    }

    /// Once no entry waits for the operator, asks for the run of every accepted entry:
    /// one request each, in insertion order, with the entry's recorded code and timeout;
    /// those entries are then executing. While an entry waits, nothing changes.
    pub fn start_runs(&mut self) -> (r: Vec<ExecRequest>)
        requires
            old(self).wf(),
        ensures
            final(self).wf(),
            final(self)@ == started(old(self)@),
            exec_views(r@) == runs_due(old(self)@),
    {
        let mut reqs: Vec<ExecRequest> = Vec::new();
        if !self.all_ready() {
            assert(exec_views(reqs@) =~= Seq::<ExecView>::empty());
            return reqs;
        }
        let ghost v = self@;
        let n = self.items.len();
        let mut i: usize = 0;
        while i < n
            invariant
                n == v.len(),
                i <= n,
                self.wf(),
                none_waiting(v),
                self@.len() == n,
                forall|k: int| 0 <= k < i ==> #[trigger] self@[k] == started(v)[k],
                forall|k: int| i <= k < n ==> #[trigger] self@[k] == v[k],
                exec_views(reqs@) == requests_for_accepted(v.subrange(0, i as int)),
            decreases n - i,
        {
            assert(v.subrange(0, i + 1).drop_last() =~= v.subrange(0, i as int));
            assert(self@[i as int] == self.items@[i as int]@);
            let ghost before = self@;
            let ghost rs = reqs@;
            if self.items[i].status == LuaCallStatus::Accepted {
                let req = ExecRequest {
                    id: self.items[i].id.clone(),
                    code: self.items[i].code.clone(),
                    timeout_sec: effective_timeout(self.items[i].timeout_sec),
                };
                let out = self.items[i].output.clone();
                self.set_status(i, LuaCallStatus::Executing, out);
                reqs.push(req);
                assert(exec_views(reqs@) =~= exec_views(rs).push(request_for(v[i as int])));
            }
            assert forall|k: int| 0 <= k <= i implies #[trigger] self@[k] == started(v)[k] by {
                if k < i {
                    assert(self@[k] == before[k]);
                }
            };
            assert forall|k: int| i + 1 <= k < n implies #[trigger] self@[k] == v[k] by {
                assert(self@[k] == before[k]);
            };
            i = i + 1;
        }
        assert(self@ =~= started(v));
        assert(v.subrange(0, n as int) =~= v);
        reqs
    }

    /// Hands out every entry, in insertion order, and empties the registry, when all
    /// are decided and executed; otherwise leaves it as it is.
    pub fn take_batch_if_complete(&mut self) -> (r: Option<Vec<Item>>)
        requires
            old(self).wf(),
        ensures
            final(self).wf(),
            r is Some <==> old(self)@.len() > 0 && all_terminal(old(self)@),
            r is Some ==> item_views(r->0@) == old(self)@ && final(self)@.len() == 0,
            r is None ==> final(self)@ == old(self)@,
    {
        if !self.batch_ready() {
            return None;
        }
        let mut batch: Vec<Item> = Vec::new();
        std::mem::swap(&mut batch, &mut self.items);
        assert(self@ =~= Seq::<ItemView>::empty());
        Some(batch)
    }
}

/// Whether two strings hold the same characters.
pub fn str_eq(a: &str, b: &str) -> (r: bool)
    ensures
        r == (a@ == b@),
{
    let n = a.unicode_len();
    if n != b.unicode_len() {
        return false;
    }
    let mut k: usize = 0;
    while k < n
        invariant
            n == a@.len() == b@.len(),
            k <= n,
            forall|i: int| 0 <= i < k ==> a@[i] == b@[i],
        decreases n - k,
    {
        if a.get_char(k) != b.get_char(k) {
            return false;
        }
        k = k + 1;
    }
    assert(a@ =~= b@);
    true
}

} // verus!
