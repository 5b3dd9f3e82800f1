//! Background work: the list of background operations on the tasks page and
//! the header indicator that shows whether anything is running.
use vstd::prelude::*;
use std::collections::HashSet;
use crate::text::{append_chars, chars_of, decimal, lit, push_str, string_of, u64_text};

verus! {

broadcast use vstd::std_specs::hash::group_hash_axioms;

// ---------------------------------------------------------------------------
// Background operations listed on the tasks page
// ---------------------------------------------------------------------------

/// One background operation as listed.
#[derive(Debug)]
pub struct BackgroundOp {
    pub id: u64,
    pub title: String,
    /// `Running`, `Done` or `Failed: …`.
    pub status: String,
    /// The style of the status line once finished.
    pub status_class: Option<&'static str>,
    /// Whether the progress bar shows; it hides once the operation finishes.
    pub progress_visible: bool,
    /// Whether the operation is still running.
    pub active: bool,
}

/// A background operation as plain values.
pub struct BackgroundOpView {
    pub id: u64,
    pub title: Seq<char>,
    pub status: Seq<char>,
    pub status_class: Option<Seq<char>>,
    pub progress_visible: bool,
    pub active: bool,
}

impl View for BackgroundOp {
    type V = BackgroundOpView;

    open spec fn view(&self) -> BackgroundOpView {
        BackgroundOpView {
            id: self.id,
            title: self.title@,
            status: self.status@,
            status_class: match self.status_class {
                Some(c) => Some(c@),
                None => None,
            },
            progress_visible: self.progress_visible,
            active: self.active,
        }
    }
}

/// The background operations listed, in the order they started, and how
/// many of them still run.
pub struct BackgroundOps {
    pub ops: Vec<BackgroundOp>,
    pub active_count: usize,
}

/// The number of operations still running.
pub open spec fn count_active(ops: Seq<BackgroundOpView>) -> nat
    decreases ops.len(),
{
    if ops.len() == 0 {
        0
    } else {
        count_active(ops.drop_last()) + if ops.last().active {
            1nat
        } else {
            0nat
        }
    }
}

/// The position of the operation with an id.
pub open spec fn op_index(ops: Seq<BackgroundOpView>, id: u64) -> Option<int> {
    if exists|i: int| 0 <= i < ops.len() && #[trigger] ops[i].id == id {
        Some(choose|i: int| 0 <= i < ops.len() && #[trigger] ops[i].id == id)
    } else {
        None
    }
}

/// Whether an operation with this id is listed.
pub open spec fn has_op(ops: Seq<BackgroundOpView>, id: u64) -> bool {
    exists|i: int| 0 <= i < ops.len() && #[trigger] ops[i].id == id
}

/// The list as plain values.
pub open spec fn ops_view(ops: Seq<BackgroundOp>) -> Seq<BackgroundOpView> {
    ops.map_values(|o: BackgroundOp| o@)
}

/// Each operation is listed once.
pub open spec fn ids_unique(ops: Seq<BackgroundOpView>) -> bool {
    forall|i: int, j: int| 0 <= i < j < ops.len() ==> ops[i].id != ops[j].id
}

/// The list with the operation at `i` left out.
pub open spec fn without(ops: Seq<BackgroundOpView>, i: int) -> Seq<BackgroundOpView> {
    ops.subrange(0, i) + ops.subrange(i + 1, ops.len() as int)
}

/// The status line of the background list.
pub open spec fn background_status_spec(active: nat) -> Seq<char> {
    if active == 0 {
        "No background activity"@
    } else if active == 1 {
        "1 background task running"@
    } else {
        decimal(active) + " background tasks running"@
    }
}

proof fn lemma_count_push(ops: Seq<BackgroundOpView>, o: BackgroundOpView)
    ensures
        count_active(ops.push(o)) == count_active(ops) + if o.active {
            1nat
        } else {
            0nat
        },
{
    assert(ops.push(o).drop_last() =~= ops);
}

proof fn lemma_count_le_len(ops: Seq<BackgroundOpView>)
    ensures
        count_active(ops) <= ops.len(),
    decreases ops.len(),
{
    if ops.len() > 0 {
        lemma_count_le_len(ops.drop_last());
    }
}

proof fn lemma_count_concat(a: Seq<BackgroundOpView>, b: Seq<BackgroundOpView>)
    ensures
        count_active(a + b) == count_active(a) + count_active(b),
    decreases b.len(),
{
    if b.len() == 0 {
        assert(a + b =~= a);
    } else {
        lemma_count_concat(a, b.drop_last());
        assert((a + b).drop_last() =~= a + b.drop_last());
    }
}

proof fn lemma_count_update(ops: Seq<BackgroundOpView>, i: int, o: BackgroundOpView)
    requires
        0 <= i < ops.len(),
    ensures
        count_active(ops.update(i, o)) + (if ops[i].active {
            1nat
        } else {
            0nat
        }) == count_active(ops) + if o.active {
            1nat
        } else {
            0nat
        },
{
    let pre = ops.subrange(0, i);
    let post = ops.subrange(i + 1, ops.len() as int);
    assert(ops =~= pre + seq![ops[i]] + post);
    assert(ops.update(i, o) =~= pre + seq![o] + post);
    lemma_count_concat(pre + seq![ops[i]], post);
    lemma_count_concat(pre, seq![ops[i]]);
    lemma_count_concat(pre + seq![o], post);
    lemma_count_concat(pre, seq![o]);
    assert(seq![ops[i]].drop_last() =~= Seq::<BackgroundOpView>::empty());
    assert(seq![o].drop_last() =~= Seq::<BackgroundOpView>::empty());
}

proof fn lemma_count_without(ops: Seq<BackgroundOpView>, i: int)
    requires
        0 <= i < ops.len(),
    ensures
        count_active(without(ops, i)) + (if ops[i].active {
            1nat
        } else {
            0nat
        }) == count_active(ops),
{
    let pre = ops.subrange(0, i);
    let post = ops.subrange(i + 1, ops.len() as int);
    let one = seq![ops[i]];
    assert(ops =~= pre + one + post);
    lemma_count_concat(pre + one, post);
    lemma_count_concat(pre, one);
    lemma_count_concat(pre, post);
    assert(without(ops, i) =~= pre + post);
    assert(one.drop_last() =~= Seq::<BackgroundOpView>::empty());
    lemma_count_push(Seq::<BackgroundOpView>::empty(), ops[i]);
    assert(Seq::<BackgroundOpView>::empty().push(ops[i]) =~= one);
    assert(count_active(one) == if ops[i].active {
        1nat
    } else {
        0nat
    });
}

/// How long a finished operation stays listed, in milliseconds, before
/// `remove_background_op` takes it out.
pub const FINISHED_ROW_LIFETIME_MS: u64 = 3000;

/// A call that changes the background list.
pub enum BackgroundCall {
    Push { id: u64, title: Seq<char> },
    Complete(u64),
    Fail { id: u64, msg: Seq<char> },
    Remove(u64),
}

/// The list with the operation `id` (if listed) marked finished.
pub open spec fn bg_finish(ops: Seq<BackgroundOpView>, id: u64, status: Seq<char>, class: Seq<char>) -> Seq<BackgroundOpView> {
    match op_index(ops, id) {
        Some(i) => ops.update(
            i,
            BackgroundOpView {
                status: status,
                status_class: Some(class),
                progress_visible: false,
                active: false,
                ..ops[i]
            },
        ),
        None => ops,
    }
}

/// The list after a call, as the list's methods state it.
pub open spec fn bg_step(ops: Seq<BackgroundOpView>, c: BackgroundCall) -> Seq<BackgroundOpView> {
    match c {
        BackgroundCall::Push { id, title } => if has_op(ops, id) {
            ops
        } else {
            ops.push(
                BackgroundOpView {
                    id,
                    title,
                    status: "Running"@,
                    status_class: None,
                    progress_visible: true,
                    active: true,
                },
            )
        },
        BackgroundCall::Complete(id) => bg_finish(ops, id, "Done"@, "dim-label"@),
        BackgroundCall::Fail { id, msg } => bg_finish(ops, id, "Failed: "@ + msg, "error"@),
        BackgroundCall::Remove(id) => match op_index(ops, id) {
            Some(i) => without(ops, i),
            None => ops,
        },
    }
}

/// The list after a sequence of calls on an empty one.
pub open spec fn bg_run(calls: Seq<BackgroundCall>) -> Seq<BackgroundOpView>
    decreases calls.len(),
{
    if calls.len() == 0 {
        Seq::empty()
    } else {
        bg_step(bg_run(calls.drop_last()), calls.last())
    }
}

/// Whether the operation `id` is listed and still running.
pub open spec fn row_active(ops: Seq<BackgroundOpView>, id: u64) -> bool {
    exists|i: int| 0 <= i < ops.len() && #[trigger] ops[i].id == id && ops[i].active
}

/// Whether `id` is listed after the calls: pushed and not removed since.
pub open spec fn listed_after(calls: Seq<BackgroundCall>, id: u64) -> bool
    decreases calls.len(),
{
    if calls.len() == 0 {
        false
    } else {
        match calls.last() {
            BackgroundCall::Push { id: x, .. } => x == id || listed_after(calls.drop_last(), id),
            BackgroundCall::Remove(x) => x != id && listed_after(calls.drop_last(), id),
            _ => listed_after(calls.drop_last(), id),
        }
    }
}

/// Whether `id` is running after the calls: pushed while not listed, and
/// neither completed, failed nor removed since. A push of a listed id
/// changes nothing.
pub open spec fn running_after(calls: Seq<BackgroundCall>, id: u64) -> bool
    decreases calls.len(),
{
    if calls.len() == 0 {
        false
    } else {
        let prev = calls.drop_last();
        match calls.last() {
            BackgroundCall::Push { id: x, .. } => if x == id && !listed_after(prev, id) {
                true
            } else {
                running_after(prev, id)
            },
            BackgroundCall::Complete(x) => x != id && running_after(prev, id),
            BackgroundCall::Fail { id: x, .. } => x != id && running_after(prev, id),
            BackgroundCall::Remove(x) => x != id && running_after(prev, id),
        }
    }
}

proof fn lemma_op_index_unique(ops: Seq<BackgroundOpView>, id: u64)
    requires
        ids_unique(ops),
    ensures
        op_index(ops, id) matches Some(i) ==> 0 <= i < ops.len() && ops[i].id == id && forall|j: int|
            0 <= j < ops.len() && #[trigger] ops[j].id == id ==> j == i,
        op_index(ops, id) is None <==> !has_op(ops, id),
{
}

proof fn lemma_bg_finish(ops: Seq<BackgroundOpView>, x: u64, status: Seq<char>, class: Seq<char>)
    requires
        ids_unique(ops),
    ensures
        ids_unique(bg_finish(ops, x, status, class)),
        forall|id: u64| #[trigger] has_op(bg_finish(ops, x, status, class), id) == has_op(ops, id),
        forall|id: u64| #[trigger] row_active(bg_finish(ops, x, status, class), id) == (row_active(ops, id) && id != x),
{
    lemma_op_index_unique(ops, x);
    let f = bg_finish(ops, x, status, class);
    assert forall|i: int| 0 <= i < ops.len() implies #[trigger] f[i].id == ops[i].id by {}
    assert(f.len() == ops.len());
    assert forall|id: u64| #[trigger] has_op(f, id) == has_op(ops, id) by {
        if has_op(ops, id) {
            let i = choose|i: int| 0 <= i < ops.len() && #[trigger] ops[i].id == id;
            assert(f[i].id == id);
        }
        if has_op(f, id) {
            let i = choose|i: int| 0 <= i < f.len() && #[trigger] f[i].id == id;
            assert(ops[i].id == id);
        }
    }
    assert forall|id: u64| #[trigger] row_active(f, id) == (row_active(ops, id) && id != x) by {
        if row_active(ops, id) && id != x {
            let i = choose|i: int| 0 <= i < ops.len() && #[trigger] ops[i].id == id && ops[i].active;
            assert(f[i].id == id && f[i].active);
        }
        if row_active(f, id) {
            let i = choose|i: int| 0 <= i < f.len() && #[trigger] f[i].id == id && f[i].active;
            assert(ops[i].id == id);
            assert(ops[i].active);
            if id == x {
                assert(op_index(ops, x) is Some);
            }
        }
    }
}

proof fn lemma_bg_step(ops: Seq<BackgroundOpView>, c: BackgroundCall)
    requires
        ids_unique(ops),
    ensures
        ids_unique(bg_step(ops, c)),
        forall|id: u64| #[trigger] has_op(bg_step(ops, c), id) == match c {
            BackgroundCall::Push { id: x, .. } => x == id || has_op(ops, id),
            BackgroundCall::Remove(x) => x != id && has_op(ops, id),
            _ => has_op(ops, id),
        },
        forall|id: u64| #[trigger] row_active(bg_step(ops, c), id) == match c {
            BackgroundCall::Push { id: x, .. } => if x == id && !has_op(ops, id) {
                true
            } else {
                row_active(ops, id)
            },
            BackgroundCall::Complete(x) => x != id && row_active(ops, id),
            BackgroundCall::Fail { id: x, .. } => x != id && row_active(ops, id),
            BackgroundCall::Remove(x) => x != id && row_active(ops, id),
        },
{
    let s = bg_step(ops, c);
    match c {
        BackgroundCall::Push { id: x, title } => {
            if !has_op(ops, x) {
                let n = ops.len() as int;
                assert forall|i: int, j: int| 0 <= i < j < s.len() implies s[i].id != s[j].id by {
                    if j == n {
                        assert(ops[i].id == s[i].id);
                    }
                }
                assert forall|id: u64| #[trigger] has_op(s, id) == (x == id || has_op(ops, id)) by {
                    if has_op(ops, id) {
                        let i = choose|i: int| 0 <= i < ops.len() && #[trigger] ops[i].id == id;
                        assert(s[i].id == id);
                    }
                    if x == id {
                        assert(s[n].id == id);
                    }
                    if has_op(s, id) && x != id {
                        let i = choose|i: int| 0 <= i < s.len() && #[trigger] s[i].id == id;
                        assert(i != n);
                        assert(ops[i].id == id);
                    }
                }
                assert forall|id: u64| #[trigger] row_active(s, id) == (if x == id && !has_op(ops, id) {
                    true
                } else {
                    row_active(ops, id)
                }) by {
                    if x == id {
                        assert(s[n].id == id && s[n].active);
                        if row_active(ops, id) {
                            let i = choose|i: int| 0 <= i < ops.len() && #[trigger] ops[i].id == id && ops[i].active;
                        }
                    } else {
                        if row_active(ops, id) {
                            let i = choose|i: int| 0 <= i < ops.len() && #[trigger] ops[i].id == id && ops[i].active;
                            assert(s[i].id == id && s[i].active);
                        }
                        if row_active(s, id) {
                            let i = choose|i: int| 0 <= i < s.len() && #[trigger] s[i].id == id && s[i].active;
                            assert(i != n);
                            assert(ops[i].id == id);
                        }
                    }
                }
            }
        },
        BackgroundCall::Complete(x) => {
            lemma_bg_finish(ops, x, "Done"@, "dim-label"@);
        },
        BackgroundCall::Fail { id: x, msg } => {
            lemma_bg_finish(ops, x, "Failed: "@ + msg, "error"@);
        },
        BackgroundCall::Remove(x) => {
            lemma_op_index_unique(ops, x);
            if let Some(k) = op_index(ops, x) {
                let w = without(ops, k);
                assert forall|i: int| 0 <= i < w.len() implies #[trigger] w[i] == ops[if i < k {
                    i
                } else {
                    i + 1
                }] by {}
                assert forall|i: int, j: int| 0 <= i < j < w.len() implies w[i].id != w[j].id by {
                    let a = if i < k { i } else { i + 1 };
                    let b = if j < k { j } else { j + 1 };
                    assert(w[i] == ops[a]);
                    assert(w[j] == ops[b]);
                }
                assert forall|id: u64| #[trigger] has_op(w, id) == (x != id && has_op(ops, id)) by {
                    if x != id && has_op(ops, id) {
                        let i = choose|i: int| 0 <= i < ops.len() && #[trigger] ops[i].id == id;
                        assert(i != k);
                        let a = if i < k { i } else { i - 1 };
                        assert(w[a] == ops[i]);
                    }
                    if has_op(w, id) {
                        let i = choose|i: int| 0 <= i < w.len() && #[trigger] w[i].id == id;
                        let a = if i < k { i } else { i + 1 };
                        assert(w[i] == ops[a]);
                        assert(a != k);
                    }
                }
                assert forall|id: u64| #[trigger] row_active(w, id) == (x != id && row_active(ops, id)) by {
                    if x != id && row_active(ops, id) {
                        let i = choose|i: int| 0 <= i < ops.len() && #[trigger] ops[i].id == id && ops[i].active;
                        assert(i != k);
                        let a = if i < k { i } else { i - 1 };
                        assert(w[a] == ops[i]);
                    }
                    if row_active(w, id) {
                        let i = choose|i: int| 0 <= i < w.len() && #[trigger] w[i].id == id && w[i].active;
                        let a = if i < k { i } else { i + 1 };
                        assert(w[i] == ops[a]);
                        assert(a != k);
                    }
                }
            } else {
                assert forall|id: u64| #[trigger] row_active(ops, id) implies x != id by {
                    let i = choose|i: int| 0 <= i < ops.len() && #[trigger] ops[i].id == id && ops[i].active;
                }
            }
        },
    }
}

/// Over any sequence of calls on an empty list, each operation is listed
/// once, an id is listed when it was pushed and not removed since, and its
/// row is running when it was pushed while not listed (a repeated push
/// changes nothing) and not completed, failed or removed since. The running
/// count that the list keeps (`wf`) counts exactly these rows.
pub proof fn lemma_background_calls(calls: Seq<BackgroundCall>)
    ensures
        ids_unique(bg_run(calls)),
        forall|id: u64| #[trigger] has_op(bg_run(calls), id) == listed_after(calls, id),
        forall|id: u64| #[trigger] row_active(bg_run(calls), id) == running_after(calls, id),
    decreases calls.len(),
{
    if calls.len() > 0 {
        let prev = calls.drop_last();
        lemma_background_calls(prev);
        lemma_bg_step(bg_run(prev), calls.last());
    }
}

/// Finishing an operation takes it off the running count at most once:
/// the count drops by one when its row was running, and a second finish
/// leaves the count as it is.
pub proof fn lemma_finish_counts_once(ops: Seq<BackgroundOpView>, id: u64, status: Seq<char>, class: Seq<char>)
    requires
        ids_unique(ops),
    ensures
        count_active(bg_finish(ops, id, status, class)) + (if row_active(ops, id) {
            1nat
        } else {
            0nat
        }) == count_active(ops),
        count_active(bg_finish(bg_finish(ops, id, status, class), id, status, class)) == count_active(
            bg_finish(ops, id, status, class),
        ),
{
    lemma_op_index_unique(ops, id);
    lemma_bg_finish(ops, id, status, class);
    let f = bg_finish(ops, id, status, class);
    if let Some(i) = op_index(ops, id) {
        lemma_count_update(ops, i, f[i]);
        assert(ops.update(i, f[i]) == f);
        if row_active(ops, id) {
            let k = choose|k: int| 0 <= k < ops.len() && #[trigger] ops[k].id == id && ops[k].active;
            assert(k == i);
        }
        lemma_op_index_unique(f, id);
        let i2 = op_index(f, id)->0;
        assert(f[i].id == id);
        assert(i2 == i);
        lemma_count_update(f, i, bg_finish(f, id, status, class)[i]);
        assert(f.update(i, bg_finish(f, id, status, class)[i]) == bg_finish(f, id, status, class));
    } else {
        assert(!row_active(ops, id));
        lemma_op_index_unique(f, id);
    }
}

impl BackgroundOps {
    /// The list is well formed: each operation is listed once, and the count
    /// is the number of those still running.
    pub open spec fn wf(&self) -> bool {
        &&& ids_unique(ops_view(self.ops@))
        &&& self.active_count == count_active(ops_view(self.ops@))
    }

    /// The operations as plain values.
    pub open spec fn view_ops(&self) -> Seq<BackgroundOpView> {
        ops_view(self.ops@)
    }

    /// An empty list.
    pub fn new() -> (r: Self)
        ensures
            r.wf(),
            r.view_ops() == Seq::<BackgroundOpView>::empty(),
    {
        let r = BackgroundOps { ops: Vec::new(), active_count: 0 };
        assert(r.view_ops() =~= Seq::<BackgroundOpView>::empty());
        r
    }

    fn find(&self, id: u64) -> (r: Option<usize>)
        ensures
            r matches Some(i) ==> i < self.ops@.len() && self.view_ops()[i as int].id == id,
            r is None ==> !has_op(self.view_ops(), id),
    {
        let mut i: usize = 0;
        while i < self.ops.len()
            invariant
                i <= self.ops@.len(),
                forall|j: int| 0 <= j < i ==> #[trigger] self.view_ops()[j].id != id,
            decreases self.ops@.len() - i,
        {
            if self.ops[i].id == id {
                return Some(i);
            }
            i = i + 1;
        }
        None
    }

    /// Lists a new running operation; an id already listed changes nothing.
    pub fn push_background_op(&mut self, id: u64, title: &str)
        requires
            old(self).wf(),
        ensures
            final(self).wf(),
            final(self).view_ops() == bg_step(old(self).view_ops(), BackgroundCall::Push { id, title: title@ }),
            has_op(old(self).view_ops(), id) ==> final(self).view_ops() == old(self).view_ops(),
            !has_op(old(self).view_ops(), id) ==> final(self).view_ops() == old(self).view_ops().push(
                BackgroundOpView {
                    id,
                    title: title@,
                    status: "Running"@,
                    status_class: None,
                    progress_visible: true,
                    active: true,
                },
            ),
    {
        match self.find(id) {
            Some(_) => {},
            None => {
                let ghost before = self.view_ops();
                let op = BackgroundOp {
                    id,
                    title: string_of(&chars_of(title)),
                    status: string_of(&lit("Running")),
                    status_class: None,
                    progress_visible: true,
                    active: true,
                };
                self.ops.push(op);
                let n = self.ops.len();
                proof {
                    assert(self.view_ops() =~= before.push(op@));
                    lemma_count_push(before, op@);
                    lemma_count_le_len(self.view_ops());
                    assert forall|a: int, b: int| 0 <= a < b < self.view_ops().len() implies self.view_ops()[a].id
                        != self.view_ops()[b].id by {
                        if b == before.len() {
                            assert(before[a].id != id);
                        } else {
                            assert(before[a].id != before[b].id);
                        }
                    }
                }
                self.active_count = self.active_count.saturating_add(1);
            },
        }
    }

    fn finish(&mut self, id: u64, status: String, class: Option<&'static str>)
        requires
            old(self).wf(),
        ensures
            final(self).wf(),
            match op_index(old(self).view_ops(), id) {
                Some(i) => final(self).view_ops() == old(self).view_ops().update(
                    i,
                    BackgroundOpView {
                        status: status@,
                        status_class: match class {
                            Some(c) => Some(c@),
                            None => None,
                        },
                        progress_visible: false,
                        active: false,
                        ..old(self).view_ops()[i]
                    },
                ),
                None => final(self).view_ops() == old(self).view_ops(),
            },
    {
        match self.find(id) {
            None => {},
            Some(i) => {
                let ghost before = self.view_ops();
                let ghost idx = op_index(before, id);
                proof {
                    assert(has_op(before, id));
                    let k = choose|k: int| 0 <= k < before.len() && #[trigger] before[k].id == id;
                    assert(k == i);
                }
                let was_active = self.ops[i].active;
                let old_op = self.ops.remove(i);
                let op = BackgroundOp {
                    id: old_op.id,
                    title: old_op.title,
                    status,
                    status_class: class,
                    progress_visible: false,
                    active: false,
                };
                self.ops.insert(i, op);
                proof {
                    assert(self.view_ops() =~= before.update(i as int, op@));
                    lemma_count_update(before, i as int, op@);
                    assert forall|a: int, b: int| 0 <= a < b < self.view_ops().len() implies self.view_ops()[a].id
                        != self.view_ops()[b].id by {
                        assert(before[a].id != before[b].id);
                    }
                }
                if was_active {
                    self.active_count = self.active_count.saturating_sub(1);
                }
            },
        }
    }

    /// Marks an operation done.
    pub fn complete_background_op(&mut self, id: u64)
        requires
            old(self).wf(),
        ensures
            final(self).wf(),
            final(self).view_ops() == bg_step(old(self).view_ops(), BackgroundCall::Complete(id)),
            match op_index(old(self).view_ops(), id) {
                Some(i) => final(self).view_ops() == old(self).view_ops().update(
                    i,
                    BackgroundOpView {
                        status: "Done"@,
                        status_class: Some("dim-label"@),
                        progress_visible: false,
                        active: false,
                        ..old(self).view_ops()[i]
                    },
                ),
                None => final(self).view_ops() == old(self).view_ops(),
            },
    {
        self.finish(id, string_of(&lit("Done")), Some("dim-label"));
    }

    /// Marks an operation failed with a message.
    pub fn fail_background_op(&mut self, id: u64, msg: &str)
        requires
            old(self).wf(),
        ensures
            final(self).wf(),
            final(self).view_ops() == bg_step(old(self).view_ops(), BackgroundCall::Fail { id, msg: msg@ }),
            match op_index(old(self).view_ops(), id) {
                Some(i) => final(self).view_ops() == old(self).view_ops().update(
                    i,
                    BackgroundOpView {
                        status: "Failed: "@ + msg@,
                        status_class: Some("error"@),
                        progress_visible: false,
                        active: false,
                        ..old(self).view_ops()[i]
                    },
                ),
                None => final(self).view_ops() == old(self).view_ops(),
            },
    {
        let mut t = lit("Failed: ");
        push_str(&mut t, msg);
        self.finish(id, string_of(&t), Some("error"));
    }

    /// Takes an operation off the list.
    pub fn remove_background_op(&mut self, id: u64)
        requires
            old(self).wf(),
        ensures
            final(self).wf(),
            final(self).view_ops() == bg_step(old(self).view_ops(), BackgroundCall::Remove(id)),
            match op_index(old(self).view_ops(), id) {
                Some(i) => final(self).view_ops() == without(old(self).view_ops(), i),
                None => final(self).view_ops() == old(self).view_ops(),
            },
    {
        match self.find(id) {
            None => {},
            Some(i) => {
                let ghost before = self.view_ops();
                proof {
                    assert(has_op(before, id));
                    let k = choose|k: int| 0 <= k < before.len() && #[trigger] before[k].id == id;
                    assert(k == i);
                }
                let op = self.ops.remove(i);
                proof {
                    assert(self.view_ops() =~= without(before, i as int));
                    lemma_count_without(before, i as int);
                    assert forall|a: int, b: int| 0 <= a < b < self.view_ops().len() implies self.view_ops()[a].id
                        != self.view_ops()[b].id by {
                        if b < i {
                        } else if a < i {
                            assert(self.view_ops()[b] == before[b + 1]);
                        } else {
                            assert(self.view_ops()[a] == before[a + 1]);
                            assert(self.view_ops()[b] == before[b + 1]);
                        }
                    }
                }
                if op.active {
                    self.active_count = self.active_count.saturating_sub(1);
                }
            },
        }
    }

    /// The status line of the list.
    pub fn status_text(&self) -> (r: String)
        ensures
            r@ == background_status_spec(self.active_count as nat),
    {
        if self.active_count == 0 {
            string_of(&lit("No background activity"))
        } else if self.active_count == 1 {
            string_of(&lit("1 background task running"))
        } else {
            let mut v = u64_text(self.active_count as u64);
            push_str(&mut v, " background tasks running");
            string_of(&v)
        }
    }

    /// Whether the list shows (else its empty notice does).
    pub fn list_visible(&self) -> (r: bool)
        ensures
            r == (self.ops@.len() > 0),
    {
        self.ops.len() > 0
    }
}

/// A new operation pushed and then removed leaves the list as it was, and
/// the count of running operations with it.
pub proof fn lemma_background_push_then_remove(ops: Seq<BackgroundOpView>, op: BackgroundOpView)
    requires
        ids_unique(ops),
        !has_op(ops, op.id),
    ensures
        op_index(ops.push(op), op.id) == Some(ops.len() as int),
        without(ops.push(op), ops.len() as int) == ops,
        count_active(without(ops.push(op), ops.len() as int)) == count_active(ops),
{
    let grown = ops.push(op);
    assert(grown[ops.len() as int].id == op.id);
    let k = choose|k: int| 0 <= k < grown.len() && #[trigger] grown[k].id == op.id;
    if k < ops.len() {
        assert(ops[k].id == op.id);
    }
    assert(without(grown, ops.len() as int) =~= ops);
}

// ---------------------------------------------------------------------------
// The header indicator
// ---------------------------------------------------------------------------

/// The icons tried for the idle indicator, best first.
pub fn idle_icon_candidates() -> (r: Vec<&'static str>)
    ensures
        r@.len() == 3,
        r@[0]@ == "circle-outline-thick-symbolic"@,
        r@[1]@ == "circle-outline-symbolic"@,
        r@[2]@ == "emblem-system-symbolic"@,
{
    vec!["circle-outline-thick-symbolic", "circle-outline-symbolic", "emblem-system-symbolic"]
}

/// The icons tried for the busy indicator, best first.
pub fn busy_icon_candidates() -> (r: Vec<&'static str>)
    ensures
        r@.len() == 3,
        r@[0]@ == "spinner-symbolic"@,
        r@[1]@ == "process-working-symbolic"@,
        r@[2]@ == "emblem-synchronizing-symbolic"@,
{
    vec!["spinner-symbolic", "process-working-symbolic", "emblem-synchronizing-symbolic"]
}

/// The first position whose icon the theme has.
pub open spec fn first_available(available: Seq<bool>, from: int) -> Option<int>
    decreases available.len() - from,
{
    if from < 0 || from >= available.len() {
        None
    } else if available[from] {
        Some(from)
    } else {
        first_available(available, from + 1)
    }
}

/// The characters of each string.
pub open spec fn str_views(s: Seq<&str>) -> Seq<Seq<char>> {
    s.map_values(|c: &str| c@)
}

/// The icon shown: the first candidate the theme has, else the first
/// candidate, else the generic system icon.
pub open spec fn resolve_icon_spec(candidates: Seq<Seq<char>>, available: Seq<bool>) -> Seq<char> {
    match first_available(available, 0) {
        Some(i) => candidates[i],
        None => if candidates.len() > 0 {
            candidates[0]
        } else {
            "emblem-system-symbolic"@
        },
    }
}

/// The icon shown; `available[i]` says whether the theme has
/// `candidates[i]` (all false without a display).
pub fn resolve_icon_name(candidates: &[&str], available: &[bool]) -> (r: String)
    requires
        available@.len() == candidates@.len(),
    ensures
        r@ == resolve_icon_spec(str_views(candidates@), available@),
{
    let ghost cs = str_views(candidates@);
    let mut i: usize = 0;
    while i < available.len()
        invariant
            i <= available@.len(),
            available@.len() == candidates@.len(),
            cs == str_views(candidates@),
            first_available(available@, 0) == first_available(available@, i as int),
        decreases available@.len() - i,
    {
        if available[i] {
            assert(cs[i as int] == candidates@[i as int]@);
            return string_of(&chars_of(candidates[i]));
        }
        i = i + 1;
    }
    if candidates.len() > 0 {
        assert(cs[0] == candidates@[0]@);
        string_of(&chars_of(candidates[0]))
    } else {
        string_of(&lit("emblem-system-symbolic"))
    }
}

/// The header indicator: the operations running and whether a pipeline
/// runs, and the icon names it switches between.
pub struct OpsIndicator {
    pub active_ops: HashSet<u64>,
    pub pipeline_active: bool,
    pub idle_icon: String,
    pub busy_icon: String,
}

impl OpsIndicator {
    /// An idle indicator with its two icons.
    pub fn new(idle_icon: String, busy_icon: String) -> (r: Self)
        ensures
            r.active_ops@ == Set::<u64>::empty(),
            !r.pipeline_active,
            r.idle_icon == idle_icon,
            r.busy_icon == busy_icon,
    {
        OpsIndicator { active_ops: HashSet::new(), pipeline_active: false, idle_icon, busy_icon }
    }

    /// An operation starts.
    pub fn push_op(&mut self, id: u64, title: &str)
        ensures
            (final(self).active_ops@, final(self).pipeline_active) == indicator_step((old(self).active_ops@, old(self).pipeline_active), IndicatorCall::Push(id)),
            final(self).active_ops@ == old(self).active_ops@.insert(id),
            final(self).pipeline_active == old(self).pipeline_active,
            final(self).idle_icon == old(self).idle_icon,
            final(self).busy_icon == old(self).busy_icon,
    {
        self.active_ops.insert(id);
    }

    /// An operation is done.
    pub fn complete_op(&mut self, id: u64)
        ensures
            (final(self).active_ops@, final(self).pipeline_active) == indicator_step((old(self).active_ops@, old(self).pipeline_active), IndicatorCall::Complete(id)),
            final(self).active_ops@ == old(self).active_ops@.remove(id),
            final(self).pipeline_active == old(self).pipeline_active,
            final(self).idle_icon == old(self).idle_icon,
            final(self).busy_icon == old(self).busy_icon,
    {
        self.active_ops.remove(&id);
    }

    /// An operation failed.
    pub fn fail_op(&mut self, id: u64, msg: &str)
        ensures
            (final(self).active_ops@, final(self).pipeline_active) == indicator_step((old(self).active_ops@, old(self).pipeline_active), IndicatorCall::Fail(id)),
            final(self).active_ops@ == old(self).active_ops@.remove(id),
            final(self).pipeline_active == old(self).pipeline_active,
            final(self).idle_icon == old(self).idle_icon,
            final(self).busy_icon == old(self).busy_icon,
    {
        self.active_ops.remove(&id);
    }

    /// An operation is taken off.
    pub fn remove_op(&mut self, id: u64)
        ensures
            (final(self).active_ops@, final(self).pipeline_active) == indicator_step((old(self).active_ops@, old(self).pipeline_active), IndicatorCall::Remove(id)),
            final(self).active_ops@ == old(self).active_ops@.remove(id),
            final(self).pipeline_active == old(self).pipeline_active,
            final(self).idle_icon == old(self).idle_icon,
            final(self).busy_icon == old(self).busy_icon,
    {
        self.active_ops.remove(&id);
    }

    /// A pipeline starts or stops running.
    pub fn set_pipeline_active(&mut self, active: bool)
        ensures
            (final(self).active_ops@, final(self).pipeline_active) == indicator_step((old(self).active_ops@, old(self).pipeline_active), IndicatorCall::SetPipeline(active)),
            final(self).active_ops@ == old(self).active_ops@,
            final(self).pipeline_active == active,
            final(self).idle_icon == old(self).idle_icon,
            final(self).busy_icon == old(self).busy_icon,
    {
        self.pipeline_active = active;
    }

    /// Whether anything runs.
    pub fn is_busy(&self) -> (r: bool)
        ensures
            r == (!self.active_ops@.is_empty() || self.pipeline_active),
    {
        !self.active_ops.is_empty() || self.pipeline_active
    }

    /// The icon to show, and whether it spins.
    pub fn icon(&self) -> (r: (&str, bool))
        ensures
            r.1 == (!self.active_ops@.is_empty() || self.pipeline_active),
            r.1 ==> r.0@ == self.busy_icon@,
            !r.1 ==> r.0@ == self.idle_icon@,
    {
        if self.is_busy() {
            (self.busy_icon.as_str(), true)
        } else {
            (self.idle_icon.as_str(), false)
        }
    }
}

/// An operation that starts and then is removed leaves the indicator as it
/// was when the operation was not running before.
pub proof fn lemma_push_then_remove(ops: Set<u64>, id: u64)
    requires
        !ops.contains(id),
    ensures
        ops.insert(id).remove(id) == ops,
{
    assert(ops.insert(id).remove(id) =~= ops);
}

/// A call that changes the indicator.
pub enum IndicatorCall {
    Push(u64),
    Complete(u64),
    Fail(u64),
    Remove(u64),
    SetPipeline(bool),
}

/// The running ids and the pipeline flag after a call, as the indicator's
/// methods state it.
pub open spec fn indicator_step(s: (Set<u64>, bool), c: IndicatorCall) -> (Set<u64>, bool) {
    match c {
        IndicatorCall::Push(id) => (s.0.insert(id), s.1),
        IndicatorCall::Complete(id) => (s.0.remove(id), s.1),
        IndicatorCall::Fail(id) => (s.0.remove(id), s.1),
        IndicatorCall::Remove(id) => (s.0.remove(id), s.1),
        IndicatorCall::SetPipeline(b) => (s.0, b),
    }
}

/// The state after a sequence of calls on a new indicator.
pub open spec fn indicator_run(calls: Seq<IndicatorCall>) -> (Set<u64>, bool)
    decreases calls.len(),
{
    if calls.len() == 0 {
        (Set::empty(), false)
    } else {
        indicator_step(indicator_run(calls.drop_last()), calls.last())
    }
}

/// Whether a call ends the operation `id`.
pub open spec fn ends_op(c: IndicatorCall, id: u64) -> bool {
    match c {
        IndicatorCall::Complete(x) => x == id,
        IndicatorCall::Fail(x) => x == id,
        IndicatorCall::Remove(x) => x == id,
        _ => false,
    }
}

/// `id` was started and has not been completed, failed or removed since.
pub open spec fn started_not_ended(calls: Seq<IndicatorCall>, id: u64) -> bool {
    exists|i: int|
        0 <= i < calls.len() && calls[i] == IndicatorCall::Push(id) && forall|j: int|
            i < j < calls.len() ==> !ends_op(#[trigger] calls[j], id)
}

/// The last pipeline flag set, `false` when none was.
pub open spec fn last_pipeline(calls: Seq<IndicatorCall>) -> bool
    decreases calls.len(),
{
    if calls.len() == 0 {
        false
    } else {
        match calls.last() {
            IndicatorCall::SetPipeline(b) => b,
            _ => last_pipeline(calls.drop_last()),
        }
    }
}

/// Over any sequence of calls on a new indicator, the running operations are
/// those started and not completed, failed or removed since (each id once),
/// the pipeline flag is the last one set, and the indicator is busy exactly
/// when an operation is running or a pipeline runs.
pub proof fn lemma_indicator_calls(calls: Seq<IndicatorCall>)
    ensures
        forall|id: u64| #[trigger] indicator_run(calls).0.contains(id) <==> started_not_ended(calls, id),
        indicator_run(calls).1 == last_pipeline(calls),
        (!indicator_run(calls).0.is_empty() || indicator_run(calls).1) <==> ((exists|id: u64|
            started_not_ended(calls, id)) || last_pipeline(calls)),
    decreases calls.len(),
{
    if calls.len() > 0 {
        let prev = calls.drop_last();
        let c = calls.last();
        lemma_indicator_calls(prev);
        assert forall|id: u64| #[trigger] indicator_run(calls).0.contains(id) <==> started_not_ended(calls, id) by {
            let n = calls.len() - 1;
            assert(calls[n] == c);
            if c == IndicatorCall::Push(id) {
                assert(0 <= n < calls.len() && calls[n] == IndicatorCall::Push(id));
            } else if ends_op(c, id) {
                if started_not_ended(calls, id) {
                    let i = choose|i: int|
                        0 <= i < calls.len() && calls[i] == IndicatorCall::Push(id) && forall|j: int|
                            i < j < calls.len() ==> !ends_op(#[trigger] calls[j], id);
                    assert(i != n);
                    assert(!ends_op(calls[n], id));
                }
            } else {
                if started_not_ended(prev, id) {
                    let i = choose|i: int|
                        0 <= i < prev.len() && prev[i] == IndicatorCall::Push(id) && forall|j: int|
                            i < j < prev.len() ==> !ends_op(#[trigger] prev[j], id);
                    assert(calls[i] == IndicatorCall::Push(id));
                    assert forall|j: int| i < j < calls.len() implies !ends_op(#[trigger] calls[j], id) by {
                        if j < n {
                            assert(calls[j] == prev[j]);
                        }
                    }
                }
                if started_not_ended(calls, id) {
                    let i = choose|i: int|
                        0 <= i < calls.len() && calls[i] == IndicatorCall::Push(id) && forall|j: int|
                            i < j < calls.len() ==> !ends_op(#[trigger] calls[j], id);
                    assert(i != n);
                    assert(prev[i] == IndicatorCall::Push(id));
                    assert forall|j: int| i < j < prev.len() implies !ends_op(#[trigger] prev[j], id) by {
                        assert(prev[j] == calls[j]);
                    }
                }
            }
        }
        let s = indicator_run(calls).0;
        if !s.is_empty() {
            let id = s.choose();
            assert(s.contains(id));
            assert(started_not_ended(calls, id));
        }
        if exists|id: u64| started_not_ended(calls, id) {
            let id = choose|id: u64| started_not_ended(calls, id);
            assert(s.contains(id));
        }
    }
}

} // verus!
