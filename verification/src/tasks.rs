//! Long jobs that run whether or not anyone is watching: the task list and
//! the rules by which a task moves from queued to settled. One worker runs
//! the jobs in order; cancellation is per task.
use vstd::prelude::*;

verus! {

/// Where a task is in its life.
#[derive(Debug, Clone, Copy, PartialEq, Eq, Structural)]
pub enum TaskState {
    Queued,
    Running,
    Done,
    Failed,
    Cancelled,
}

/// Whether nothing more will happen to a task in this state.
pub open spec fn is_settled(s: TaskState) -> bool {
    s == TaskState::Done || s == TaskState::Failed || s == TaskState::Cancelled
}

impl TaskState {
    /// Whether nothing more will happen to a task in this state.
    pub fn settled(self) -> (r: bool)
        ensures
            r == is_settled(self),
    {
        match self {
            TaskState::Done | TaskState::Failed | TaskState::Cancelled => true,
            TaskState::Queued | TaskState::Running => false,
        }
    }
}

/// A queued job as the interface shows it.
#[derive(Debug, Clone)]
pub struct Task {
    pub id: u64,
    /// What this is, for grouping and for the icon: `download` or `build`.
    pub kind: String,
    /// Which series or volume, so a queue of five is readable.
    pub title: String,
    /// The step in progress, e.g. `chapter 7` or `downloading`.
    pub detail: String,
    pub done: u32,
    pub total: u32,
    pub state: TaskState,
    /// Why it failed, verbatim. `None` unless it failed.
    pub error: Option<String>,
    /// How far a partly finished run got, kept after it settles.
    pub summary: Option<String>,
}

pub open spec fn opt_view(o: Option<String>) -> Option<Seq<char>> {
    match o {
        Some(s) => Some(s@),
        None => None,
    }
}

/// A task as plain values.
pub type TaskView = (u64, Seq<char>, Seq<char>, Seq<char>, u32, u32, TaskState, Option<Seq<char>>, Option<Seq<char>>);

pub open spec fn task_view(t: Task) -> TaskView {
    (t.id, t.kind@, t.title@, t.detail@, t.done, t.total, t.state, opt_view(t.error), opt_view(t.summary))
}

pub open spec fn task_views(ts: Seq<Task>) -> Seq<TaskView> {
    ts.map_values(|t: Task| task_view(t))
}

/// Index of the first task with `id`, or -1.
pub open spec fn task_index(ts: Seq<TaskView>, id: u64, from: int) -> int
    decreases ts.len() - from,
{
    if from < 0 || from >= ts.len() {
        -1
    } else if ts[from].0 == id {
        from
    } else {
        task_index(ts, id, from + 1)
    }
}

/// The tasks with the first one whose id is `id` changed by `f`.
pub open spec fn with_task(ts: Seq<TaskView>, id: u64, f: spec_fn(TaskView) -> TaskView) -> Seq<TaskView> {
    let i = task_index(ts, id, 0);
    if i < 0 {
        ts
    } else {
        ts.update(i, f(ts[i]))
    }
}

/// Whether the first cancel flag recorded for `id` is set.
pub open spec fn cancel_requested(cs: Seq<(u64, bool)>, id: u64, from: int) -> bool
    decreases cs.len() - from,
{
    if from < 0 || from >= cs.len() {
        false
    } else if cs[from].0 == id {
        cs[from].1
    } else {
        cancel_requested(cs, id, from + 1)
    }
}

/// Index of the first cancel flag for `id`, or -1.
pub open spec fn flag_index(cs: Seq<(u64, bool)>, id: u64, from: int) -> int
    decreases cs.len() - from,
{
    if from < 0 || from >= cs.len() {
        -1
    } else if cs[from].0 == id {
        from
    } else {
        flag_index(cs, id, from + 1)
    }
}

/// The task list and each task's cancel flag. Jobs run one at a time, in the
/// order they were queued.
pub struct Queue {
    pub next_id: u64,
    pub tasks: Vec<Task>,
    pub cancels: Vec<(u64, bool)>,
}

fn find_task(ts: &Vec<Task>, id: u64) -> (r: Option<usize>)
    ensures
        match r {
            Some(i) => i < ts@.len() && i as int == task_index(task_views(ts@), id, 0),
            None => task_index(task_views(ts@), id, 0) == -1,
        },
{
    let mut i: usize = 0;
    while i < ts.len()
        invariant
            i <= ts@.len(),
            task_index(task_views(ts@), id, 0) == task_index(task_views(ts@), id, i as int),
        decreases ts@.len() - i,
    {
        if ts[i].id == id {
            return Some(i);
        }
        i = i + 1;
    }
    None
}

fn find_flag(cs: &Vec<(u64, bool)>, id: u64) -> (r: Option<usize>)
    ensures
        match r {
            Some(i) => i < cs@.len() && i as int == flag_index(cs@, id, 0) && cancel_requested(cs@, id, 0) == cs@[i as int].1,
            None => flag_index(cs@, id, 0) == -1 && !cancel_requested(cs@, id, 0),
        },
{
    let mut i: usize = 0;
    while i < cs.len()
        invariant
            i <= cs@.len(),
            flag_index(cs@, id, 0) == flag_index(cs@, id, i as int),
            cancel_requested(cs@, id, 0) == cancel_requested(cs@, id, i as int),
        decreases cs@.len() - i,
    {
        if cs[i].0 == id {
            return Some(i);
        }
        i = i + 1;
    }
    None
}

/// A task in a new state with a new detail.
pub open spec fn moved(t: TaskView, state: TaskState, detail: Seq<char>) -> TaskView {
    (t.0, t.1, t.2, detail, t.4, t.5, state, t.7, t.8)
}

impl Queue {
    /// An empty queue whose first task will be numbered 1.
    pub fn new() -> (r: Queue)
        ensures
            r.next_id == 1,
            r.tasks@.len() == 0,
            r.cancels@.len() == 0,
    {
        Queue { next_id: 1, tasks: Vec::new(), cancels: Vec::new() }
    }

    /// Queue a job of `kind` about `title`; it waits with its cancel flag
    /// clear. Returns its id (ids are handed out in turn, wrapping as the
    /// counter does).
    pub fn enqueue(&mut self, kind: &str, title: &str) -> (r: u64)
        ensures
            r == old(self).next_id,
            final(self).next_id == vstd::wrapping::u64_specs::wrapping_add(old(self).next_id, 1),
            task_views(final(self).tasks@) == task_views(old(self).tasks@).push(
                (r, kind@, title@, "waiting"@, 0u32, 0u32, TaskState::Queued, None, None),
            ),
            final(self).cancels@ == old(self).cancels@.push((r, false)),
    {
        let id = self.next_id;
        self.next_id = self.next_id.wrapping_add(1);
        self.tasks.push(
            Task {
                id,
                kind: String::from_str(kind),
                title: String::from_str(title),
                detail: String::from_str("waiting"),
                done: 0,
                total: 0,
                state: TaskState::Queued,
                error: None,
                summary: None,
            },
        );
        self.cancels.push((id, false));
        assert(task_views(self.tasks@) =~= task_views(old(self).tasks@).push(
            (id, kind@, title@, "waiting"@, 0u32, 0u32, TaskState::Queued, None, None),
        ));
        id
    }

    /// Whether the task has been asked to stop.
    pub fn is_cancelled(&self, id: u64) -> (r: bool)
        ensures
            r == cancel_requested(self.cancels@, id, 0),
    {
        match find_flag(&self.cancels, id) {
            Some(i) => self.cancels[i].1,
            None => false,
        }
    }

    fn replace_task(&mut self, i: usize, t: Task)
        requires
            i < old(self).tasks@.len(),
        ensures
            task_views(final(self).tasks@) == task_views(old(self).tasks@).update(i as int, task_view(t)),
            final(self).cancels == old(self).cancels,
            final(self).next_id == old(self).next_id,
    {
        let _ = self.tasks.remove(i);
        self.tasks.insert(i, t);
        assert(task_views(self.tasks@) =~= task_views(old(self).tasks@).update(i as int, task_view(t)));
    }

    /// Ask a task to stop. It stops between items; a running one shows
    /// `stopping` straight away.
    pub fn cancel(&mut self, id: u64)
        ensures
            final(self).next_id == old(self).next_id,
            flag_index(old(self).cancels@, id, 0) >= 0 ==> final(self).cancels@ == old(self).cancels@.update(
                flag_index(old(self).cancels@, id, 0),
                (id, true),
            ),
            flag_index(old(self).cancels@, id, 0) < 0 ==> final(self).cancels@ == old(self).cancels@,
            task_views(final(self).tasks@) == with_task(
                task_views(old(self).tasks@),
                id,
                |t: TaskView| if t.6 == TaskState::Running { moved(t, t.6, "stopping"@) } else { t },
            ),
    {
        match find_flag(&self.cancels, id) {
            Some(i) => {
                let _ = self.cancels.remove(i);
                self.cancels.insert(i, (id, true));
                assert(self.cancels@ =~= old(self).cancels@.update(i as int, (id, true)));
            },
            None => {},
        }
        match find_task(&self.tasks, id) {
            Some(i) => {
                if self.tasks[i].state == TaskState::Running {
                    let t = &self.tasks[i];
                    let nt = Task {
                        id: t.id,
                        kind: t.kind.clone(),
                        title: t.title.clone(),
                        detail: String::from_str("stopping"),
                        done: t.done,
                        total: t.total,
                        state: t.state,
                        error: match &t.error { Some(e) => Some(e.clone()), None => None },
                        summary: match &t.summary { Some(e) => Some(e.clone()), None => None },
                    };
                    self.replace_task(i, nt);
                }
            },
            None => {},
        }
    }

    /// Start a task's job, unless it was cancelled while it waited: then it
    /// settles as cancelled and is never started. Returns whether to run it.
    pub fn begin(&mut self, id: u64) -> (r: bool)
        ensures
            r == !cancel_requested(old(self).cancels@, id, 0),
            final(self).cancels == old(self).cancels,
            final(self).next_id == old(self).next_id,
            task_views(final(self).tasks@) == with_task(
                task_views(old(self).tasks@),
                id,
                |t: TaskView| if r { moved(t, TaskState::Running, "starting"@) } else { moved(t, TaskState::Cancelled, t.3) },
            ),
    {
        let run = !self.is_cancelled(id);
        match find_task(&self.tasks, id) {
            Some(i) => {
                let t = &self.tasks[i];
                let nt = Task {
                    id: t.id,
                    kind: t.kind.clone(),
                    title: t.title.clone(),
                    detail: if run { String::from_str("starting") } else { t.detail.clone() },
                    done: t.done,
                    total: t.total,
                    state: if run { TaskState::Running } else { TaskState::Cancelled },
                    error: match &t.error { Some(e) => Some(e.clone()), None => None },
                    summary: match &t.summary { Some(e) => Some(e.clone()), None => None },
                };
                self.replace_task(i, nt);
            },
            None => {},
        }
        run
    }

    /// Report what a running task is doing.
    pub fn step(&mut self, id: u64, detail: &str, done: u32, total: u32)
        ensures
            final(self).cancels == old(self).cancels,
            final(self).next_id == old(self).next_id,
            task_views(final(self).tasks@) == with_task(
                task_views(old(self).tasks@),
                id,
                |t: TaskView| (t.0, t.1, t.2, detail@, done, total, t.6, t.7, t.8),
            ),
    {
        match find_task(&self.tasks, id) {
            Some(i) => {
                let t = &self.tasks[i];
                let nt = Task {
                    id: t.id,
                    kind: t.kind.clone(),
                    title: t.title.clone(),
                    detail: String::from_str(detail),
                    done,
                    total,
                    state: t.state,
                    error: match &t.error { Some(e) => Some(e.clone()), None => None },
                    summary: match &t.summary { Some(e) => Some(e.clone()), None => None },
                };
                self.replace_task(i, nt);
            },
            None => {},
        }
    }

    /// Record how a job ended. A job that noticed the cancel and returned
    /// tidily still stopped early: it settles as cancelled, not done. A failure
    /// keeps its message verbatim.
    pub fn settle(&mut self, id: u64, outcome: Result<Option<String>, String>)
        ensures
            final(self).cancels == old(self).cancels,
            final(self).next_id == old(self).next_id,
            task_views(final(self).tasks@) == with_task(
                task_views(old(self).tasks@),
                id,
                |t: TaskView| match outcome {
                    Ok(summary) => (t.0, t.1, t.2, Seq::<char>::empty(), t.4, t.5, if cancel_requested(old(self).cancels@, id, 0) { TaskState::Cancelled } else { TaskState::Done }, t.7, opt_view(summary)),
                    Err(e) => (t.0, t.1, t.2, Seq::<char>::empty(), t.4, t.5, TaskState::Failed, Some(e@), t.8),
                },
            ),
    {
        let stopped = self.is_cancelled(id);
        match find_task(&self.tasks, id) {
            Some(i) => {
                let t = &self.tasks[i];
                let (state, error, summary) = match outcome {
                    Ok(summary) => (
                        if stopped { TaskState::Cancelled } else { TaskState::Done },
                        match &t.error { Some(e) => Some(e.clone()), None => None },
                        summary,
                    ),
                    Err(e) => (
                        TaskState::Failed,
                        Some(e),
                        match &t.summary { Some(e) => Some(e.clone()), None => None },
                    ),
                };
                let nt = Task {
                    id: t.id,
                    kind: t.kind.clone(),
                    title: t.title.clone(),
                    detail: String::new(),
                    done: t.done,
                    total: t.total,
                    state,
                    error,
                    summary,
                };
                self.replace_task(i, nt);
            },
            None => {},
        }
    }
}

/// The ids of the tasks still to settle, in order.
pub open spec fn live_ids(ts: Seq<TaskView>) -> Seq<u64>
    decreases ts.len(),
{
    if ts.len() == 0 {
        Seq::empty()
    } else {
        live_ids(ts.drop_last()) + if is_settled(ts.last().6) {
            Seq::empty()
        } else {
            seq![ts.last().0]
        }
    }
}

/// The tasks whose id is among `keep`, in order.
pub open spec fn tasks_kept(ts: Seq<TaskView>, keep: Seq<u64>) -> Seq<TaskView>
    decreases ts.len(),
{
    if ts.len() == 0 {
        Seq::empty()
    } else {
        tasks_kept(ts.drop_last(), keep) + if keep.contains(ts.last().0) {
            seq![ts.last()]
        } else {
            Seq::empty()
        }
    }
}

/// The cancel flags whose id is among `keep`, in order.
pub open spec fn flags_kept(cs: Seq<(u64, bool)>, keep: Seq<u64>) -> Seq<(u64, bool)>
    decreases cs.len(),
{
    if cs.len() == 0 {
        Seq::empty()
    } else {
        flags_kept(cs.drop_last(), keep) + if keep.contains(cs.last().0) {
            seq![cs.last()]
        } else {
            Seq::empty()
        }
    }
}

fn contains_id(v: &Vec<u64>, id: u64) -> (r: bool)
    ensures
        r == v@.contains(id),
{
    let mut i: usize = 0;
    while i < v.len()
        invariant
            i <= v@.len(),
            forall|j: int| 0 <= j < i ==> v@[j] != id,
        decreases v@.len() - i,
    {
        if v[i] == id {
            assert(v@[i as int] == id);
            return true;
        }
        i = i + 1;
    }
    false
}

impl Queue {
    /// Drop every task that has finished one way or another, with its cancel
    /// flag; a task still queued or running is never dropped.
    pub fn clear_finished(&mut self)
        ensures
            final(self).next_id == old(self).next_id,
            task_views(final(self).tasks@) == tasks_kept(
                task_views(old(self).tasks@),
                live_ids(task_views(old(self).tasks@)),
            ),
            final(self).cancels@ == flags_kept(old(self).cancels@, live_ids(task_views(old(self).tasks@))),
    {
        let ghost tv = task_views(self.tasks@);
        let mut keep: Vec<u64> = Vec::new();
        let mut i: usize = 0;
        assert(tv.take(0) =~= Seq::<TaskView>::empty());
        while i < self.tasks.len()
            invariant
                i <= self.tasks@.len(),
                tv == task_views(self.tasks@),
                keep@ == live_ids(tv.take(i as int)),
            decreases self.tasks@.len() - i,
        {
            assert(tv.take(i + 1).drop_last() =~= tv.take(i as int));
            assert(tv.take(i + 1).last() == task_view(self.tasks@[i as int]));
            if !self.tasks[i].state.settled() {
                keep.push(self.tasks[i].id);
            }
            assert(keep@ =~= live_ids(tv.take(i + 1)));
            i = i + 1;
        }
        assert(tv.take(i as int) =~= tv);
        let mut rest: Vec<Task> = Vec::new();
        std::mem::swap(&mut rest, &mut self.tasks);
        let ghost all = rest@;
        let n = rest.len();
        let mut kept: Vec<Task> = Vec::new();
        let mut k: usize = 0;
        assert(task_views(all).take(0) =~= Seq::<TaskView>::empty());
        while rest.len() > 0
            invariant
                n == all.len(),
                k <= n,
                tv == task_views(all),
                rest@ == all.skip(k as int),
                task_views(kept@) == tasks_kept(tv.take(k as int), keep@),
            decreases rest@.len(),
        {
            let t = rest.remove(0);
            assert(t == all[k as int]);
            assert(rest@ =~= all.skip(k + 1));
            assert(tv.take(k + 1).drop_last() =~= tv.take(k as int));
            assert(tv.take(k + 1).last() == task_view(t));
            if contains_id(&keep, t.id) {
                kept.push(t);
            }
            assert(task_views(kept@) =~= tasks_kept(tv.take(k + 1), keep@));
            k = k + 1;
        }
        assert(tv.take(k as int) =~= tv);
        self.tasks = kept;
        let mut flags: Vec<(u64, bool)> = Vec::new();
        let mut j: usize = 0;
        let ghost cs = self.cancels@;
        assert(cs.take(0) =~= Seq::<(u64, bool)>::empty());
        while j < self.cancels.len()
            invariant
                j <= self.cancels@.len(),
                cs == self.cancels@,
                flags@ == flags_kept(cs.take(j as int), keep@),
            decreases self.cancels@.len() - j,
        {
            assert(cs.take(j + 1).drop_last() =~= cs.take(j as int));
            let c = self.cancels[j];
            if contains_id(&keep, c.0) {
                flags.push(c);
            }
            assert(flags@ =~= flags_kept(cs.take(j + 1), keep@));
            j = j + 1;
        }
        assert(cs.take(j as int) =~= cs);
        self.cancels = flags;
    }
}

proof fn lemma_live_ids(ts: Seq<TaskView>)
    ensures
        forall|i: int| 0 <= i < ts.len() && !is_settled(ts[i].6) ==> live_ids(ts).contains(ts[i].0),
        forall|x: u64| live_ids(ts).contains(x) ==> exists|i: int| 0 <= i < ts.len() && ts[i].0 == x && !is_settled(ts[i].6),
    decreases ts.len(),
{
    if ts.len() > 0 {
        lemma_live_ids(ts.drop_last());
        let p = ts.drop_last();
        assert forall|i: int| 0 <= i < ts.len() && !is_settled(ts[i].6) implies live_ids(ts).contains(ts[i].0) by {
            if i < ts.len() - 1 {
                assert(p[i] == ts[i]);
                assert(live_ids(p).contains(p[i].0));
                let k = choose|k: int| 0 <= k < live_ids(p).len() && live_ids(p)[k] == p[i].0;
                assert(live_ids(ts)[k] == p[i].0);
            } else {
                assert(live_ids(ts)[live_ids(ts).len() - 1] == ts[i].0);
            }
        }
        assert forall|x: u64| live_ids(ts).contains(x) implies exists|i: int| 0 <= i < ts.len() && ts[i].0 == x && !is_settled(ts[i].6) by {
            let k = choose|k: int| 0 <= k < live_ids(ts).len() && live_ids(ts)[k] == x;
            if k < live_ids(p).len() {
                assert(live_ids(p)[k] == x);
                assert(live_ids(p).contains(x));
                let i = choose|i: int| 0 <= i < p.len() && p[i].0 == x && !is_settled(p[i].6);
                assert(ts[i] == p[i]);
            } else {
                assert(ts[ts.len() - 1].0 == x);
            }
        }
    }
}

proof fn lemma_tasks_kept(ts: Seq<TaskView>, keep: Seq<u64>)
    ensures
        forall|i: int| 0 <= i < ts.len() && keep.contains(ts[i].0) ==> tasks_kept(ts, keep).contains(ts[i]),
        forall|t: TaskView| tasks_kept(ts, keep).contains(t) ==> ts.contains(t) && keep.contains(t.0),
    decreases ts.len(),
{
    if ts.len() > 0 {
        lemma_tasks_kept(ts.drop_last(), keep);
        let p = ts.drop_last();
        let q = tasks_kept(p, keep);
        assert forall|i: int| 0 <= i < ts.len() && keep.contains(ts[i].0) implies tasks_kept(ts, keep).contains(ts[i]) by {
            if i < ts.len() - 1 {
                assert(p[i] == ts[i]);
                let k = choose|k: int| 0 <= k < q.len() && q[k] == p[i];
                assert(tasks_kept(ts, keep)[k] == ts[i]);
            } else {
                assert(tasks_kept(ts, keep)[q.len() as int] == ts[i]);
            }
        }
        assert forall|t: TaskView| tasks_kept(ts, keep).contains(t) implies ts.contains(t) && keep.contains(t.0) by {
            let k = choose|k: int| 0 <= k < tasks_kept(ts, keep).len() && tasks_kept(ts, keep)[k] == t;
            if k < q.len() {
                assert(q[k] == t);
                assert(q.contains(t));
                assert(p.contains(t));
                let i = choose|i: int| 0 <= i < p.len() && p[i] == t;
                assert(ts[i] == t);
            } else {
                assert(ts[ts.len() - 1] == t);
            }
        }
    }
}

/// Clearing finished tasks never drops one still queued or running; and when
/// task ids are distinct, what is left is exactly the unsettled tasks.
pub proof fn clearing_keeps_exactly_the_unsettled(ts: Seq<TaskView>)
    ensures
        forall|i: int|
            0 <= i < ts.len() && !is_settled(ts[i].6) ==> tasks_kept(ts, live_ids(ts)).contains(ts[i]),
        (forall|i: int, j: int| 0 <= i < j < ts.len() ==> ts[i].0 != ts[j].0) ==> forall|t: TaskView|
            tasks_kept(ts, live_ids(ts)).contains(t) ==> !is_settled(t.6),
{
    lemma_live_ids(ts);
    lemma_tasks_kept(ts, live_ids(ts));
    if forall|i: int, j: int| 0 <= i < j < ts.len() ==> ts[i].0 != ts[j].0 {
        assert forall|t: TaskView| tasks_kept(ts, live_ids(ts)).contains(t) implies !is_settled(t.6) by {
            assert(ts.contains(t));
            assert(live_ids(ts).contains(t.0));
            let i = choose|i: int| 0 <= i < ts.len() && ts[i] == t;
            let j = choose|j: int| 0 <= j < ts.len() && ts[j].0 == t.0 && !is_settled(ts[j].6);
            if i != j {
                if i < j {
                    assert(ts[i].0 != ts[j].0);
                } else {
                    assert(ts[j].0 != ts[i].0);
                }
            }
        }
    }
}

/// Whether every task and cancel flag has an id below the counter, so that
/// the next id handed out is new.
pub open spec fn ids_below(ts: Seq<TaskView>, cs: Seq<(u64, bool)>, next: u64) -> bool {
    &&& forall|i: int| 0 <= i < ts.len() ==> (#[trigger] ts[i]).0 < next
    &&& forall|i: int| 0 <= i < cs.len() ==> (#[trigger] cs[i]).0 < next
}

/// Queueing hands out an id no earlier task or flag has, and keeps every id
/// below the counter, until the counter would wrap.
pub proof fn enqueued_ids_are_fresh(
    ts: Seq<TaskView>,
    cs: Seq<(u64, bool)>,
    next: u64,
    kind: Seq<char>,
    title: Seq<char>,
)
    requires
        ids_below(ts, cs, next),
        next < u64::MAX,
    ensures
        forall|i: int| 0 <= i < ts.len() ==> (#[trigger] ts[i]).0 != next,
        forall|i: int| 0 <= i < cs.len() ==> (#[trigger] cs[i]).0 != next,
        ids_below(
            ts.push((next, kind, title, "waiting"@, 0u32, 0u32, TaskState::Queued, None, None)),
            cs.push((next, false)),
            vstd::wrapping::u64_specs::wrapping_add(next, 1),
        ),
{
    let t2 = ts.push((next, kind, title, "waiting"@, 0u32, 0u32, TaskState::Queued, None, None));
    let c2 = cs.push((next, false));
    assert(vstd::wrapping::u64_specs::wrapping_add(next, 1) == next + 1);
    assert forall|i: int| 0 <= i < t2.len() implies (#[trigger] t2[i]).0 < next + 1 by {
        if i < ts.len() {
            assert(t2[i] == ts[i]);
        }
    }
    assert forall|i: int| 0 <= i < c2.len() implies (#[trigger] c2[i]).0 < next + 1 by {
        if i < cs.len() {
            assert(c2[i] == cs[i]);
        }
    }
}

/// How a task is started: a task cancelled while it waited settles as
/// cancelled and its job is not run; any other starts running.
pub proof fn a_task_cancelled_while_waiting_never_runs(ts: Seq<TaskView>, cs: Seq<(u64, bool)>, id: u64)
    requires
        task_index(ts, id, 0) >= 0,
    ensures
        ({
            let run = !cancel_requested(cs, id, 0);
            let after = with_task(
                ts,
                id,
                |t: TaskView| if run { moved(t, TaskState::Running, "starting"@) } else { moved(t, TaskState::Cancelled, t.3) },
            );
            after[task_index(ts, id, 0)].6 == if run { TaskState::Running } else { TaskState::Cancelled }
        }),
{
    lemma_task_index(ts, id, 0);
}

/// How a job's outcome settles its task: an error fails it with the message
/// kept verbatim; a success is done, or cancelled when a cancel was asked for,
/// and keeps its summary.
pub proof fn a_task_ends_as_its_job_did(
    ts: Seq<TaskView>,
    cs: Seq<(u64, bool)>,
    id: u64,
    outcome: Result<Option<String>, String>,
)
    requires
        task_index(ts, id, 0) >= 0,
    ensures
        ({
            let after = with_task(
                ts,
                id,
                |t: TaskView| match outcome {
                    Ok(summary) => (t.0, t.1, t.2, Seq::<char>::empty(), t.4, t.5, if cancel_requested(cs, id, 0) { TaskState::Cancelled } else { TaskState::Done }, t.7, opt_view(summary)),
                    Err(e) => (t.0, t.1, t.2, Seq::<char>::empty(), t.4, t.5, TaskState::Failed, Some(e@), t.8),
                },
            );
            let t = after[task_index(ts, id, 0)];
            &&& t.0 == id
            &&& outcome matches Err(e) ==> t.6 == TaskState::Failed && t.7 == Some(e@)
            &&& outcome matches Ok(summary) ==> t.8 == opt_view(summary) && t.6 == if cancel_requested(cs, id, 0) {
                TaskState::Cancelled
            } else {
                TaskState::Done
            }
        }),
{
    lemma_task_index(ts, id, 0);
}

/// The index `task_index` finds holds a task with that id.
proof fn lemma_task_index(ts: Seq<TaskView>, id: u64, from: int)
    ensures
        task_index(ts, id, from) >= 0 ==> 0 <= task_index(ts, id, from) < ts.len() && ts[task_index(ts, id, from)].0 == id,
    decreases ts.len() - from,
{
    if from >= 0 && from < ts.len() && ts[from].0 != id {
        lemma_task_index(ts, id, from + 1);
    }
}

} // verus!
