use vstd::prelude::*;
use std::collections::VecDeque;
use crate::identifier::{
    ModIdentifier, same_item, same_ref, dependency_name, lemma_same_item_equivalence,
};

verus! {

/// A pending request to resolve one item.
#[derive(Debug, Clone)]
pub struct WorkItem {
    /// Name shown to the user.
    pub name: String,
    pub identifier: ModIdentifier,
    /// Position of the profile entry this request came from, whose filters
    /// apply; `None` for a discovered dependency, which resolves with the
    /// platform's defaults.
    pub seed: Option<usize>,
}

/// The file that a platform picked for an item.
#[derive(Debug, Clone)]
pub struct DownloadFile {
    pub filename: String,
    pub url: String,
    /// Items that this file requires.
    pub dependencies: Vec<ModIdentifier>,
}

/// A resolved item: the task that fetched it, the reference it was
/// dispatched under and its file.
#[derive(Debug, Clone)]
pub struct Resolved {
    pub task: usize,
    pub identifier: ModIdentifier,
    pub file: DownloadFile,
}

/// Why a platform could not resolve an item.
#[derive(Debug)]
pub enum FetchError {
    /// No file is compatible with the active filters.
    NotCompatible,
    /// The platform does not know the item.
    NotFound,
    /// The request itself failed.
    Transport,
    /// The platform's rate limit is exhausted: fatal for the whole run.
    RateLimited,
}

/// What the driver of a resolution run has to do next.
#[derive(Debug)]
pub enum Step {
    /// Fetch `item` as task number `task`, then report with `complete`.
    Dispatch { task: usize, item: WorkItem },
    /// `item` was already dispatched under the same reference: dropped.
    Duplicate { item: WorkItem },
    /// Another version of `dropped`'s item was dispatched first (`kept`):
    /// `dropped` is ignored and a warning is due.
    Clash { kept: ModIdentifier, dropped: WorkItem },
    /// Nothing can be dispatched now: wait for a running task to complete.
    Wait,
    /// No work is left: call `finish`.
    Finished,
}

/// The result of a run that was not aborted.
#[derive(Debug)]
pub struct Resolution {
    pub resolved: Vec<Resolved>,
    /// Some item could not be resolved.
    pub had_errors: bool,
}

/// A run aborted by an exhausted rate limit, with what was resolved before.
#[derive(Debug)]
pub struct Aborted {
    pub resolved: Vec<Resolved>,
}

/// State of one resolution run.
#[derive(Debug)]
pub struct Resolver {
    /// Requests not yet looked at, oldest first.
    pub queue: VecDeque<WorkItem>,
    /// Every dispatched reference; task `i` resolves `ledger[i]`.
    pub ledger: Vec<ModIdentifier>,
    /// Tasks dispatched and not yet completed.
    pub running: Vec<usize>,
    pub resolved: Vec<Resolved>,
    pub had_errors: bool,
    /// A rate limit was hit: nothing more is dispatched.
    pub aborted: bool,
}

/// `w` is the request made for dependency `d`.
pub open spec fn dependency_item(w: WorkItem, d: ModIdentifier) -> bool {
    &&& w.name@ == dependency_name(d)
    &&& w.identifier == d
    &&& w.seed is None
}

/// No two entries of `s` name the same underlying item.
pub open spec fn distinct_items(s: Seq<ModIdentifier>) -> bool {
    forall|i: int, j: int| 0 <= i < j < s.len() ==> !same_item(#[trigger] s[i], #[trigger] s[j])
}

/// The references of a sequence of resolved items.
pub open spec fn resolved_ids(s: Seq<Resolved>) -> Seq<ModIdentifier> {
    s.map_values(|r: Resolved| r.identifier)
}

/// Some entry of `ledger` names the same item as `id`.
pub open spec fn ledger_has_item(ledger: Seq<ModIdentifier>, id: ModIdentifier) -> bool {
    exists|j: int| 0 <= j < ledger.len() && same_item(#[trigger] ledger[j], id)
}

/// `r` comes from a task of `ledger` that is no longer running.
pub open spec fn done_task(ledger: Seq<ModIdentifier>, running: Seq<usize>, r: Resolved) -> bool {
    &&& r.task < ledger.len()
    &&& ledger[r.task as int] == r.identifier
    &&& !running.contains(r.task)
}

/// Task `t` of `r` is running, resolved, or its failure is on record.
pub open spec fn accounted(r: Resolver, t: usize) -> bool {
    ||| r.running@.contains(t)
    ||| r.had_errors
    ||| r.aborted
    ||| exists|i: int| 0 <= i < r.resolved@.len() && #[trigger] r.resolved@[i].task == t
}

/// Some entry of `ledger` is written as `id`.
pub open spec fn ledger_has_ref(ledger: Seq<ModIdentifier>, id: ModIdentifier) -> bool {
    exists|j: int| 0 <= j < ledger.len() && same_ref(#[trigger] ledger[j], id)
}

impl Resolver {
    /// The invariant of a run.
    pub open spec fn wf(&self) -> bool {
        &&& distinct_items(self.ledger@)
        // every task number fits in a `usize`
        &&& self.ledger@.len() <= usize::MAX + 1
        &&& self.running@.no_duplicates()
        &&& forall|i: int|
            0 <= i < self.running@.len() ==> #[trigger] self.running@[i] < self.ledger@.len()
        &&& distinct_items(resolved_ids(self.resolved@))
        &&& forall|i: int|
            0 <= i < self.resolved@.len() ==> done_task(self.ledger@, self.running@, #[trigger] self.resolved@[i])
        &&& forall|t: usize| t < self.ledger@.len() ==> #[trigger] accounted(*self, t)
    }

    /// Nothing is left to dispatch.
    pub open spec fn drained(&self) -> bool {
        self.aborted || self.queue@.len() == 0
    }

    /// `r` is the state in which a run over `seeds` starts.
    pub open spec fn initial(r: Resolver, seeds: Seq<WorkItem>) -> bool {
        &&& r.queue@ == seeds
        &&& r.ledger@.len() == 0
        &&& r.running@.len() == 0
        &&& r.resolved@.len() == 0
        &&& !r.had_errors
        &&& !r.aborted
    }

    /// What `next_step` does: from state `a` it goes to state `b` and returns `s`.
    pub open spec fn step_post(a: Resolver, b: Resolver, s: Step) -> bool {
        match s {
            Step::Wait => a.drained() && a.running@.len() > 0 && b == a,
            Step::Finished => a.drained() && a.running@.len() == 0 && b == a,
            Step::Duplicate { item } => {
                &&& !a.drained()
                &&& item == a.queue@[0]
                &&& ledger_has_ref(a.ledger@, item.identifier)
                &&& b == (Resolver { queue: b.queue, ..a })
                &&& b.queue@ == a.queue@.drop_first()
            },
            Step::Clash { kept, dropped } => {
                &&& !a.drained()
                &&& dropped == a.queue@[0]
                &&& !ledger_has_ref(a.ledger@, dropped.identifier)
                &&& exists|j: int|
                    0 <= j < a.ledger@.len() && a.ledger@[j] == kept && same_item(
                        #[trigger] a.ledger@[j],
                        dropped.identifier,
                    )
                &&& b == (Resolver { queue: b.queue, ..a })
                &&& b.queue@ == a.queue@.drop_first()
            },
            Step::Dispatch { task, item } => {
                &&& !a.drained()
                &&& item == a.queue@[0]
                &&& !ledger_has_item(a.ledger@, item.identifier)
                &&& task == a.ledger@.len()
                &&& b.queue@ == a.queue@.drop_first()
                &&& b.ledger@ == a.ledger@.push(item.identifier)
                &&& b.running@ == a.running@.push(task)
                &&& b.resolved == a.resolved
                &&& b.had_errors == a.had_errors
                &&& b.aborted == a.aborted
            },
        }
    }

    /// What `complete` does: task `task` of state `a` came back with
    /// `outcome`, which leads to state `b`.
    pub open spec fn complete_post(
        a: Resolver,
        task: usize,
        outcome: Result<DownloadFile, FetchError>,
        b: Resolver,
    ) -> bool {
        &&& exists|k: int|
            0 <= k < a.running@.len() && #[trigger] a.running@[k] == task && b.running@
                == a.running@.remove(k)
        &&& b.ledger == a.ledger
        &&& match outcome {
            Ok(file) => {
                let deps = file.dependencies@;
                &&& b.queue@.len() == a.queue@.len() + deps.len()
                &&& b.queue@.subrange(0, a.queue@.len() as int) == a.queue@
                &&& forall|i: int|
                    0 <= i < deps.len() ==> dependency_item(
                        #[trigger] b.queue@[a.queue@.len() + i],
                        deps[i],
                    )
                &&& b.resolved@ == a.resolved@.push(
                    Resolved { task, identifier: a.ledger@[task as int], file },
                )
                &&& b.had_errors == a.had_errors
                &&& b.aborted == a.aborted
            },
            Err(FetchError::RateLimited) => {
                &&& b.queue == a.queue
                &&& b.resolved == a.resolved
                &&& b.had_errors == a.had_errors
                &&& b.aborted
            },
            Err(_) => {
                &&& b.queue == a.queue
                &&& b.resolved == a.resolved
                &&& b.had_errors
                &&& b.aborted == a.aborted
            },
        }
    }

    /// What `finish` returns from state `a`.
    pub open spec fn finish_post(a: Resolver, out: Result<Resolution, Aborted>) -> bool {
        if a.aborted {
            out == Err::<Resolution, Aborted>(Aborted { resolved: a.resolved })
        } else {
            out == Ok::<Resolution, Aborted>(
                Resolution { resolved: a.resolved, had_errors: a.had_errors },
            )
        }
    }
}

impl Resolver {
    /// Starts a run over the profile's requests, in order.
    pub fn new(seeds: Vec<WorkItem>) -> (r: Resolver)
        ensures
            Resolver::initial(r, seeds@),
            r.wf(),
    {
        let mut seeds = seeds;
        let ghost all = seeds@;
        let mut queue: VecDeque<WorkItem> = VecDeque::new();
        while seeds.len() > 0
            invariant
                seeds@ + queue@ == all,
            decreases seeds@.len(),
        {
            let w = seeds.pop().unwrap();
            queue.push_front(w);
            assert(seeds@ + queue@ =~= all);
        }
        assert(queue@ =~= all);
        let r = Resolver {
            queue,
            ledger: Vec::new(),
            running: Vec::new(),
            resolved: Vec::new(),
            had_errors: false,
            aborted: false,
        };
        assert(resolved_ids(r.resolved@) =~= Seq::empty());
        r
    }

    /// Index of the ledger entry that names the same item as `id`, if any.
    fn find_item(&self, id: &ModIdentifier) -> (r: Option<usize>)
        ensures
            r matches Some(j) ==> j < self.ledger@.len() && same_item(self.ledger@[j as int], *id),
            r is None ==> !ledger_has_item(self.ledger@, *id),
    {
        let mut j: usize = 0;
        while j < self.ledger.len()
            invariant
                j <= self.ledger@.len(),
                forall|k: int| 0 <= k < j ==> !same_item(#[trigger] self.ledger@[k], *id),
            decreases self.ledger@.len() - j,
        {
            if self.ledger[j].same_item(id) {
                return Some(j);
            }
            j = j + 1;
        }
        None
    }

    /// Looks at the oldest request and decides what happens to it.
    pub fn next_step(&mut self) -> (s: Step)
        requires
            old(self).wf(),
        ensures
            final(self).wf(),
            Resolver::step_post(*old(self), *final(self), s),
    {
        if self.aborted || self.queue.len() == 0 {
            if self.running.len() > 0 {
                return Step::Wait;
            } else {
                return Step::Finished;
            }
        }
        let item = self.queue.pop_front().unwrap();
        match self.find_item(&item.identifier) {
            Some(j) => {
                proof {
                    lemma_same_item_equivalence();
                    assert forall|t: usize| t < self.ledger@.len() implies #[trigger] accounted(*self, t) by {
                        assert(accounted(*old(self), t));
                    }
                }
                if self.ledger[j].same_ref(&item.identifier) {
                    Step::Duplicate { item }
                } else {
                    let kept = self.ledger[j].duplicate();
                    proof {
                        assert forall|k: int| 0 <= k < self.ledger@.len() implies !same_ref(
                            #[trigger] self.ledger@[k],
                            item.identifier,
                        ) by {
                            if same_ref(self.ledger@[k], item.identifier) {
                                assert(same_item(self.ledger@[k], item.identifier));
                                assert(same_item(item.identifier, self.ledger@[j as int]));
                                if k < j {
                                    assert(!same_item(self.ledger@[k], self.ledger@[j as int]));
                                } else if k > j {
                                    assert(!same_item(self.ledger@[j as int], self.ledger@[k]));
                                }
                            }
                        }
                    }
                    Step::Clash { kept, dropped: item }
                }
            },
            None => {
                let task = self.ledger.len();
                let id = item.identifier.duplicate();
                self.ledger.push(id);
                self.running.push(task);
                proof {
                    lemma_same_item_equivalence();
                    assert forall|i: int| 0 <= i < self.resolved@.len() implies done_task(
                        self.ledger@,
                        self.running@,
                        #[trigger] self.resolved@[i],
                    ) by {
                        let r = self.resolved@[i];
                        assert(done_task(old(self).ledger@, old(self).running@, old(self).resolved@[i]));
                        assert(self.ledger@[r.task as int] == old(self).ledger@[r.task as int]);
                        if self.running@.contains(r.task) {
                            let k = choose|k: int| 0 <= k < self.running@.len() && self.running@[k] == r.task;
                            if k < old(self).running@.len() {
                                assert(old(self).running@[k] == self.running@[k]);
                            }
                        }
                    }
                    assert forall|t: usize| t < self.ledger@.len() implies #[trigger] accounted(*self, t) by {
                        if t == task {
                            assert(self.running@[self.running@.len() - 1] == task);
                        } else {
                            assert(accounted(*old(self), t));
                            if old(self).running@.contains(t) {
                                let k = choose|k: int| 0 <= k < old(self).running@.len() && old(self).running@[k] == t;
                                assert(self.running@[k] == t);
                            }
                            if exists|i: int| 0 <= i < old(self).resolved@.len() && #[trigger] old(self).resolved@[i].task == t {
                                let i = choose|i: int| 0 <= i < old(self).resolved@.len() && #[trigger] old(self).resolved@[i].task == t;
                                assert(self.resolved@[i].task == t);
                            }
                        }
                    }
                    assert forall|a: int, b: int|
                        0 <= a < b < self.running@.len() implies self.running@[a]
                        != self.running@[b] by {
                        if b == old(self).running@.len() {
                            assert(old(self).running@[a] < task);
                        } else {
                            assert(old(self).running@[a] == self.running@[a]);
                            assert(old(self).running@[b] == self.running@[b]);
                        }
                    }
                }
                Step::Dispatch { task, item }
            },
        }
    }

    /// Position of `task` in the running list.
    fn running_index(&self, task: usize) -> (k: usize)
        requires
            self.running@.contains(task),
        ensures
            k < self.running@.len(),
            self.running@[k as int] == task,
    {
        let mut k: usize = 0;
        while k < self.running.len()
            invariant
                k <= self.running@.len(),
                exists|j: int| k <= j < self.running@.len() && self.running@[j] == task,
            decreases self.running@.len() - k,
        {
            if self.running[k] == task {
                return k;
            }
            k = k + 1;
        }
        k
    }

    /// Takes `task` off the running list.
    fn stop_running(&mut self, task: usize)
        requires
            old(self).running@.contains(task),
            old(self).running@.no_duplicates(),
        ensures
            exists|k: int|
                0 <= k < old(self).running@.len() && #[trigger] old(self).running@[k] == task
                    && final(self).running@ == old(self).running@.remove(k),
            final(self).running@.no_duplicates(),
            forall|x: usize|
                #[trigger] final(self).running@.contains(x) <==> (old(self).running@.contains(x) && x
                    != task),
            final(self).queue == old(self).queue,
            final(self).ledger == old(self).ledger,
            final(self).resolved == old(self).resolved,
            final(self).had_errors == old(self).had_errors,
            final(self).aborted == old(self).aborted,
    {
        let k = self.running_index(task);
        let ghost pre = self.running@;
        self.running.remove(k);
        proof {
            let post = self.running@;
            assert forall|x: usize| #[trigger] post.contains(x) <==> (pre.contains(x) && x != task) by {
                if post.contains(x) {
                    let i = choose|i: int| 0 <= i < post.len() && post[i] == x;
                    let i2 = if i < k { i } else { i + 1 };
                    assert(pre[i2] == x);
                    assert(i2 != k);
                }
                if pre.contains(x) && x != task {
                    let i = choose|i: int| 0 <= i < pre.len() && pre[i] == x;
                    assert(i != k);
                    if i < k {
                        assert(post[i] == x);
                    } else {
                        assert(post[i - 1] == x);
                    }
                }
            }
            assert forall|a: int, b: int| 0 <= a < b < post.len() implies post[a] != post[b] by {
                let a2 = if a < k { a } else { a + 1 };
                let b2 = if b < k { b } else { b + 1 };
                assert(pre[a2] == post[a]);
                assert(pre[b2] == post[b]);
            }
        }
    }

    /// Folds the outcome of running task `task` into the run: a resolved
    /// file is kept and its dependencies are queued, a rate limit aborts the
    /// run, any other failure is recorded.
    pub fn complete(&mut self, task: usize, outcome: Result<DownloadFile, FetchError>)
        requires
            old(self).wf(),
            old(self).running@.contains(task),
        ensures
            final(self).wf(),
            Resolver::complete_post(*old(self), task, outcome, *final(self)),
    {
        let ghost pre = *self;
        proof {
            lemma_same_item_equivalence();
        }
        match outcome {
            Ok(file) => {
                let ghost q0 = self.queue@;
                let mut i: usize = 0;
                while i < file.dependencies.len()
                    invariant
                        i <= file.dependencies@.len(),
                        self.queue@.len() == q0.len() + i,
                        self.queue@.subrange(0, q0.len() as int) == q0,
                        forall|j: int|
                            0 <= j < i ==> dependency_item(
                                #[trigger] self.queue@[q0.len() + j],
                                file.dependencies@[j],
                            ),
                        self.ledger == pre.ledger,
                        self.running == pre.running,
                        self.resolved == pre.resolved,
                        self.had_errors == pre.had_errors,
                        self.aborted == pre.aborted,
                    decreases file.dependencies@.len() - i,
                {
                    let d = &file.dependencies[i];
                    let w = WorkItem { name: d.dependency_name(), identifier: d.duplicate(), seed: None };
                    let ghost before = self.queue@;
                    self.queue.push_back(w);
                    assert(self.queue@.subrange(0, q0.len() as int) =~= before.subrange(
                        0,
                        q0.len() as int,
                    ));
                    i = i + 1;
                }
                self.stop_running(task);
                let id = self.ledger[task].duplicate();
                let ghost old_ids = resolved_ids(self.resolved@);
                self.resolved.push(Resolved { task, identifier: id, file });
                proof {
                    let ids = resolved_ids(self.resolved@);
                    let n = old_ids.len() as int;
                    assert(ids =~= old_ids.push(id));
                    assert forall|a: int| 0 <= a < n implies done_task(
                        self.ledger@,
                        self.running@,
                        #[trigger] self.resolved@[a],
                    ) && self.resolved@[a].task != task by {
                        assert(self.resolved@[a] == pre.resolved@[a]);
                        assert(done_task(pre.ledger@, pre.running@, pre.resolved@[a]));
                    }
                    assert forall|a: int, b: int| 0 <= a < b < ids.len() implies !same_item(
                        #[trigger] ids[a],
                        #[trigger] ids[b],
                    ) by {
                        if b == n {
                            let t = self.resolved@[a].task as int;
                            assert(ids[a] == self.ledger@[t]);
                            assert(t != task);
                            if t < task {
                                assert(!same_item(self.ledger@[t], self.ledger@[task as int]));
                            } else {
                                assert(!same_item(self.ledger@[task as int], self.ledger@[t]));
                            }
                        } else {
                            assert(ids[a] == old_ids[a]);
                            assert(ids[b] == old_ids[b]);
                        }
                    }
                    assert(self.resolved@[n].task == task);
                    assert forall|t: usize| t < self.ledger@.len() implies #[trigger] accounted(*self, t) by {
                        if t != task {
                            assert(accounted(pre, t));
                            if pre.running@.contains(t) {
                                assert(self.running@.contains(t));
                            }
                            if exists|i: int| 0 <= i < pre.resolved@.len() && #[trigger] pre.resolved@[i].task == t {
                                let i = choose|i: int| 0 <= i < pre.resolved@.len() && #[trigger] pre.resolved@[i].task == t;
                                assert(self.resolved@[i].task == t);
                            }
                        }
                    }
                }
            },
            Err(FetchError::RateLimited) => {
                self.stop_running(task);
                self.aborted = true;
                proof {
                    assert forall|a: int| 0 <= a < self.resolved@.len() implies done_task(
                        self.ledger@,
                        self.running@,
                        #[trigger] self.resolved@[a],
                    ) by {
                        assert(done_task(pre.ledger@, pre.running@, pre.resolved@[a]));
                    }
                }
            },
            Err(_) => {
                self.stop_running(task);
                self.had_errors = true;
                proof {
                    assert forall|a: int| 0 <= a < self.resolved@.len() implies done_task(
                        self.ledger@,
                        self.running@,
                        #[trigger] self.resolved@[a],
                    ) by {
                        assert(done_task(pre.ledger@, pre.running@, pre.resolved@[a]));
                    }
                }
            },
        }
    }

    /// Whether some task is still running.
    pub fn has_running(&self) -> (r: bool)
        ensures
            r == (self.running@.len() > 0),
    {
        self.running.len() > 0
    }

    /// Whether task `task` is running.
    pub fn is_running(&self, task: usize) -> (r: bool)
        ensures
            r == self.running@.contains(task),
    {
        let mut k: usize = 0;
        while k < self.running.len()
            invariant
                k <= self.running@.len(),
                forall|j: int| 0 <= j < k ==> self.running@[j] != task,
            decreases self.running@.len() - k,
        {
            if self.running[k] == task {
                return true;
            }
            k = k + 1;
        }
        false
    }

    /// Ends a run in which no task is running.
    pub fn finish(self) -> (out: Result<Resolution, Aborted>)
        requires
            self.wf(),
            self.running@.len() == 0,
        ensures
            Resolver::finish_post(self, out),
            match out {
                Ok(r) => distinct_items(resolved_ids(r.resolved@)),
                Err(a) => distinct_items(resolved_ids(a.resolved@)),
            },
    {
        if self.aborted {
            Err(Aborted { resolved: self.resolved })
        } else {
            Ok(Resolution { resolved: self.resolved, had_errors: self.had_errors })
        }
    }
}

} // verus!
