use vstd::prelude::*;
use crate::identifier::{ModIdentifier, same_item, same_ref, lemma_same_item_equivalence};
use crate::resolver::{
    Aborted, DownloadFile, FetchError, Resolution, Resolver, Step, dependency_item, ledger_has_item,
    ledger_has_ref, done_task, accounted,
};
use crate::reconcile::{downloads_left, names, unexpected, filenames};

verus! {

/// A run over an empty profile finishes at its first step, with nothing
/// resolved and no error.
pub proof fn lemma_empty_profile(
    r0: Resolver,
    r1: Resolver,
    s: Step,
    out: Result<Resolution, Aborted>,
)
    requires
        Resolver::initial(r0, Seq::empty()),
        Resolver::step_post(r0, r1, s),
        Resolver::finish_post(r1, out),
    ensures
        s is Finished,
        out matches Ok(res) && res.resolved@.len() == 0 && !res.had_errors,
{
}

/// A dependency of a resolved file is queued as a request of its own,
/// named as a dependency and without the profile's filters.
pub proof fn lemma_dependency_queued(
    a: Resolver,
    task: usize,
    file: DownloadFile,
    b: Resolver,
    i: int,
)
    requires
        Resolver::complete_post(a, task, Ok(file), b),
        0 <= i < file.dependencies@.len(),
    ensures
        exists|q: int|
            0 <= q < b.queue@.len() && dependency_item(
                #[trigger] b.queue@[q],
                file.dependencies@[i],
            ),
{
    assert(dependency_item(b.queue@[a.queue@.len() + i], file.dependencies@[i]));
}

/// A request at the head of the queue whose item was never dispatched is
/// dispatched next, unless the run was aborted.
pub proof fn lemma_new_item_dispatched(a: Resolver, b: Resolver, s: Step)
    requires
        a.wf(),
        !a.aborted,
        a.queue@.len() > 0,
        !ledger_has_item(a.ledger@, a.queue@[0].identifier),
        Resolver::step_post(a, b, s),
    ensures
        s matches Step::Dispatch { task, item } && item == a.queue@[0] && b.ledger@[task as int]
            == item.identifier,
{
    lemma_same_item_equivalence();
    if let Step::Duplicate { item } = s {
        let j = choose|j: int| 0 <= j < a.ledger@.len() && same_ref(#[trigger] a.ledger@[j], item.identifier);
        assert(same_item(a.ledger@[j], item.identifier));
    }
}

/// Once another version of an item has been dispatched, a request written
/// differently for that item is never dispatched: a step keeps it out of
/// the ledger, and so out of the resolved items.
pub proof fn lemma_first_version_kept(a: Resolver, b: Resolver, s: Step, id: ModIdentifier)
    requires
        a.wf(),
        ledger_has_item(a.ledger@, id),
        !ledger_has_ref(a.ledger@, id),
        Resolver::step_post(a, b, s),
    ensures
        ledger_has_item(b.ledger@, id),
        !ledger_has_ref(b.ledger@, id),
        forall|i: int| 0 <= i < b.resolved@.len() ==> !same_ref(#[trigger] b.resolved@[i].identifier, id),
{
    lemma_same_item_equivalence();
    let j = choose|j: int| 0 <= j < a.ledger@.len() && same_item(#[trigger] a.ledger@[j], id);
    assert(b.ledger@[j] == a.ledger@[j]) by {
        if let Step::Dispatch { task, item } = s {
            assert(b.ledger@ == a.ledger@.push(item.identifier));
        }
    }
    assert forall|k: int| 0 <= k < b.ledger@.len() implies !same_ref(#[trigger] b.ledger@[k], id) by {
        if k < a.ledger@.len() {
            if let Step::Dispatch { task, item } = s {
                assert(b.ledger@ == a.ledger@.push(item.identifier));
            }
            assert(b.ledger@[k] == a.ledger@[k]);
        } else {
            if let Step::Dispatch { task, item } = s {
                assert(b.ledger@[k] == item.identifier);
                if same_ref(item.identifier, id) {
                    assert(same_item(a.ledger@[j], item.identifier));
                }
            }
        }
    }
    assert forall|i: int| 0 <= i < b.resolved@.len() implies !same_ref(#[trigger] b.resolved@[i].identifier, id) by {
        assert(b.resolved == a.resolved);
        assert(done_task(a.ledger@, a.running@, a.resolved@[i]));
        assert(!same_ref(a.ledger@[a.resolved@[i].task as int], id));
    }
}

/// `y` was dispatched, under some reference to its item, or still waits in
/// the queue.
pub open spec fn accounted_for(r: Resolver, y: ModIdentifier) -> bool {
    ||| ledger_has_item(r.ledger@, y)
    ||| exists|i: int| 0 <= i < r.queue@.len() && #[trigger] r.queue@[i].identifier == y
}

/// A declared dependency is accounted for once its dependent is resolved.
pub proof fn lemma_dependency_accounted_for(
    a: Resolver,
    task: usize,
    file: DownloadFile,
    b: Resolver,
    i: int,
)
    requires
        Resolver::complete_post(a, task, Ok(file), b),
        0 <= i < file.dependencies@.len(),
    ensures
        accounted_for(b, file.dependencies@[i]),
{
    let q = a.queue@.len() + i;
    assert(dependency_item(b.queue@[q], file.dependencies@[i]));
    assert(b.queue@[q].identifier == file.dependencies@[i]);
}

/// A step of the run never loses sight of an item.
pub proof fn lemma_step_keeps_accounted_for(a: Resolver, b: Resolver, s: Step, y: ModIdentifier)
    requires
        a.wf(),
        accounted_for(a, y),
        Resolver::step_post(a, b, s),
    ensures
        accounted_for(b, y),
{
    lemma_same_item_equivalence();
    if ledger_has_item(a.ledger@, y) {
        let j = choose|j: int| 0 <= j < a.ledger@.len() && same_item(#[trigger] a.ledger@[j], y);
        if let Step::Dispatch { task, item } = s {
            assert(b.ledger@[j] == a.ledger@[j]);
        } else {
            assert(b.ledger == a.ledger);
        }
    } else {
        let i = choose|i: int| 0 <= i < a.queue@.len() && #[trigger] a.queue@[i].identifier == y;
        match s {
            Step::Wait => {},
            Step::Finished => {},
            Step::Duplicate { item } => {
                if i > 0 {
                    assert(b.queue@[i - 1] == a.queue@[i]);
                } else {
                    let j = choose|j: int| 0 <= j < a.ledger@.len() && same_ref(#[trigger] a.ledger@[j], y);
                    assert(same_item(b.ledger@[j], y));
                }
            },
            Step::Clash { kept, dropped } => {
                if i > 0 {
                    assert(b.queue@[i - 1] == a.queue@[i]);
                } else {
                    let j = choose|j: int|
                        0 <= j < a.ledger@.len() && a.ledger@[j] == kept && same_item(#[trigger] a.ledger@[j], y);
                    assert(same_item(b.ledger@[j], y));
                }
            },
            Step::Dispatch { task, item } => {
                if i > 0 {
                    assert(b.queue@[i - 1] == a.queue@[i]);
                } else {
                    assert(same_item(b.ledger@[task as int], y));
                }
            },
        }
    }
}

/// Completing a task never loses sight of an item.
pub proof fn lemma_complete_keeps_accounted_for(
    a: Resolver,
    task: usize,
    outcome: Result<DownloadFile, FetchError>,
    b: Resolver,
    y: ModIdentifier,
)
    requires
        accounted_for(a, y),
        Resolver::complete_post(a, task, outcome, b),
    ensures
        accounted_for(b, y),
{
    if !ledger_has_item(a.ledger@, y) {
        let i = choose|i: int| 0 <= i < a.queue@.len() && #[trigger] a.queue@[i].identifier == y;
        if outcome is Ok {
            assert(b.queue@.subrange(0, a.queue@.len() as int)[i] == b.queue@[i]);
        }
        assert(b.queue@[i].identifier == y);
    }
}

/// A run that drained its queue, with no task running, no failure and no
/// abort, holds a resolved file for every item it accounted for.
pub proof fn lemma_finished_run_resolves(r: Resolver, y: ModIdentifier)
    requires
        r.wf(),
        accounted_for(r, y),
        r.queue@.len() == 0,
        r.running@.len() == 0,
        !r.had_errors,
        !r.aborted,
    ensures
        exists|i: int| 0 <= i < r.resolved@.len() && same_item(#[trigger] r.resolved@[i].identifier, y),
{
    let j = choose|j: int| 0 <= j < r.ledger@.len() && same_item(#[trigger] r.ledger@[j], y);
    let t = j as usize;
    assert(accounted(r, t));
    let i = choose|i: int| 0 <= i < r.resolved@.len() && #[trigger] r.resolved@[i].task == t;
    assert(done_task(r.ledger@, r.running@, r.resolved@[i]));
}

/// A failure other than a rate limit is recorded and touches nothing else:
/// the queued requests and the resolved items stay, and dispatch goes on.
pub proof fn lemma_failure_isolated(a: Resolver, task: usize, e: FetchError, b: Resolver)
    requires
        Resolver::complete_post(a, task, Err(e), b),
        !(e is RateLimited),
    ensures
        b.had_errors,
        b.queue == a.queue,
        b.resolved == a.resolved,
        b.ledger == a.ledger,
        b.aborted == a.aborted,
        !a.drained() ==> !b.drained(),
{
}

/// After a rate limit, nothing more is dispatched, and finishing the run
/// reports the abort together with every item resolved before it.
pub proof fn lemma_rate_limit_fatal(
    a: Resolver,
    task: usize,
    b: Resolver,
    s: Step,
    c: Resolver,
    out: Result<Resolution, Aborted>,
)
    requires
        Resolver::complete_post(a, task, Err(FetchError::RateLimited), b),
        Resolver::step_post(b, c, s),
        Resolver::finish_post(c, out),
    ensures
        s is Wait || s is Finished,
        c == b,
        out == Err::<Resolution, Aborted>(Aborted { resolved: a.resolved }),
{
}

/// A file to download that is already in the directory is not downloaded
/// again.
pub proof fn lemma_present_file_kept(present: Seq<String>, files: Seq<DownloadFile>, i: int)
    requires
        0 <= i < files.len(),
        names(present).contains(files[i].filename@),
    ensures
        !downloads_left(files, names(present)).contains(files[i]),
{
    let p = names(present);
    let pred = |f: DownloadFile| !p.contains(f.filename@);
    let left = files.filter(pred);
    if left.contains(files[i]) {
        let k = choose|k: int| 0 <= k < left.len() && left[k] == files[i];
        files.lemma_filter_pred(pred, k);
    }
}

/// A file of the directory that no download and no manual install accounts
/// for goes to quarantine.
pub proof fn lemma_unexpected_quarantined(
    present: Seq<String>,
    files: Seq<DownloadFile>,
    install: Seq<String>,
    i: int,
)
    requires
        0 <= i < present.len(),
        !filenames(files).contains(present[i]@),
        !names(install).contains(present[i]@),
    ensures
        unexpected(present, filenames(files), names(install)).contains(present[i]),
{
    let w = filenames(files);
    let n = names(install);
    present.lemma_filter_contains(|s: String| !w.contains(s@) && !n.contains(s@), i);
}

} // verus!
