use ferium::identifier::ModIdentifier;
use ferium::resolver::{
    Aborted, DownloadFile, FetchError, Resolution, Resolver, Step, WorkItem,
};
use std::collections::VecDeque;

fn mr(p: &str) -> ModIdentifier {
    ModIdentifier::ModrinthProject(p.to_string())
}

fn pinned(p: &str, v: &str) -> ModIdentifier {
    ModIdentifier::PinnedModrinthProject(p.to_string(), v.to_string())
}

fn seed(name: &str, id: ModIdentifier, at: usize) -> WorkItem {
    WorkItem { name: name.to_string(), identifier: id, seed: Some(at) }
}

fn file(name: &str, deps: Vec<ModIdentifier>) -> DownloadFile {
    DownloadFile {
        filename: name.to_string(),
        url: format!("https://cdn.example/{name}"),
        dependencies: deps,
    }
}

struct Run {
    out: Result<Resolution, Aborted>,
    warnings: Vec<(ModIdentifier, WorkItem)>,
    dispatched: Vec<WorkItem>,
}

/// Drives a run, completing the oldest running task whenever the resolver
/// asks to wait.
fn run(
    seeds: Vec<WorkItem>,
    fetch: impl Fn(&ModIdentifier) -> Result<DownloadFile, FetchError>,
) -> Run {
    let mut r = Resolver::new(seeds);
    let mut in_flight: VecDeque<(usize, ModIdentifier)> = VecDeque::new();
    let mut warnings = Vec::new();
    let mut dispatched = Vec::new();
    loop {
        match r.next_step() {
            Step::Dispatch { task, item } => {
                in_flight.push_back((task, item.identifier.clone()));
                dispatched.push(item);
            }
            Step::Duplicate { .. } => {}
            Step::Clash { kept, dropped } => warnings.push((kept, dropped)),
            Step::Wait => {
                let (task, id) = in_flight.pop_front().unwrap();
                assert!(r.is_running(task));
                r.complete(task, fetch(&id));
            }
            Step::Finished => break,
        }
    }
    assert!(!r.has_running());
    Run { out: r.finish(), warnings, dispatched }
}

fn filenames(res: &Resolution) -> Vec<String> {
    let mut v: Vec<String> = res.resolved.iter().map(|r| r.file.filename.clone()).collect();
    v.sort();
    v
}

#[test]
fn empty_profile_resolves_to_nothing() {
    let run = run(vec![], |_| panic!("nothing to fetch"));
    let res = run.out.unwrap();
    assert!(res.resolved.is_empty());
    assert!(!res.had_errors);
}

#[test]
fn first_step_of_empty_profile_is_finished() {
    let mut r = Resolver::new(vec![]);
    assert!(matches!(r.next_step(), Step::Finished));
}

#[test]
fn dependency_is_resolved_with_synthesized_name() {
    let run = run(vec![seed("X", mr("x"), 0)], |id| match id {
        ModIdentifier::ModrinthProject(p) if p == "x" => Ok(file("x.jar", vec![mr("y")])),
        ModIdentifier::ModrinthProject(p) if p == "y" => Ok(file("y.jar", vec![])),
        _ => Err(FetchError::NotFound),
    });
    let res = run.out.unwrap();
    assert_eq!(filenames(&res), vec!["x.jar".to_string(), "y.jar".to_string()]);
    assert!(!res.had_errors);
    let dep = &run.dispatched[1];
    assert_eq!(dep.name, "Dependency: y");
    assert!(dep.seed.is_none());
}

#[test]
fn duplicate_dependencies_are_resolved_once() {
    // a and b both need c; c also needs a again
    let run = run(vec![seed("A", mr("a"), 0), seed("B", mr("b"), 1)], |id| match id {
        ModIdentifier::ModrinthProject(p) if p == "a" => Ok(file("a.jar", vec![mr("c")])),
        ModIdentifier::ModrinthProject(p) if p == "b" => Ok(file("b.jar", vec![mr("c")])),
        ModIdentifier::ModrinthProject(p) if p == "c" => Ok(file("c.jar", vec![mr("a")])),
        _ => Err(FetchError::NotFound),
    });
    let res = run.out.unwrap();
    assert_eq!(
        filenames(&res),
        vec!["a.jar".to_string(), "b.jar".to_string(), "c.jar".to_string()]
    );
    assert!(run.warnings.is_empty());
}

#[test]
fn pinned_clash_keeps_first_seen() {
    let run = run(vec![seed("A", mr("a"), 0), seed("B", mr("b"), 1)], |id| match id {
        ModIdentifier::ModrinthProject(p) if p == "a" => Ok(file("a-latest.jar", vec![])),
        ModIdentifier::ModrinthProject(p) if p == "b" => Ok(file("b.jar", vec![pinned("a", "v1")])),
        _ => Ok(file("a-v1.jar", vec![])),
    });
    let res = run.out.unwrap();
    assert_eq!(filenames(&res), vec!["a-latest.jar".to_string(), "b.jar".to_string()]);
    assert_eq!(run.warnings.len(), 1);
    let (kept, dropped) = &run.warnings[0];
    assert!(matches!(kept, ModIdentifier::ModrinthProject(p) if p == "a"));
    assert!(kept.same_item(&dropped.identifier));
    assert!(!kept.same_ref(&dropped.identifier));
}

#[test]
fn unpinned_after_pinned_is_dropped() {
    let run = run(vec![seed("A", pinned("a", "v1"), 0), seed("A2", mr("a"), 1)], |id| match id {
        ModIdentifier::PinnedModrinthProject(_, _) => Ok(file("a-v1.jar", vec![])),
        _ => Ok(file("a-latest.jar", vec![])),
    });
    let res = run.out.unwrap();
    assert_eq!(filenames(&res), vec!["a-v1.jar".to_string()]);
    assert_eq!(run.warnings.len(), 1);
}

#[test]
fn failure_does_not_stop_siblings() {
    let run = run(
        vec![seed("A", mr("a"), 0), seed("B", mr("b"), 1), seed("C", mr("c"), 2)],
        |id| match id {
            ModIdentifier::ModrinthProject(p) if p == "b" => Err(FetchError::NotCompatible),
            ModIdentifier::ModrinthProject(p) => Ok(file(&format!("{p}.jar"), vec![])),
            _ => Err(FetchError::NotFound),
        },
    );
    let res = run.out.unwrap();
    assert_eq!(filenames(&res), vec!["a.jar".to_string(), "c.jar".to_string()]);
    assert!(res.had_errors);
}

#[test]
fn each_plain_failure_kind_sets_had_errors() {
    for e in [FetchError::NotCompatible, FetchError::NotFound, FetchError::Transport] {
        let mut r = Resolver::new(vec![seed("A", mr("a"), 0)]);
        let task = match r.next_step() {
            Step::Dispatch { task, .. } => task,
            other => panic!("unexpected {other:?}"),
        };
        r.complete(task, Err(e));
        assert!(matches!(r.next_step(), Step::Finished));
        let res = r.finish().unwrap();
        assert!(res.had_errors);
        assert!(res.resolved.is_empty());
    }
}

#[test]
fn rate_limit_aborts_and_keeps_earlier_results() {
    let mut r = Resolver::new(vec![
        seed("A", mr("a"), 0),
        seed("B", mr("b"), 1),
        seed("C", mr("c"), 2),
    ]);
    let ta = match r.next_step() {
        Step::Dispatch { task, .. } => task,
        other => panic!("unexpected {other:?}"),
    };
    let tb = match r.next_step() {
        Step::Dispatch { task, .. } => task,
        other => panic!("unexpected {other:?}"),
    };
    r.complete(ta, Ok(file("a.jar", vec![mr("d")])));
    r.complete(tb, Err(FetchError::RateLimited));
    // c and d are still queued, but nothing more is dispatched
    assert!(matches!(r.next_step(), Step::Finished));
    match r.finish() {
        Err(Aborted { resolved }) => {
            assert_eq!(resolved.len(), 1);
            assert_eq!(resolved[0].file.filename, "a.jar");
        }
        Ok(_) => panic!("a rate limit must abort the run"),
    }
}

#[test]
fn abort_waits_for_running_tasks() {
    let mut r = Resolver::new(vec![seed("A", mr("a"), 0), seed("B", mr("b"), 1)]);
    let ta = match r.next_step() {
        Step::Dispatch { task, .. } => task,
        other => panic!("unexpected {other:?}"),
    };
    let tb = match r.next_step() {
        Step::Dispatch { task, .. } => task,
        other => panic!("unexpected {other:?}"),
    };
    r.complete(ta, Err(FetchError::RateLimited));
    assert!(matches!(r.next_step(), Step::Wait));
    r.complete(tb, Ok(file("b.jar", vec![])));
    assert!(matches!(r.next_step(), Step::Finished));
    let aborted = r.finish().unwrap_err();
    assert_eq!(aborted.resolved.len(), 1);
}

#[test]
fn end_to_end_three_items() {
    let run = run(
        vec![
            seed("A", mr("a"), 0),
            seed("B", ModIdentifier::CurseForgeProject(238222), 1),
        ],
        |id| match id {
            ModIdentifier::ModrinthProject(p) if p == "a" => {
                Ok(file("a.jar", vec![ModIdentifier::GitHubRepository("o".into(), "c".into())]))
            }
            ModIdentifier::CurseForgeProject(238222) => Ok(file("b.jar", vec![])),
            ModIdentifier::GitHubRepository(_, _) => Ok(file("c.jar", vec![])),
            _ => Err(FetchError::NotFound),
        },
    );
    let res = run.out.unwrap();
    assert!(!res.had_errors);
    assert_eq!(
        filenames(&res),
        vec!["a.jar".to_string(), "b.jar".to_string(), "c.jar".to_string()]
    );
    assert_eq!(run.dispatched[2].name, "Dependency: o/c");
}

#[test]
fn dependency_names_of_each_variant() {
    assert_eq!(ModIdentifier::CurseForgeProject(238222).dependency_name(), "Dependency: 238222");
    assert_eq!(ModIdentifier::CurseForgeProject(-7).dependency_name(), "Dependency: -7");
    assert_eq!(ModIdentifier::CurseForgeProject(0).dependency_name(), "Dependency: 0");
    assert_eq!(mr("AANobbMI").dependency_name(), "Dependency: AANobbMI");
    assert_eq!(pinned("AANobbMI", "v9").dependency_name(), "Dependency: v9");
    assert_eq!(
        ModIdentifier::GitHubRepository("owner".into(), "repo".into()).dependency_name(),
        "Dependency: owner/repo"
    );
}

#[test]
fn same_item_rules() {
    assert!(mr("a").same_item(&pinned("a", "1")));
    assert!(pinned("a", "2").same_item(&pinned("a", "1")));
    assert!(!pinned("a", "2").same_ref(&pinned("a", "1")));
    assert!(!mr("a").same_item(&mr("b")));
    assert!(!mr("1").same_item(&ModIdentifier::CurseForgeProject(1)));
    assert!(ModIdentifier::CurseForgeProject(1).same_item(&ModIdentifier::CurseForgeProject(1)));
    assert!(!ModIdentifier::GitHubRepository("a".into(), "b".into())
        .same_item(&ModIdentifier::GitHubRepository("a".into(), "c".into())));
}

#[test]
fn duplicate_reference_is_reported_as_duplicate() {
    let mut r = Resolver::new(vec![seed("A", mr("a"), 0), seed("A again", mr("a"), 1)]);
    assert!(matches!(r.next_step(), Step::Dispatch { task: 0, .. }));
    match r.next_step() {
        Step::Duplicate { item } => assert_eq!(item.name, "A again"),
        other => panic!("unexpected {other:?}"),
    }
    assert!(matches!(r.next_step(), Step::Wait));
}
