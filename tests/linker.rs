use std::cell::RefCell;
use std::collections::BTreeMap;

use dotlink::cli::Mode;
use dotlink::backup::{backup_target, find_free_backup_target_name};
use dotlink::linker::{
    compare_link_tasks, create_link_task, examine_target_state, execute_linktask, link_forcefully, link_lazy, link_strictly,
    plan_linkage, run_linkage, sort_link_tasks, FileInfo, LinkResult, LinkTask, LinkageResult,
    LinkagePlan, Probe, TargetState,
};
use dotlink::paths::make_backup_name;

#[derive(Clone, Debug, PartialEq)]
enum Node {
    File,
    Symlink(String),
}

/// A file system held in memory: paths to nodes.
struct MemFs {
    nodes: RefCell<BTreeMap<String, Node>>,
    mutations: RefCell<usize>,
}

impl MemFs {
    fn new(entries: &[(&str, Node)]) -> MemFs {
        let nodes = entries.iter().map(|(p, n)| (p.to_string(), n.clone())).collect();
        MemFs { nodes: RefCell::new(nodes), mutations: RefCell::new(0) }
    }

    fn probe(&self, path: &str) -> Probe {
        match self.nodes.borrow().get(path) {
            None => Probe::Missing,
            Some(Node::File) => Probe::Node(info(false)),
            Some(Node::Symlink(to)) => Probe::Symlink(info(true), to.clone()),
        }
    }

    fn task(&self, source: &str, target: &str) -> LinkTask {
        create_link_task(&source.to_string(), info(false), target.to_string(), &self.probe(target))
    }

    fn is_taken(&self, p: &String) -> bool {
        self.nodes.borrow().contains_key(p)
    }

    fn rename(&self, from: &String, to: &String) -> Result<(), std::io::Error> {
        *self.mutations.borrow_mut() += 1;
        let mut nodes = self.nodes.borrow_mut();
        match nodes.remove(from) {
            Some(n) => {
                nodes.insert(to.clone(), n);
                Ok(())
            }
            None => Err(std::io::Error::new(std::io::ErrorKind::NotFound, "missing")),
        }
    }

    fn link(&self, source: &String, target: &String) -> Result<(), std::io::Error> {
        *self.mutations.borrow_mut() += 1;
        let mut nodes = self.nodes.borrow_mut();
        if nodes.contains_key(target) {
            return Err(std::io::Error::new(std::io::ErrorKind::AlreadyExists, "exists"));
        }
        nodes.insert(target.clone(), Node::Symlink(source.clone()));
        Ok(())
    }

    fn run(&self, mode: Mode, tasks: Vec<LinkTask>) -> LinkageResult {
        run_linkage(mode, tasks, &|p: &String| self.is_taken(p), &|a: &String, b: &String| self.rename(a, b), &|a: &String, b: &String| self.link(a, b))
    }

    fn get(&self, p: &str) -> Option<Node> {
        self.nodes.borrow().get(p).cloned()
    }

    fn mutation_count(&self) -> usize {
        *self.mutations.borrow()
    }
}

fn info(is_symlink: bool) -> FileInfo {
    FileInfo { is_dir: false, is_symlink, len: 0 }
}

fn task_with(target: &str, state: TargetState) -> LinkTask {
    LinkTask { source: "/src/a".to_string(), source_metadata: info(false), target: target.to_string(), target_state: state }
}

fn targets(tasks: &[LinkTask]) -> Vec<String> {
    tasks.iter().map(|t| t.target.clone()).collect()
}

#[test]
fn classification_covers_each_state() {
    let source = "/src/a".to_string();
    assert_eq!(examine_target_state(&Probe::Missing, &source), TargetState::Absent);
    assert_eq!(examine_target_state(&Probe::Node(info(false)), &source), TargetState::AlienNode(info(false)));
    assert_eq!(
        examine_target_state(&Probe::Symlink(info(true), "/elsewhere".to_string()), &source),
        TargetState::AlienLink(info(true))
    );
    assert_eq!(
        examine_target_state(&Probe::Symlink(info(true), "/src/a".to_string()), &source),
        TargetState::Linked(info(true))
    );
    // the comparison is exact, not up to normalisation
    assert_eq!(
        examine_target_state(&Probe::Symlink(info(true), "/src//a".to_string()), &source),
        TargetState::AlienLink(info(true))
    );
}

#[test]
fn comparison_orders_states() {
    let linked = task_with("l", TargetState::Linked(info(true)));
    let alien_link = task_with("al", TargetState::AlienLink(info(true)));
    let alien_node = task_with("an", TargetState::AlienNode(info(false)));
    let absent = task_with("ab", TargetState::Absent);
    assert_eq!(compare_link_tasks(&linked, &alien_link), std::cmp::Ordering::Less);
    assert_eq!(compare_link_tasks(&alien_link, &alien_node), std::cmp::Ordering::Less);
    assert_eq!(compare_link_tasks(&alien_node, &absent), std::cmp::Ordering::Less);
    assert_eq!(compare_link_tasks(&absent, &linked), std::cmp::Ordering::Greater);
    assert_eq!(compare_link_tasks(&absent, &task_with("x", TargetState::Absent)), std::cmp::Ordering::Equal);
}

fn mixed_tasks() -> Vec<LinkTask> {
    vec![
        task_with("ab1", TargetState::Absent),
        task_with("an1", TargetState::AlienNode(info(false))),
        task_with("l1", TargetState::Linked(info(true))),
        task_with("ab2", TargetState::Absent),
        task_with("al1", TargetState::AlienLink(info(true))),
        task_with("l2", TargetState::Linked(info(true))),
    ]
}

#[test]
fn sorting_is_stable_by_state() {
    let sorted = sort_link_tasks(mixed_tasks());
    assert_eq!(targets(&sorted), vec!["l1", "l2", "al1", "an1", "ab1", "ab2"]);
}

#[test]
fn sorting_twice_equals_sorting_once() {
    let once = sort_link_tasks(mixed_tasks());
    let once_targets = targets(&once);
    let twice = sort_link_tasks(once);
    assert_eq!(targets(&twice), once_targets);
}

#[test]
fn sorting_empty_list() {
    assert!(sort_link_tasks(Vec::new()).is_empty());
}

#[test]
fn strict_refuses_when_a_target_exists() {
    match link_strictly(mixed_tasks()) {
        LinkagePlan::PreconditionFailed(reason) => assert_eq!(reason, "Some of the targets exists"),
        other => panic!("unexpected plan {:?}", other),
    }
    let fs = MemFs::new(&[("/dst/b", Node::File)]);
    let tasks = vec![fs.task("/src/a", "/dst/c"), fs.task("/src/a", "/dst/b")];
    assert!(matches!(fs.run(Mode::Strict, tasks), LinkageResult::PreconditionFailed(_)));
    assert_eq!(fs.mutation_count(), 0);
    assert_eq!(fs.get("/dst/c"), None);
}

#[test]
fn strict_links_when_all_absent() {
    let tasks = vec![task_with("x", TargetState::Absent), task_with("y", TargetState::Absent)];
    match link_strictly(tasks) {
        LinkagePlan::Execute(ts, overwrite) => {
            assert_eq!(targets(&ts), vec!["x", "y"]);
            assert!(!overwrite);
        }
        other => panic!("unexpected plan {:?}", other),
    }
}

#[test]
fn lazy_keeps_only_absent_tasks() {
    match link_lazy(mixed_tasks()) {
        LinkagePlan::Execute(ts, overwrite) => {
            assert_eq!(targets(&ts), vec!["ab1", "ab2"]);
            assert!(!overwrite);
        }
        other => panic!("unexpected plan {:?}", other),
    }
    let fs = MemFs::new(&[("/dst/file", Node::File), ("/dst/ok", Node::Symlink("/src/a".to_string()))]);
    let tasks = vec![fs.task("/src/a", "/dst/file"), fs.task("/src/a", "/dst/new"), fs.task("/src/a", "/dst/ok")];
    match fs.run(Mode::Lazy, tasks) {
        LinkageResult::Completed(records) => {
            assert_eq!(records.len(), 1);
            assert_eq!(records[0].task.target, "/dst/new");
            assert!(matches!(records[0].result, LinkResult::Success));
        }
        other => panic!("unexpected result {:?}", other),
    }
    assert_eq!(fs.get("/dst/file"), Some(Node::File));
}

#[test]
fn force_keeps_linked_target() {
    match link_forcefully(mixed_tasks()) {
        LinkagePlan::Execute(ts, overwrite) => {
            assert_eq!(ts.len(), 6);
            assert!(overwrite);
        }
        other => panic!("unexpected plan {:?}", other),
    }
    let fs = MemFs::new(&[("/dst/b", Node::Symlink("/src/a".to_string()))]);
    let task = fs.task("/src/a", "/dst/b");
    let r = execute_linktask(
        &task,
        true,
        &|_: &String| panic!("no lookup expected"),
        &|_: &String, _: &String| panic!("no rename expected"),
        &|_: &String, _: &String| panic!("no link expected"),
    );
    assert!(matches!(r, LinkResult::Existed));
}

#[test]
fn skipped_without_overwrite() {
    let task = task_with("/dst/b", TargetState::AlienNode(info(false)));
    let r = execute_linktask(
        &task,
        false,
        &|_: &String| panic!("no lookup expected"),
        &|_: &String, _: &String| panic!("no rename expected"),
        &|_: &String, _: &String| panic!("no link expected"),
    );
    assert!(matches!(r, LinkResult::Skipped));
}

#[test]
fn link_error_is_reported() {
    let task = task_with("/dst/b", TargetState::Absent);
    let r = execute_linktask(
        &task,
        false,
        &|_: &String| false,
        &|_: &String, _: &String| Ok(()),
        &|_: &String, _: &String| Err(std::io::Error::new(std::io::ErrorKind::PermissionDenied, "denied")),
    );
    match r {
        LinkResult::IoError(e) => assert_eq!(e.kind(), std::io::ErrorKind::PermissionDenied),
        other => panic!("unexpected result {:?}", other),
    }
}

#[test]
fn backup_name_formats() {
    assert_eq!(make_backup_name(&"foo".to_string(), 1), "foo.bak.1");
    assert_eq!(make_backup_name(&"/home/u/foo".to_string(), 12), "/home/u/foo.bak.12");
    assert_eq!(make_backup_name(&"foo".to_string(), 99), "foo.bak.99");
}

#[test]
fn first_backup_name_is_one() {
    let fs = MemFs::new(&[("foo", Node::File)]);
    let name = find_free_backup_target_name(&"foo".to_string(), &|p: &String| fs.is_taken(p));
    assert_eq!(name, Some("foo.bak.1".to_string()));
}

#[test]
fn backup_name_skips_taken_ones() {
    let fs = MemFs::new(&[
        ("foo", Node::File),
        ("foo.bak.1", Node::File),
        ("foo.bak.2", Node::File),
        ("foo.bak.3", Node::File),
        ("foo.bak.4", Node::File),
        ("foo.bak.5", Node::File),
    ]);
    let name = find_free_backup_target_name(&"foo".to_string(), &|p: &String| fs.is_taken(p));
    assert_eq!(name, Some("foo.bak.6".to_string()));
}

#[test]
fn backup_fails_when_all_names_taken() {
    let name = find_free_backup_target_name(&"foo".to_string(), &|_: &String| true);
    assert_eq!(name, None);
    let fs = MemFs::new(&[("foo", Node::File)]);
    let r = backup_target(&"foo".to_string(), &|_: &String| true, &|a: &String, b: &String| fs.rename(a, b));
    assert!(r.is_err());
    assert_eq!(fs.mutation_count(), 0);
    assert_eq!(fs.get("foo"), Some(Node::File));
}

#[test]
fn scenario_absent_destination() {
    let fs = MemFs::new(&[("/r/a", Node::File)]);
    match fs.run(Mode::Dry, vec![fs.task("/r/a", "/r/b")]) {
        LinkageResult::DryResult(ts) => {
            assert_eq!(ts.len(), 1);
            assert_eq!(ts[0].target_state, TargetState::Absent);
        }
        other => panic!("unexpected result {:?}", other),
    }
    assert_eq!(fs.mutation_count(), 0);
    match fs.run(Mode::Strict, vec![fs.task("/r/a", "/r/b")]) {
        LinkageResult::Completed(records) => {
            assert_eq!(records.len(), 1);
            assert!(matches!(records[0].result, LinkResult::Success));
        }
        other => panic!("unexpected result {:?}", other),
    }
    assert_eq!(fs.get("/r/b"), Some(Node::Symlink("/r/a".to_string())));
}

#[test]
fn scenario_correct_link_in_place() {
    let fs = MemFs::new(&[("/r/a", Node::File), ("/r/b", Node::Symlink("/r/a".to_string()))]);
    match fs.run(Mode::Dry, vec![fs.task("/r/a", "/r/b")]) {
        LinkageResult::DryResult(ts) => assert_eq!(ts[0].target_state, TargetState::Linked(info(true))),
        other => panic!("unexpected result {:?}", other),
    }
    match fs.run(Mode::Force, vec![fs.task("/r/a", "/r/b")]) {
        LinkageResult::Completed(records) => {
            assert_eq!(records.len(), 1);
            assert!(matches!(records[0].result, LinkResult::Existed));
        }
        other => panic!("unexpected result {:?}", other),
    }
    match fs.run(Mode::Lazy, vec![fs.task("/r/a", "/r/b")]) {
        LinkageResult::Completed(records) => assert!(records.is_empty()),
        other => panic!("unexpected result {:?}", other),
    }
    assert_eq!(fs.mutation_count(), 0);
    assert_eq!(fs.get("/r/b"), Some(Node::Symlink("/r/a".to_string())));
}

#[test]
fn scenario_regular_file_in_the_way() {
    let fs = MemFs::new(&[("/r/a", Node::File), ("/r/b", Node::File)]);
    assert!(matches!(fs.run(Mode::Strict, vec![fs.task("/r/a", "/r/b")]), LinkageResult::PreconditionFailed(_)));
    assert_eq!(fs.mutation_count(), 0);
    match fs.run(Mode::Force, vec![fs.task("/r/a", "/r/b")]) {
        LinkageResult::Completed(records) => {
            assert_eq!(records.len(), 1);
            assert!(matches!(records[0].result, LinkResult::Success));
        }
        other => panic!("unexpected result {:?}", other),
    }
    assert_eq!(fs.get("/r/b.bak.1"), Some(Node::File));
    assert_eq!(fs.get("/r/b"), Some(Node::Symlink("/r/a".to_string())));
}

#[test]
fn plan_sorts_before_deciding() {
    match plan_linkage(Mode::Dry, mixed_tasks()) {
        LinkagePlan::DryResult(ts) => assert_eq!(targets(&ts), vec!["l1", "l2", "al1", "an1", "ab1", "ab2"]),
        other => panic!("unexpected plan {:?}", other),
    }
    match plan_linkage(Mode::Lazy, mixed_tasks()) {
        LinkagePlan::Execute(ts, false) => assert_eq!(targets(&ts), vec!["ab1", "ab2"]),
        other => panic!("unexpected plan {:?}", other),
    }
}

#[test]
fn backup_name_of_directory_with_trailing_separator() {
    assert_eq!(make_backup_name(&"/d/foo/".to_string(), 1), "/d/foo.bak.1");
    assert_eq!(make_backup_name(&"/d/foo//".to_string(), 3), "/d/foo.bak.3");
    let fs = MemFs::new(&[("/d/foo", Node::File), ("/d/foo.bak.1", Node::File)]);
    let name = find_free_backup_target_name(&"/d/foo/".to_string(), &|p: &String| fs.is_taken(p));
    assert_eq!(name, Some("/d/foo.bak.2".to_string()));
}

#[test]
fn replace_reports_rename_error() {
    let task = task_with("/dst/b", TargetState::AlienNode(info(false)));
    let r = execute_linktask(
        &task,
        true,
        &|_: &String| false,
        &|_: &String, _: &String| Err(std::io::Error::new(std::io::ErrorKind::PermissionDenied, "rename")),
        &|_: &String, _: &String| panic!("no link expected after a failed rename"),
    );
    match r {
        LinkResult::IoError(e) => assert_eq!(e.kind(), std::io::ErrorKind::PermissionDenied),
        other => panic!("unexpected result {:?}", other),
    }
}

#[test]
fn replace_reports_link_error_after_backup() {
    let fs = MemFs::new(&[("/dst/b", Node::File)]);
    let task = fs.task("/src/a", "/dst/b");
    let r = execute_linktask(
        &task,
        true,
        &|p: &String| fs.is_taken(p),
        &|a: &String, b: &String| fs.rename(a, b),
        &|_: &String, _: &String| Err(std::io::Error::new(std::io::ErrorKind::Other, "link")),
    );
    assert!(matches!(r, LinkResult::IoError(_)));
    assert_eq!(fs.get("/dst/b.bak.1"), Some(Node::File));
    assert_eq!(fs.get("/dst/b"), None);
}

#[test]
fn replace_fails_when_no_backup_name_is_free() {
    let task = task_with("/dst/b", TargetState::AlienLink(info(true)));
    let r = execute_linktask(
        &task,
        true,
        &|_: &String| true,
        &|_: &String, _: &String| panic!("no rename expected"),
        &|_: &String, _: &String| panic!("no link expected"),
    );
    match r {
        LinkResult::IoError(e) => assert_eq!(e.to_string(), "Cannot find suitable backup name"),
        other => panic!("unexpected result {:?}", other),
    }
}
