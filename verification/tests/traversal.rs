use brp_engine::chain::{Handler, HandlerChain, HandlerFailure};
use brp_engine::config::Config;
use brp_engine::dedup::{FileIdentity, InodeDedupSet};
use brp_engine::path::contains;
use brp_engine::traversal::{Found, Step, Traversal, TraversalError};
use std::cell::RefCell;
use std::collections::HashMap;
use std::rc::Rc;

struct Recorder {
    fails_on: Option<&'static str>,
    log: Rc<RefCell<Vec<String>>>,
}

impl Handler for Recorder {
    fn handle(&self, path: &str, _config: &Config) -> Result<(), String> {
        self.log.borrow_mut().push(path.to_string());
        if self.fails_on == Some(path) {
            Err("broken".to_string())
        } else {
            Ok(())
        }
    }
}

struct Tree {
    nodes: HashMap<String, Node>,
}

enum Node {
    File(u64, u64),
    Dir(Vec<&'static str>),
    LinkedDir(Vec<&'static str>),
    Socket,
}

impl Tree {
    fn new(nodes: Vec<(&'static str, Node)>) -> Tree {
        Tree { nodes: nodes.into_iter().map(|(path, node)| (path.to_string(), node)).collect() }
    }

    fn inspect(&self, path: &str) -> Found {
        match self.nodes.get(path) {
            None => Found::Inaccessible { cause: "No such file or directory".to_string() },
            Some(Node::File(device, inode)) => {
                Found::Regular { identity: FileIdentity { device: *device, inode: *inode } }
            }
            Some(Node::Dir(entries)) => Found::Directory {
                symlink: false,
                entries: entries.iter().map(|entry| entry.to_string()).collect(),
            },
            Some(Node::LinkedDir(entries)) => Found::Directory {
                symlink: true,
                entries: entries.iter().map(|entry| entry.to_string()).collect(),
            },
            Some(Node::Socket) => Found::Other,
        }
    }
}

struct Run {
    chain: HandlerChain<Recorder>,
    log: Rc<RefCell<Vec<String>>>,
    seen: InodeDedupSet,
    config: Config,
}

impl Run {
    fn new(fails_on: Option<&'static str>) -> Run {
        let log = Rc::new(RefCell::new(Vec::new()));
        Run {
            chain: HandlerChain::new(vec![Recorder { fails_on, log: log.clone() }]),
            log,
            seen: InodeDedupSet::new(),
            config: Config::new(Vec::new(), false),
        }
    }

    fn process(&mut self, tree: &Tree, input: &str) -> (Result<usize, TraversalError>, Vec<Step>) {
        let mut traversal = Traversal::begin(input.to_string());
        let mut steps = Vec::new();
        loop {
            let found = match traversal.next_path() {
                Some(path) => tree.inspect(path),
                None => break,
            };
            assert!(traversal.count() < usize::MAX);
            steps.push(traversal.advance(&mut self.seen, &self.chain, &self.config, found));
        }
        (traversal.finish(), steps)
    }

    fn handled(&self) -> Vec<String> {
        self.log.borrow().clone()
    }
}

fn path(text: &str) -> String {
    text.to_string()
}

#[test]
fn hard_links_are_dispatched_once() {
    let tree = Tree::new(vec![("/srv/a", Node::File(1, 42)), ("/srv/b", Node::File(1, 42))]);
    let mut run = Run::new(None);
    let (first, first_steps) = run.process(&tree, "/srv/a");
    let (second, second_steps) = run.process(&tree, "/srv/b");
    assert_eq!(first, Ok(1));
    assert_eq!(second, Ok(0));
    assert_eq!(first_steps, vec![Step::Dispatched { path: path("/srv/a"), outcome: Ok(()) }]);
    assert_eq!(second_steps, vec![Step::Skipped { path: path("/srv/b") }]);
    assert_eq!(run.handled(), vec![path("/srv/a")]);
    assert_eq!(first.unwrap() + second.unwrap(), 1);
}

#[test]
fn hard_links_inside_one_directory_are_dispatched_once() {
    let tree = Tree::new(vec![
        ("/d", Node::Dir(vec!["a", "b", "c"])),
        ("/d/a", Node::File(1, 5)),
        ("/d/b", Node::File(1, 5)),
        ("/d/c", Node::File(1, 6)),
    ]);
    let mut run = Run::new(None);
    let (outcome, _) = run.process(&tree, "/d");
    assert_eq!(outcome, Ok(2));
    assert_eq!(run.handled(), vec![path("/d/a"), path("/d/c")]);
}

#[test]
fn directory_of_distinct_files_dispatches_each() {
    let tree = Tree::new(vec![
        ("/d", Node::Dir(vec!["1", "2", "3", "4", "5"])),
        ("/d/1", Node::File(9, 1)),
        ("/d/2", Node::File(9, 2)),
        ("/d/3", Node::File(9, 3)),
        ("/d/4", Node::File(9, 4)),
        ("/d/5", Node::File(9, 5)),
    ]);
    let mut run = Run::new(None);
    let (outcome, steps) = run.process(&tree, "/d");
    assert_eq!(outcome, Ok(5));
    assert_eq!(steps.len(), 6);
    assert_eq!(steps[0], Step::Entered { path: path("/d") });
    assert_eq!(
        run.handled(),
        vec![path("/d/1"), path("/d/2"), path("/d/3"), path("/d/4"), path("/d/5")]
    );
}

#[test]
fn empty_directory_dispatches_nothing() {
    let tree = Tree::new(vec![("/d", Node::Dir(vec![]))]);
    let mut run = Run::new(None);
    let (outcome, steps) = run.process(&tree, "/d");
    assert_eq!(outcome, Ok(0));
    assert_eq!(steps, vec![Step::Entered { path: path("/d") }]);
    assert!(run.handled().is_empty());
}

#[test]
fn missing_input_fails_with_access_error() {
    let tree = Tree::new(vec![("/there", Node::File(1, 1))]);
    let mut run = Run::new(None);
    let (missing, steps) = run.process(&tree, "/gone");
    assert_eq!(
        missing,
        Err(TraversalError::AccessError {
            path: path("/gone"),
            cause: path("No such file or directory"),
        })
    );
    assert_eq!(
        steps,
        vec![Step::Failed { path: path("/gone"), cause: path("No such file or directory") }]
    );
    let (other, _) = run.process(&tree, "/there");
    assert_eq!(other, Ok(1));
    assert_eq!(run.handled(), vec![path("/there")]);
}

#[test]
fn missing_input_leaves_the_set_untouched() {
    let tree = Tree::new(vec![]);
    let mut run = Run::new(None);
    let (missing, _) = run.process(&tree, "/gone");
    assert!(missing.is_err());
    assert!(!run.seen.contains(FileIdentity { device: 0, inode: 0 }));
    assert!(run.seen.insert(FileIdentity { device: 0, inode: 0 }));
}

#[test]
fn missing_entry_is_reported_and_passed_over() {
    let tree = Tree::new(vec![
        ("/d", Node::Dir(vec!["a", "gone", "z"])),
        ("/d/a", Node::File(1, 1)),
        ("/d/z", Node::File(1, 2)),
    ]);
    let mut run = Run::new(None);
    let (outcome, steps) = run.process(&tree, "/d");
    assert_eq!(outcome, Ok(2));
    assert_eq!(
        steps[2],
        Step::Inaccessible { path: path("/d/gone"), cause: path("No such file or directory") }
    );
    assert_eq!(run.handled(), vec![path("/d/a"), path("/d/z")]);
}

#[test]
fn failing_handler_is_reported_and_siblings_go_on() {
    let tree = Tree::new(vec![
        ("/d", Node::Dir(vec!["a", "bad", "sub", "z"])),
        ("/d/a", Node::File(1, 1)),
        ("/d/bad", Node::File(1, 2)),
        ("/d/sub", Node::Dir(vec!["x"])),
        ("/d/sub/x", Node::File(1, 3)),
        ("/d/z", Node::File(1, 4)),
    ]);
    let mut run = Run::new(Some("/d/bad"));
    let (outcome, steps) = run.process(&tree, "/d");
    assert_eq!(outcome, Ok(4));
    assert_eq!(
        steps[2],
        Step::Dispatched {
            path: path("/d/bad"),
            outcome: Err(HandlerFailure { stage: 0, cause: path("broken") }),
        }
    );
    assert_eq!(steps[3], Step::Entered { path: path("/d/sub") });
    assert_eq!(steps[4], Step::Dispatched { path: path("/d/sub/x"), outcome: Ok(()) });
    assert_eq!(steps[5], Step::Dispatched { path: path("/d/z"), outcome: Ok(()) });
    assert_eq!(run.handled(), vec![path("/d/a"), path("/d/bad"), path("/d/sub/x"), path("/d/z")]);
}

#[test]
fn directories_are_walked_depth_first_in_listed_order() {
    let tree = Tree::new(vec![
        ("/r", Node::Dir(vec!["b", "a", "c"])),
        ("/r/b", Node::Dir(vec!["2", "1"])),
        ("/r/b/2", Node::File(1, 12)),
        ("/r/b/1", Node::Dir(vec!["deep"])),
        ("/r/b/1/deep", Node::File(1, 111)),
        ("/r/a", Node::File(1, 1)),
        ("/r/c", Node::Dir(vec![])),
    ]);
    let mut run = Run::new(None);
    let (outcome, steps) = run.process(&tree, "/r");
    assert_eq!(outcome, Ok(3));
    assert_eq!(run.handled(), vec![path("/r/b/2"), path("/r/b/1/deep"), path("/r/a")]);
    assert_eq!(
        steps,
        vec![
            Step::Entered { path: path("/r") },
            Step::Entered { path: path("/r/b") },
            Step::Dispatched { path: path("/r/b/2"), outcome: Ok(()) },
            Step::Entered { path: path("/r/b/1") },
            Step::Dispatched { path: path("/r/b/1/deep"), outcome: Ok(()) },
            Step::Dispatched { path: path("/r/a"), outcome: Ok(()) },
            Step::Entered { path: path("/r/c") },
        ]
    );
}

#[test]
fn other_file_types_are_ignored() {
    let tree = Tree::new(vec![
        ("/d", Node::Dir(vec!["sock", "f"])),
        ("/d/sock", Node::Socket),
        ("/d/f", Node::File(1, 1)),
    ]);
    let mut run = Run::new(None);
    let (outcome, steps) = run.process(&tree, "/d");
    assert_eq!(outcome, Ok(1));
    assert_eq!(steps[1], Step::Ignored { path: path("/d/sock") });
    let (alone, alone_steps) = run.process(&tree, "/d/sock");
    assert_eq!(alone, Ok(0));
    assert_eq!(alone_steps, vec![Step::Ignored { path: path("/d/sock") }]);
}

#[test]
fn linked_directory_is_not_entered_as_an_entry() {
    let tree = Tree::new(vec![
        ("/d", Node::Dir(vec!["link", "f"])),
        ("/d/link", Node::LinkedDir(vec!["inner"])),
        ("/d/link/inner", Node::File(1, 9)),
        ("/d/f", Node::File(1, 1)),
    ]);
    let mut run = Run::new(None);
    let (outcome, steps) = run.process(&tree, "/d");
    assert_eq!(outcome, Ok(1));
    assert_eq!(steps[1], Step::NotFollowed { path: path("/d/link") });
    assert_eq!(run.handled(), vec![path("/d/f")]);
}

#[test]
fn linked_directory_is_entered_as_the_input_path() {
    let tree = Tree::new(vec![
        ("/link", Node::LinkedDir(vec!["inner", "loop"])),
        ("/link/inner", Node::File(1, 9)),
        ("/link/loop", Node::LinkedDir(vec!["inner"])),
    ]);
    let mut run = Run::new(None);
    let (outcome, steps) = run.process(&tree, "/link");
    assert_eq!(outcome, Ok(1));
    assert_eq!(
        steps,
        vec![
            Step::Entered { path: path("/link") },
            Step::Dispatched { path: path("/link/inner"), outcome: Ok(()) },
            Step::NotFollowed { path: path("/link/loop") },
        ]
    );
}

#[test]
fn advance_without_pending_path_is_idle() {
    let mut run = Run::new(None);
    let mut traversal = Traversal::begin(path("/f"));
    let identity = FileIdentity { device: 1, inode: 1 };
    let first = traversal.advance(&mut run.seen, &run.chain, &run.config, Found::Regular { identity });
    assert_eq!(first, Step::Dispatched { path: path("/f"), outcome: Ok(()) });
    assert_eq!(traversal.next_path(), None);
    let other = FileIdentity { device: 1, inode: 2 };
    let second = traversal.advance(&mut run.seen, &run.chain, &run.config, Found::Regular { identity: other });
    assert_eq!(second, Step::Idle);
    assert!(!run.seen.contains(other));
    assert_eq!(traversal.count(), 1);
    assert_eq!(traversal.finish(), Ok(1));
}

#[test]
fn begin_queues_the_input_path() {
    let traversal = Traversal::begin(path("/srv/root"));
    assert_eq!(traversal.next_path(), Some(&path("/srv/root")));
    assert_eq!(traversal.count(), 0);
    assert_eq!(traversal.finish(), Ok(0));
}

#[test]
fn count_excludes_skips_and_counts_failures() {
    let tree = Tree::new(vec![
        ("/d", Node::Dir(vec!["a", "again", "bad"])),
        ("/d/a", Node::File(1, 1)),
        ("/d/again", Node::File(1, 1)),
        ("/d/bad", Node::File(1, 2)),
    ]);
    let mut run = Run::new(Some("/d/bad"));
    let (outcome, _) = run.process(&tree, "/d");
    assert_eq!(outcome, Ok(2));
}

#[test]
fn entry_paths_are_formed_from_directory_and_name() {
    let tree = Tree::new(vec![
        ("/d/", Node::Dir(vec!["a"])),
        ("/d/a", Node::File(1, 1)),
        ("rel", Node::Dir(vec!["b"])),
        ("rel/b", Node::File(1, 2)),
        ("/", Node::Dir(vec!["c"])),
        ("/c", Node::File(1, 3)),
    ]);
    let mut run = Run::new(None);
    assert_eq!(run.process(&tree, "/d/").0, Ok(1));
    assert_eq!(run.process(&tree, "rel").0, Ok(1));
    assert_eq!(run.process(&tree, "/").0, Ok(1));
    assert_eq!(run.handled(), vec![path("/d/a"), path("rel/b"), path("/c")]);
}

#[test]
fn every_dispatched_path_lies_within_the_input_path() {
    let tree = Tree::new(vec![
        ("/srv/root", Node::Dir(vec!["usr", "..", "odd/name"])),
        ("/srv/root/usr", Node::Dir(vec!["bin"])),
        ("/srv/root/usr/bin", Node::Dir(vec!["ls"])),
        ("/srv/root/usr/bin/ls", Node::File(1, 1)),
        ("/srv/root/..", Node::File(1, 2)),
        ("/srv/root/odd/name", Node::File(1, 3)),
    ]);
    let mut run = Run::new(None);
    let (outcome, _) = run.process(&tree, "/srv/root");
    assert_eq!(outcome, Ok(3));
    for handled in run.handled() {
        assert!(contains("/srv/root", &handled), "{} escaped", handled);
    }
}
