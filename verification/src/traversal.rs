//! The traversal of one input path.
//!
//! A [`Traversal`] decides; it never looks at the file system. Its caller
//! asks it for the next path, finds out what is there, and hands that back
//! as a [`Found`]. The traversal then dispatches a file to the handlers,
//! queues the entries of a directory, or passes the path over, and says in
//! a [`Step`] which of these it did.
//!
//! Directories are walked depth first, their entries in the order in which
//! they were listed. A directory reached through a symbolic link is not
//! entered, unless it is the input path itself. The caller names the
//! entries of a directory and the traversal forms their paths, so every
//! path it asks about lies lexically within the input path: the components
//! of the input path open its components. That is a statement about the
//! text of the paths. A `..` is a component like any other and is not
//! resolved, and neither is a symbolic link on the way.

use crate::chain::{Handler, HandlerChain, HandlerFailure};
use crate::config::{texts, Config};
use crate::dedup::{FileIdentity, InodeDedupSet};
use crate::preflight::{admitted, boundary_of, restricted, Invocation};
use crate::path::{
    child, join, lemma_child_within, lemma_within_chains, lemma_within_itself, within,
};
use vstd::prelude::*;

verus! {

/// What the caller found at a path.
#[derive(Debug, PartialEq, Eq)]
pub enum Found {
    /// The path does not exist or cannot be examined.
    Inaccessible { cause: String },
    /// A regular file, or a symbolic link to one, with the identity of the
    /// file itself.
    Regular { identity: FileIdentity },
    /// A directory with the names of its immediate entries. `symlink` says
    /// whether the path itself is a symbolic link.
    Directory { symlink: bool, entries: Vec<String> },
    /// Anything else: a socket, a device, a fifo.
    Other,
}

/// A [`Found`] as the contracts speak of it.
pub ghost enum Finding {
    Inaccessible { cause: Seq<char> },
    Regular { identity: FileIdentity },
    Directory { symlink: bool, entries: Seq<Seq<char>> },
    Other,
}

impl View for Found {
    type V = Finding;

    open spec fn view(&self) -> Finding {
        match self {
            Found::Inaccessible { cause } => Finding::Inaccessible { cause: cause@ },
            Found::Regular { identity } => Finding::Regular { identity: *identity },
            Found::Directory { symlink, entries } => Finding::Directory {
                symlink: *symlink,
                entries: texts(entries@),
            },
            Found::Other => Finding::Other,
        }
    }
}

/// Why the traversal of an input path failed.
#[derive(Debug, PartialEq, Eq)]
pub enum TraversalError {
    /// The input path does not exist or cannot be examined.
    AccessError { path: String, cause: String },
}

/// A [`TraversalError`] as the contracts speak of it.
pub ghost struct AccessFailure {
    pub path: Seq<char>,
    pub cause: Seq<char>,
}

impl View for TraversalError {
    type V = AccessFailure;

    open spec fn view(&self) -> AccessFailure {
        match self {
            TraversalError::AccessError { path, cause } => AccessFailure {
                path: path@,
                cause: cause@,
            },
        }
    }
}

/// What a traversal does with the path it is given a finding for.
pub ghost enum Move {
    /// No path was pending.
    Idle,
    /// A file not visited before is handed to the handlers.
    Dispatch,
    /// A file visited before, under this or another name, is left alone.
    Skip,
    /// The entries of a directory are queued.
    Enter,
    /// A directory behind a symbolic link is not entered.
    Pass,
    /// Neither a file nor a directory: left alone.
    Ignore,
    /// An entry of a directory cannot be examined: left alone.
    Unreachable,
    /// The input path itself cannot be examined: the traversal fails.
    Fail,
}

/// Where a traversal stands.
pub ghost struct State {
    /// The paths still to be examined, the next one first.
    pub pending: Seq<Seq<char>>,
    /// The identities of the files visited so far in the run.
    pub seen: Set<FileIdentity>,
    /// How many files this traversal has handed to the handlers.
    pub dispatched: nat,
    /// True until the input path itself has been examined.
    pub at_input: bool,
    /// Set when the input path itself could not be examined.
    pub failure: Option<AccessFailure>,
}

/// The paths of the entries `names` of `directory`, in the same order.
pub open spec fn children(directory: Seq<char>, names: Seq<Seq<char>>) -> Seq<Seq<char>> {
    names.map_values(|name: Seq<char>| child(directory, name))
}

/// The state in which the traversal of the input path `path` begins, in a
/// run that has visited `seen` so far.
pub open spec fn began(seen: Set<FileIdentity>, path: Seq<char>) -> State {
    State { pending: seq![path], seen, dispatched: 0, at_input: true, failure: None }
}

/// What the traversal does on learning `finding` of its next path.
pub open spec fn move_for(state: State, finding: Finding) -> Move {
    if state.pending.len() == 0 {
        Move::Idle
    } else {
        match finding {
            Finding::Inaccessible { .. } => if state.at_input {
                Move::Fail
            } else {
                Move::Unreachable
            },
            Finding::Regular { identity } => if state.seen.contains(identity) {
                Move::Skip
            } else {
                Move::Dispatch
            },
            Finding::Directory { symlink, .. } => if symlink && !state.at_input {
                Move::Pass
            } else {
                Move::Enter
            },
            Finding::Other => Move::Ignore,
        }
    }
}

/// The state after the traversal has learnt `finding` of its next path.
///
/// The path leaves the pending list. A file not visited before enters the
/// set and is counted. The paths of the entries of a directory that is
/// entered come before everything else that is pending. An inaccessible
/// path is recorded as the failure of the traversal only when it is the
/// input path itself.
pub open spec fn after(state: State, finding: Finding) -> State {
    if state.pending.len() == 0 {
        state
    } else {
        let rest = state.pending.drop_first();
        let left = State { pending: rest, at_input: false, ..state };
        match move_for(state, finding) {
            Move::Dispatch => State {
                seen: state.seen.insert(finding->identity),
                dispatched: state.dispatched + 1,
                ..left
            },
            Move::Enter => State {
                pending: children(state.pending[0], finding->entries) + rest,
                ..left
            },
            Move::Fail => State {
                failure: Some(AccessFailure { path: state.pending[0], cause: finding->cause }),
                ..left
            },
            _ => left,
        }
    }
}

/// What the traversal comes to when it is ended in `state`: the number of
/// files handed to the handlers, unless the input path itself could not be
/// examined.
pub open spec fn result_of(state: State) -> Result<nat, AccessFailure> {
    match state.failure {
        Some(failure) => Err(failure),
        None => Ok(state.dispatched),
    }
}

/// The state after a series of findings, each learnt of the path that was
/// next at the time.
pub open spec fn feed(state: State, findings: Seq<Finding>) -> State
    decreases findings.len(),
{
    if findings.len() == 0 {
        state
    } else {
        feed(after(state, findings[0]), findings.drop_first())
    }
}

/// The paths handed to the handlers over a series of findings, in order.
pub open spec fn dispatches(state: State, findings: Seq<Finding>) -> Seq<Seq<char>>
    decreases findings.len(),
{
    if findings.len() == 0 {
        Seq::<Seq<char>>::empty()
    } else {
        let later = dispatches(after(state, findings[0]), findings.drop_first());
        if move_for(state, findings[0]) == Move::Dispatch {
            seq![state.pending[0]] + later
        } else {
            later
        }
    }
}

/// What a traversal did with a path.
#[derive(Debug, PartialEq, Eq)]
pub enum Step {
    /// No path was pending; nothing was done.
    Idle,
    /// The file was handed to the handlers; `outcome` is what came of it.
    Dispatched { path: String, outcome: Result<(), HandlerFailure> },
    /// The file was visited before, under this or another name.
    Skipped { path: String },
    /// The directory was entered: its entries come next.
    Entered { path: String },
    /// A directory behind a symbolic link, not entered.
    NotFollowed { path: String },
    /// Neither a file nor a directory.
    Ignored { path: String },
    /// An entry of a directory that could not be examined.
    Inaccessible { path: String, cause: String },
    /// The input path itself could not be examined: the traversal has
    /// failed, and ending it gives the error.
    Failed { path: String, cause: String },
}

impl Step {
    /// The kind of the step.
    pub open spec fn kind(&self) -> Move {
        match self {
            Step::Idle => Move::Idle,
            Step::Dispatched { .. } => Move::Dispatch,
            Step::Skipped { .. } => Move::Skip,
            Step::Entered { .. } => Move::Enter,
            Step::NotFollowed { .. } => Move::Pass,
            Step::Ignored { .. } => Move::Ignore,
            Step::Inaccessible { .. } => Move::Unreachable,
            Step::Failed { .. } => Move::Fail,
        }
    }

    /// The path that the step was about.
    pub open spec fn subject(&self) -> Option<Seq<char>> {
        match self {
            Step::Idle => None,
            Step::Dispatched { path, .. } => Some(path@),
            Step::Skipped { path } => Some(path@),
            Step::Entered { path } => Some(path@),
            Step::NotFollowed { path } => Some(path@),
            Step::Ignored { path } => Some(path@),
            Step::Inaccessible { path, .. } => Some(path@),
            Step::Failed { path, .. } => Some(path@),
        }
    }
}

/// A sequence back to front.
pub open spec fn flipped(items: Seq<Seq<char>>) -> Seq<Seq<char>> {
    Seq::new(items.len(), |i: int| items[items.len() - 1 - i])
}

proof fn lemma_flipped_push(items: Seq<Seq<char>>, item: Seq<char>)
    ensures
        flipped(items.push(item)) == seq![item] + flipped(items),
{
}

proof fn lemma_flipped_drop_last(items: Seq<Seq<char>>)
    requires
        items.len() > 0,
    ensures
        flipped(items)[0] == items.last(),
        flipped(items.drop_last()) == flipped(items).drop_first(),
{
}

/// The traversal of one input path: the paths still to be examined and
/// the count of files handed to the handlers so far.
pub struct Traversal {
    /// The pending paths, the next one last.
    stack: Vec<String>,
    dispatched: usize,
    at_input: bool,
    failure: Option<TraversalError>,
}

impl Traversal {
    /// The paths still to be examined, the next one first.
    pub closed spec fn pending(&self) -> Seq<Seq<char>> {
        flipped(texts(self.stack@))
    }

    /// How many files have been handed to the handlers.
    pub closed spec fn dispatched(&self) -> nat {
        self.dispatched as nat
    }

    /// True until the input path itself has been examined.
    pub closed spec fn at_input(&self) -> bool {
        self.at_input
    }

    /// Set when the input path itself could not be examined.
    pub closed spec fn failure(&self) -> Option<AccessFailure> {
        match self.failure {
            Some(error) => Some(error@),
            None => None,
        }
    }

    /// Where the traversal stands in a run that has visited `seen`.
    pub open spec fn state(&self, seen: Set<FileIdentity>) -> State {
        State {
            pending: self.pending(),
            seen,
            dispatched: self.dispatched(),
            at_input: self.at_input(),
            failure: self.failure(),
        }
    }

    /// Begins the traversal of the input path `path`.
    pub fn begin(path: String) -> (traversal: Traversal)
        ensures
            forall|seen: Set<FileIdentity>| #[trigger]
                traversal.state(seen) == began(seen, path@),
    {
        let mut stack: Vec<String> = Vec::new();
        stack.push(path);
        let traversal = Traversal { stack, dispatched: 0, at_input: true, failure: None };
        assert(traversal.pending() =~= seq![path@]);
        traversal
    }

    /// The path to examine next, or `None` when the traversal has nothing
    /// left to do.
    pub fn next_path(&self) -> (next: Option<&String>)
        ensures
            match next {
                Some(path) => self.pending().len() > 0 && path@ == self.pending()[0],
                None => self.pending().len() == 0,
            },
    {
        let len = self.stack.len();
        if len == 0 {
            None
        } else {
            Some(&self.stack[len - 1])
        }
    }

    /// How many files have been handed to the handlers so far.
    pub fn count(&self) -> (count: usize)
        ensures
            count == self.dispatched(),
    {
        self.dispatched
    }

    /// Takes what was found at the next path and acts on it.
    ///
    /// A regular file whose identity is new to `seen` is entered there,
    /// counted, and handed to `chain`; one that was visited before is
    /// skipped. A directory has its entries queued before everything that
    /// was pending, unless it was reached through a symbolic link and is
    /// not the input path. An inaccessible input path fails the traversal;
    /// an inaccessible entry is reported in the step and otherwise passed
    /// over. Whatever the handlers answer, the state moves on in the same
    /// way: a failing handler is reported in the step and holds up nothing
    /// that is still pending.
    ///
    /// The count must have room for one more file.
    pub fn advance<H: Handler>(
        &mut self,
        seen: &mut InodeDedupSet,
        chain: &HandlerChain<H>,
        config: &Config,
        found: Found,
    ) -> (step: Step)
        requires
            old(self).dispatched() < usize::MAX,
        ensures
            final(self).state(final(seen)@) == after(old(self).state(old(seen)@), found@),
            step.kind() == move_for(old(self).state(old(seen)@), found@),
            step.subject() matches Some(path) ==> path == old(self).pending()[0],
            step matches Step::Inaccessible { cause, .. } ==> found@ == (Finding::Inaccessible {
                cause: cause@,
            }),
            step matches Step::Failed { cause, .. } ==> found@ == (Finding::Inaccessible {
                cause: cause@,
            }),
            step matches Step::Dispatched { path, outcome } ==> chain.may_end(
                path@,
                config,
                outcome,
            ),
            step matches Step::Dispatched { outcome: Err(failure), .. } ==> failure.stage
                < chain.size(),
            step matches Step::Dispatched { outcome, .. } ==> (chain.size() == 0 ==> outcome
                is Ok),
    {
        let ghost before = self.state(seen@);
        let ghost old_stack = texts(self.stack@);
        let path = match self.stack.pop() {
            Some(path) => path,
            None => {
                return Step::Idle;
            },
        };
        proof {
            lemma_flipped_drop_last(old_stack);
            assert(texts(self.stack@) =~= old_stack.drop_last());
        }
        let was_input = self.at_input;
        self.at_input = false;
        match found {
            Found::Inaccessible { cause } => {
                if was_input {
                    self.failure = Some(
                        TraversalError::AccessError { path: path.clone(), cause: cause.clone() },
                    );
                    Step::Failed { path, cause }
                } else {
                    Step::Inaccessible { path, cause }
                }
            },
            Found::Regular { identity } => {
                if seen.insert(identity) {
                    self.dispatched = self.dispatched + 1;
                    let outcome = chain.run(path.as_str(), config);
                    Step::Dispatched { path, outcome }
                } else {
                    assert(seen@ =~= old(seen)@);
                    Step::Skipped { path }
                }
            },
            Found::Directory { symlink, entries } => {
                if symlink && !was_input {
                    Step::NotFollowed { path }
                } else {
                    let ghost listed = children(path@, texts(entries@));
                    let ghost rest = self.pending();
                    let mut entries = entries;
                    while entries.len() > 0
                        invariant
                            entries@.len() <= listed.len(),
                            children(path@, texts(entries@)) == listed.take(
                                entries@.len() as int,
                            ),
                            self.pending() == listed.skip(entries@.len() as int) + rest,
                            self.dispatched == before.dispatched,
                            self.at_input == false,
                            self.failure() == before.failure,
                        decreases entries.len(),
                    {
                        let ghost remaining = entries@;
                        let ghost stacked = texts(self.stack@);
                        let name = entries.pop().unwrap();
                        let entry = join(path.as_str(), name.as_str());
                        self.stack.push(entry);
                        proof {
                            let m = remaining.len() as int;
                            assert(listed.take(m)[m - 1] == listed[m - 1]);
                            lemma_flipped_push(stacked, entry@);
                            assert(seq![entry@] + (listed.skip(m) + rest) =~= listed.skip(m - 1)
                                + rest);
                        }
                    }
                    assert(listed.skip(0) =~= listed);
                    Step::Entered { path }
                }
            },
            Found::Other => Step::Ignored { path },
        }
    }

    /// Ends the traversal: the number of files handed to the handlers, or
    /// the failure of the input path.
    pub fn finish(self) -> (outcome: Result<usize, TraversalError>)
        ensures
            forall|seen: Set<FileIdentity>|
                match outcome {
                    Ok(count) => #[trigger] result_of(self.state(seen)) == Ok::<
                        nat,
                        AccessFailure,
                    >(count as nat),
                    Err(error) => #[trigger] result_of(self.state(seen)) == Err::<
                        nat,
                        AccessFailure,
                    >(error@),
                },
    {
        match self.failure {
            Some(error) => Err(error),
            None => Ok(self.dispatched),
        }
    }
}

/// The findings of regular files with the identities given, one after
/// another.
pub open spec fn regular_files(identities: Seq<FileIdentity>) -> Seq<Finding> {
    identities.map_values(|identity: FileIdentity| Finding::Regular { identity })
}

/// Two input paths that are hard links of one file, traversed one after
/// the other in a run that starts with nothing visited: the first is
/// handed to the handlers and the second is skipped, so that the handlers
/// see the file exactly once and the counts of the two traversals add up
/// to one.
pub proof fn law_hard_links_are_dispatched_once(
    first: Seq<char>,
    second: Seq<char>,
    identity: FileIdentity,
)
    ensures
        ({
            let file = Finding::Regular { identity };
            let one = began(Set::<FileIdentity>::empty(), first);
            let two = began(after(one, file).seen, second);
            &&& move_for(one, file) == Move::Dispatch
            &&& move_for(two, file) == Move::Skip
            &&& dispatches(one, seq![file]) == seq![first]
            &&& dispatches(two, seq![file]) == Seq::<Seq<char>>::empty()
            &&& result_of(after(one, file)) == Ok::<nat, AccessFailure>(1)
            &&& result_of(after(two, file)) == Ok::<nat, AccessFailure>(0)
            &&& after(one, file).pending.len() == 0
            &&& after(two, file).pending.len() == 0
        }),
{
    let file = Finding::Regular { identity };
    let one = began(Set::<FileIdentity>::empty(), first);
    let two = began(after(one, file).seen, second);
    let none = Seq::<Finding>::empty();
    assert(seq![file].drop_first() == none);
    assert(dispatches(after(one, file), none) == Seq::<Seq<char>>::empty());
    assert(dispatches(after(two, file), none) == Seq::<Seq<char>>::empty());
}

/// Regular files that are next in a traversal, each with an identity of
/// its own that the run has not visited: every one of them is handed to
/// the handlers, in order.
proof fn lemma_distinct_files(state: State, identities: Seq<FileIdentity>)
    requires
        state.pending.len() == identities.len(),
        !state.at_input,
        identities.no_duplicates(),
        forall|i: int| 0 <= i < identities.len() ==> !state.seen.contains(identities[i]),
    ensures
        feed(state, regular_files(identities)).pending.len() == 0,
        feed(state, regular_files(identities)).dispatched == state.dispatched + identities.len(),
        feed(state, regular_files(identities)).seen == state.seen.union(identities.to_set()),
        feed(state, regular_files(identities)).failure == state.failure,
        dispatches(state, regular_files(identities)) == state.pending,
    decreases identities.len(),
{
    let findings = regular_files(identities);
    if identities.len() > 0 {
        let next = after(state, findings[0]);
        let later = identities.drop_first();
        assert(findings.drop_first() == regular_files(later));
        lemma_distinct_files(next, later);
        assert(next.seen.union(later.to_set()) =~= state.seen.union(identities.to_set())) by {
            assert forall|identity: FileIdentity|
                identities.to_set().contains(identity) <==> identity == identities[0]
                    || later.to_set().contains(identity) by {
                if identities.to_set().contains(identity) {
                    let i = choose|i: int| 0 <= i < identities.len() && identities[i] == identity;
                    if i > 0 {
                        assert(later[i - 1] == identity);
                    }
                }
            }
        }
    }
}

/// An input directory that holds `entries.len()` regular files and nothing
/// else, no two of them hard links of one file and none visited earlier in
/// the run: the traversal hands exactly that many files to the handlers,
/// namely the paths of the entries in the order listed, and then has
/// nothing left to do.
pub proof fn law_directory_of_distinct_files(
    seen: Set<FileIdentity>,
    directory: Seq<char>,
    symlink: bool,
    entries: Seq<Seq<char>>,
    identities: Seq<FileIdentity>,
)
    requires
        identities.len() == entries.len(),
        identities.no_duplicates(),
        forall|i: int| 0 <= i < identities.len() ==> !seen.contains(identities[i]),
    ensures
        ({
            let findings = seq![Finding::Directory { symlink, entries }] + regular_files(
                identities,
            );
            let end = feed(began(seen, directory), findings);
            &&& dispatches(began(seen, directory), findings) == children(directory, entries)
            &&& dispatches(began(seen, directory), findings).len() == entries.len()
            &&& result_of(end) == Ok::<nat, AccessFailure>(entries.len())
            &&& end.pending.len() == 0
            &&& end.seen == seen.union(identities.to_set())
        }),
{
    let listing = Finding::Directory { symlink, entries };
    let findings = seq![listing] + regular_files(identities);
    let start = began(seen, directory);
    let inside = after(start, listing);
    assert(findings.drop_first() == regular_files(identities));
    lemma_distinct_files(inside, identities);
}

/// An input path that cannot be examined fails its traversal with that
/// path and cause, hands nothing to the handlers, and leaves the set of
/// visited files as it was: every later traversal in the run goes as if
/// this one had not taken place.
pub proof fn law_inaccessible_input_fails_alone(
    seen: Set<FileIdentity>,
    path: Seq<char>,
    cause: Seq<char>,
    other: Seq<char>,
    findings: Seq<Finding>,
)
    ensures
        ({
            let missing = Finding::Inaccessible { cause };
            let end = after(began(seen, path), missing);
            &&& move_for(began(seen, path), missing) == Move::Fail
            &&& result_of(end) == Err::<nat, AccessFailure>(AccessFailure { path, cause })
            &&& end.pending.len() == 0
            &&& end.seen == seen
            &&& feed(began(end.seen, other), findings) == feed(began(seen, other), findings)
            &&& dispatches(began(end.seen, other), findings) == dispatches(
                began(seen, other),
                findings,
            )
        }),
{
}

/// A file that is handed to the handlers leaves everything after it
/// pending, whatever the handlers make of it: the state after the file
/// does not depend on their answer, so a failure on one file holds up
/// neither its siblings nor the directories that follow.
pub proof fn law_dispatch_keeps_the_rest_pending(state: State, identity: FileIdentity)
    requires
        state.pending.len() > 0,
        !state.seen.contains(identity),
    ensures
        move_for(state, Finding::Regular { identity }) == Move::Dispatch,
        after(state, Finding::Regular { identity }).pending == state.pending.drop_first(),
        after(state, Finding::Regular { identity }).failure == state.failure,
{
}

/// The count of a traversal is the number of files that it handed to the
/// handlers: over any series of findings the count grows by one for each
/// path dispatched, and by nothing else.
pub proof fn law_count_is_number_of_dispatches(state: State, findings: Seq<Finding>)
    ensures
        feed(state, findings).dispatched == state.dispatched + dispatches(state, findings).len(),
    decreases findings.len(),
{
    if findings.len() > 0 {
        law_count_is_number_of_dispatches(after(state, findings[0]), findings.drop_first());
    }
}

/// Every path that is pending lies lexically within `root`.
pub open spec fn confined(state: State, root: Seq<char>) -> bool {
    forall|i: int| 0 <= i < state.pending.len() ==> within(root, #[trigger] state.pending[i])
}

/// A traversal whose pending paths lie lexically within `root` keeps them
/// there, whatever it is told of its next path: the paths that it forms
/// for the entries of a directory lie lexically within that directory.
pub proof fn law_step_stays_within(state: State, root: Seq<char>, finding: Finding)
    requires
        confined(state, root),
    ensures
        confined(after(state, finding), root),
{
    let next = after(state, finding);
    if state.pending.len() > 0 {
        assert forall|i: int| 0 <= i < next.pending.len() implies within(
            root,
            #[trigger] next.pending[i],
        ) by {
            if move_for(state, finding) == Move::Enter && i < finding->entries.len() {
                lemma_child_within(state.pending[0], finding->entries[i]);
                lemma_within_chains(root, state.pending[0], next.pending[i]);
            }
        }
    }
}

proof fn lemma_feed_stays_within(state: State, root: Seq<char>, findings: Seq<Finding>)
    requires
        confined(state, root),
    ensures
        confined(feed(state, findings), root),
        forall|i: int|
            0 <= i < dispatches(state, findings).len() ==> within(
                root,
                #[trigger] dispatches(state, findings)[i],
            ),
    decreases findings.len(),
{
    if findings.len() > 0 {
        let next = after(state, findings[0]);
        law_step_stays_within(state, root, findings[0]);
        lemma_feed_stays_within(next, root, findings.drop_first());
        let handed = dispatches(state, findings);
        let later = dispatches(next, findings.drop_first());
        assert forall|i: int| 0 <= i < handed.len() implies within(root, #[trigger] handed[i]) by {
            if move_for(state, findings[0]) == Move::Dispatch {
                if i == 0 {
                    assert(handed[0] == state.pending[0]);
                } else {
                    assert(handed[i] == later[i - 1]);
                }
            }
        }
    }
}

/// The traversal of an input path never leaves it lexically: whatever is
/// found on the way, every path that is still pending and every path that
/// was handed to the handlers has the components of the input path as the
/// first of its own. Neither `..` nor a symbolic link is resolved, so this
/// says nothing of where such a path leads in the file system.
pub proof fn law_traversal_stays_within(
    seen: Set<FileIdentity>,
    input: Seq<char>,
    findings: Seq<Finding>,
)
    ensures
        confined(feed(began(seen, input), findings), input),
        forall|i: int|
            0 <= i < dispatches(began(seen, input), findings).len() ==> within(
                input,
                #[trigger] dispatches(began(seen, input), findings)[i],
            ),
{
    lemma_within_itself(input);
    lemma_feed_stays_within(began(seen, input), input, findings);
}

/// The traversal of an input path that lies lexically within `boundary`
/// hands nothing to the handlers that does not lie lexically within
/// `boundary`.
pub proof fn law_traversal_stays_within_boundary(
    boundary: Seq<char>,
    seen: Set<FileIdentity>,
    input: Seq<char>,
    findings: Seq<Finding>,
)
    requires
        within(boundary, input),
    ensures
        confined(feed(began(seen, input), findings), boundary),
        forall|i: int|
            0 <= i < dispatches(began(seen, input), findings).len() ==> within(
                boundary,
                #[trigger] dispatches(began(seen, input), findings)[i],
            ),
{
    law_traversal_stays_within(seen, input, findings);
    let end = feed(began(seen, input), findings);
    let handed = dispatches(began(seen, input), findings);
    assert forall|i: int| 0 <= i < end.pending.len() implies within(
        boundary,
        #[trigger] end.pending[i],
    ) by {
        lemma_within_chains(boundary, input, end.pending[i]);
    }
    assert forall|i: int| 0 <= i < handed.len() implies within(boundary, #[trigger] handed[i]) by {
        lemma_within_chains(boundary, input, handed[i]);
    }
}

/// In a run that the pre-flight check admits in restricted mode, every
/// path handed to the handlers lies lexically within the build root,
/// whichever input path is traversed and whatever is found on the way: the
/// components of the canonical build root are the first components of the
/// path. A `..` in an input path or in the name of an entry is not
/// resolved, and neither is a symbolic link, so a path such as
/// `/srv/root/../../etc/passwd` lies lexically within `/srv/root` and
/// leads outside it.
pub proof fn law_admitted_run_stays_in_build_root(
    config: &Config,
    invocation: &Invocation,
    which: int,
    seen: Set<FileIdentity>,
    findings: Seq<Finding>,
)
    requires
        restricted(config.brp, invocation.name@),
        admitted(config, invocation),
        0 <= which < config.paths().len(),
    ensures
        boundary_of(&invocation.build_root) is Ok,
        forall|i: int|
            0 <= i < dispatches(began(seen, config.paths()[which]), findings).len() ==> within(
                boundary_of(&invocation.build_root)->Ok_0,
                #[trigger] dispatches(began(seen, config.paths()[which]), findings)[i],
            ),
{
    let boundary = boundary_of(&invocation.build_root)->Ok_0;
    let input = config.paths()[which];
    law_traversal_stays_within_boundary(boundary, seen, input, findings);
}

} // verus!
