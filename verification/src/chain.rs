//! The chain of handlers that every visited file is handed to.

use crate::config::Config;
use vstd::prelude::*;

verus! {

/// What a handler answers, as the contracts speak of it: success, or the
/// reason of a failure.
pub open spec fn answer_view(answer: Result<(), String>) -> Result<(), Seq<char>> {
    match answer {
        Ok(()) => Ok(()),
        Err(cause) => Err(cause@),
    }
}

/// A file-processing policy. What a handler does to a file is its own
/// affair; the chain only learns whether it succeeded.
pub trait Handler {
    /// Whether the handler may give `answer` for the file at `path` in a run
    /// with the configuration `config`. A handler says here as much of
    /// itself as it wants known. Unless it says otherwise, every answer
    /// may come.
    open spec fn may_answer(
        &self,
        path: Seq<char>,
        config: &Config,
        answer: Result<(), Seq<char>>,
    ) -> bool {
        true
    }

    /// Processes the file at `path`, or says why it could not.
    fn handle(&self, path: &str, config: &Config) -> (answer: Result<(), String>)
        ensures
            self.may_answer(path@, config, answer_view(answer)),
    ;
}

/// The failure of one handler on one file.
#[derive(Debug, PartialEq, Eq)]
pub struct HandlerFailure {
    /// The position of the failing handler in the chain.
    pub stage: usize,
    /// What the handler gave as its reason.
    pub cause: String,
}

/// What the answer of the handler at `stage` means for the file: success
/// lets the chain go on, a failure ends it with that handler's reason.
pub fn settle(stage: usize, answer: Result<(), String>) -> (settled: Result<(), HandlerFailure>)
    ensures
        match answer {
            Ok(()) => settled is Ok,
            Err(cause) => settled matches Err(failure) && failure.stage == stage && failure.cause
                == cause,
        },
{
    match answer {
        Ok(()) => Ok(()),
        Err(cause) => Err(HandlerFailure { stage, cause }),
    }
}

/// The handlers of a run, in the order in which they are applied.
pub struct HandlerChain<H: Handler> {
    handlers: Vec<H>,
}

impl<H: Handler> HandlerChain<H> {
    /// The handlers in the order in which they are applied.
    pub closed spec fn handlers(&self) -> Seq<H> {
        self.handlers@
    }

    /// The number of handlers in the chain.
    pub open spec fn size(&self) -> nat {
        self.handlers().len()
    }

    /// The first `count` handlers of the chain may all answer with success
    /// for the file at `path`.
    pub open spec fn passes(&self, count: int, path: Seq<char>, config: &Config) -> bool {
        forall|i: int|
            0 <= i < count ==> (#[trigger] self.handlers()[i]).may_answer(
                path,
                config,
                Ok::<(), Seq<char>>(()),
            )
    }

    /// What the chain may come to for the file at `path`: success when
    /// every handler, in order, may answer with success; the failure of
    /// the handler at `stage` when every handler before it may answer with
    /// success and that handler may fail with that cause.
    pub open spec fn may_end(
        &self,
        path: Seq<char>,
        config: &Config,
        outcome: Result<(), HandlerFailure>,
    ) -> bool {
        match outcome {
            Ok(()) => self.passes(self.size() as int, path, config),
            Err(failure) => {
                &&& failure.stage < self.size()
                &&& self.passes(failure.stage as int, path, config)
                &&& self.handlers()[failure.stage as int].may_answer(
                    path,
                    config,
                    Err::<(), Seq<char>>(failure.cause@),
                )
            },
        }
    }

    /// A chain of the handlers given, in the order given.
    pub fn new(handlers: Vec<H>) -> (chain: HandlerChain<H>)
        ensures
            chain.handlers() == handlers@,
    {
        HandlerChain { handlers }
    }

    /// The number of handlers in the chain.
    pub fn len(&self) -> (count: usize)
        ensures
            count == self.size(),
    {
        self.handlers.len()
    }

    /// Applies the handlers to the file at `path` in their order. The first
    /// failure ends the chain for this file: the handlers after it are not
    /// applied, and the failure names the handler that stopped it and
    /// carries its reason. The chain succeeds only when every handler was
    /// applied and answered with success; an empty chain always succeeds.
    pub fn run(&self, path: &str, config: &Config) -> (outcome: Result<(), HandlerFailure>)
        ensures
            self.may_end(path@, config, outcome),
            self.size() == 0 ==> outcome is Ok,
            outcome matches Err(failure) ==> failure.stage < self.size(),
    {
        let mut stage: usize = 0;
        while stage < self.handlers.len()
            invariant
                stage <= self.handlers.len(),
                self.passes(stage as int, path@, config),
            decreases self.handlers.len() - stage,
        {
            let answer = self.handlers[stage].handle(path, config);
            match settle(stage, answer) {
                Ok(()) => {},
                Err(failure) => {
                    return Err(failure);
                },
            }
            stage += 1;
        }
        Ok(())
    }
}

} // verus!
