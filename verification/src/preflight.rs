//! The pre-flight check of restricted mode: every input path must lie
//! lexically within the build root, or the run is refused before any file
//! is touched. The build root is taken in its canonical form; the input
//! paths are taken as they are written, so a `..` or a symbolic link inside
//! an input path is not resolved.
//!
//! Nothing is read here. Whoever calls [`check`] gathers what the process
//! was started with into an [`Invocation`] and hands that over.

use crate::config::{texts, Config};
use crate::path::{begins_with, contains, file_name, is_root, last_name, names_root, within};
use vstd::prelude::*;

verus! {

/// Why a run is refused.
#[derive(Debug, PartialEq, Eq)]
pub enum ContainmentError {
    /// Restricted mode, and the build-root variable is not set.
    MissingBuildRoot,
    /// Restricted mode, and the build root is the empty text.
    EmptyBuildRoot,
    /// The build root could not be resolved to a canonical path.
    UnresolvableBuildRoot { cause: String },
    /// The build root resolves to the root of the file system.
    BuildRootIsFilesystemRoot,
    /// An input path does not lie within the build root.
    PathOutsideBuildRoot { path: String },
}

/// A refusal, as the contracts speak of it.
pub ghost enum Refusal {
    MissingBuildRoot,
    EmptyBuildRoot,
    UnresolvableBuildRoot { cause: Seq<char> },
    BuildRootIsFilesystemRoot,
    PathOutsideBuildRoot { path: Seq<char> },
}

impl View for ContainmentError {
    type V = Refusal;

    open spec fn view(&self) -> Refusal {
        match self {
            ContainmentError::MissingBuildRoot => Refusal::MissingBuildRoot,
            ContainmentError::EmptyBuildRoot => Refusal::EmptyBuildRoot,
            ContainmentError::UnresolvableBuildRoot { cause } => Refusal::UnresolvableBuildRoot {
                cause: cause@,
            },
            ContainmentError::BuildRootIsFilesystemRoot => Refusal::BuildRootIsFilesystemRoot,
            ContainmentError::PathOutsideBuildRoot { path } => Refusal::PathOutsideBuildRoot {
                path: path@,
            },
        }
    }
}

/// What became of resolving the build root to a canonical, absolute path.
#[derive(Debug, PartialEq, Eq)]
pub enum Resolution {
    Resolved { canonical: String },
    Failed { cause: String },
}

/// The build-root variable as the process found it.
#[derive(Debug, PartialEq, Eq)]
pub enum BuildRoot {
    /// The variable is not set.
    Unset,
    /// The variable is set to `value`, and resolving `value` gave `resolution`.
    Given { value: String, resolution: Resolution },
}

/// How the program was started, as far as the check depends on it.
#[derive(Debug, PartialEq, Eq)]
pub struct Invocation {
    /// The name the program was invoked by, as given, not resolved.
    pub name: String,
    /// The build-root variable.
    pub build_root: BuildRoot,
}

/// The prefix of a file name that marks an invocation as restricted.
pub open spec fn restricted_prefix() -> Seq<char> {
    seq!['b', 'r', 'p', '-']
}

/// Whether restricted mode is active: when the flag forces it, or when the
/// final component of the invocation name begins with the prefix. A name
/// without a final component, such as `/` or `..`, marks nothing.
pub open spec fn restricted(flag: bool, name: Seq<char>) -> bool {
    flag || (last_name(name) matches Some(base) && restricted_prefix().is_prefix_of(base))
}

/// The boundary that a build root gives, or why it gives none.
pub open spec fn boundary_of(root: &BuildRoot) -> Result<Seq<char>, Refusal> {
    match root {
        BuildRoot::Unset => Err(Refusal::MissingBuildRoot),
        BuildRoot::Given { value, resolution } => {
            if value@.len() == 0 {
                Err(Refusal::EmptyBuildRoot)
            } else {
                match resolution {
                    Resolution::Failed { cause } => Err(
                        Refusal::UnresolvableBuildRoot { cause: cause@ },
                    ),
                    Resolution::Resolved { canonical } => {
                        if canonical@.len() == 0 {
                            Err(Refusal::EmptyBuildRoot)
                        } else if is_root(canonical@) {
                            Err(Refusal::BuildRootIsFilesystemRoot)
                        } else {
                            Ok(canonical@)
                        }
                    },
                }
            }
        },
    }
}

/// Every path lies within the boundary.
pub open spec fn all_within(boundary: Seq<char>, paths: Seq<Seq<char>>) -> bool {
    forall|i: int| 0 <= i < paths.len() ==> within(boundary, #[trigger] paths[i])
}

/// `paths[i]` lies outside the boundary, and no earlier path does.
pub open spec fn first_outside(boundary: Seq<char>, paths: Seq<Seq<char>>, i: int) -> bool {
    &&& 0 <= i < paths.len()
    &&& !within(boundary, paths[i])
    &&& forall|j: int| 0 <= j < i ==> within(boundary, #[trigger] paths[j])
}

/// The run may go ahead.
pub open spec fn admitted(config: &Config, invocation: &Invocation) -> bool {
    if restricted(config.brp, invocation.name@) {
        match boundary_of(&invocation.build_root) {
            Err(_) => false,
            Ok(boundary) => all_within(boundary, config.paths()),
        }
    } else {
        true
    }
}

/// The run is refused, and `refusal` is the reason that comes first.
pub open spec fn refused(config: &Config, invocation: &Invocation, refusal: Refusal) -> bool {
    restricted(config.brp, invocation.name@) && match boundary_of(&invocation.build_root) {
        Err(reason) => refusal == reason,
        Ok(boundary) => exists|i: int|
            #[trigger] first_outside(boundary, config.paths(), i) && refusal
                == (Refusal::PathOutsideBuildRoot { path: config.paths()[i] }),
    }
}

/// The canonical build root, known to be neither empty nor the root of the
/// file system.
pub struct Boundary {
    root: String,
}

impl Boundary {
    #[verifier::type_invariant]
    spec fn well_formed(&self) -> bool {
        self.root@.len() > 0 && !is_root(self.root@)
    }

    /// The canonical path of the build root.
    pub closed spec fn text(&self) -> Seq<char> {
        self.root@
    }

    /// The canonical path of the build root: never empty, and never the
    /// root of the file system.
    pub fn as_str(&self) -> (root: &str)
        ensures
            root@ == self.text(),
            root@.len() > 0,
            !is_root(root@),
    {
        proof {
            use_type_invariant(self);
        }
        self.root.as_str()
    }

    /// Derives the boundary from the build-root variable.
    pub fn resolve(root: &BuildRoot) -> (outcome: Result<Boundary, ContainmentError>)
        ensures
            match outcome {
                Ok(boundary) => boundary_of(root) == Ok::<Seq<char>, Refusal>(boundary.text()),
                Err(error) => boundary_of(root) == Err::<Seq<char>, Refusal>(error@),
            },
    {
        match root {
            BuildRoot::Unset => Err(ContainmentError::MissingBuildRoot),
            BuildRoot::Given { value, resolution } => {
                if value.as_str().is_empty() {
                    return Err(ContainmentError::EmptyBuildRoot);
                }
                match resolution {
                    Resolution::Failed { cause } => Err(
                        ContainmentError::UnresolvableBuildRoot { cause: cause.clone() },
                    ),
                    Resolution::Resolved { canonical } => {
                        if canonical.as_str().is_empty() {
                            Err(ContainmentError::EmptyBuildRoot)
                        } else if names_root(canonical.as_str()) {
                            Err(ContainmentError::BuildRootIsFilesystemRoot)
                        } else {
                            Ok(Boundary { root: canonical.clone() })
                        }
                    },
                }
            },
        }
    }

    /// Whether `path` is the boundary or lies below it.
    pub fn admits(&self, path: &str) -> (inside: bool)
        ensures
            inside == within(self.text(), path@),
    {
        contains(self.root.as_str(), path)
    }

    /// Tests the paths in order and names the first that lies outside.
    pub fn admit_all(&self, paths: &Vec<String>) -> (outcome: Result<(), ContainmentError>)
        ensures
            match outcome {
                Ok(()) => all_within(self.text(), texts(paths@)),
                Err(error) => exists|i: int|
                    #[trigger] first_outside(self.text(), texts(paths@), i) && error@
                        == (Refusal::PathOutsideBuildRoot { path: texts(paths@)[i] }),
            },
    {
        let ghost all = texts(paths@);
        let mut i: usize = 0;
        while i < paths.len()
            invariant
                i <= paths.len(),
                all == texts(paths@),
                forall|j: int| 0 <= j < i ==> within(self.text(), #[trigger] all[j]),
            decreases paths.len() - i,
        {
            if !self.admits(paths[i].as_str()) {
                let error = ContainmentError::PathOutsideBuildRoot { path: paths[i].clone() };
                assert(first_outside(self.text(), all, i as int));
                return Err(error);
            }
            i += 1;
        }
        Ok(())
    }
}

/// Decides from the flag and the invocation name whether restricted mode
/// is active.
pub fn restricted_mode(config: &Config, name: &str) -> (active: bool)
    ensures
        active == restricted(config.brp, name@),
{
    if config.brp {
        return true;
    }
    match file_name(name) {
        Some(base) => {
            let prefix: Vec<char> = vec!['b', 'r', 'p', '-'];
            begins_with(&base, &prefix)
        },
        None => false,
    }
}

/// The pre-flight check of a run.
///
/// Outside restricted mode every run is admitted, whatever the build root
/// and the input paths are. In restricted mode the build root must be set,
/// non-empty, resolvable and not the root of the file system, and every
/// input path must lie within it; the first requirement that fails, in that
/// order, gives the error.
pub fn check(config: &Config, invocation: &Invocation) -> (outcome: Result<(), ContainmentError>)
    ensures
        outcome is Ok <==> admitted(config, invocation),
        outcome matches Err(error) ==> refused(config, invocation, error@),
        !restricted(config.brp, invocation.name@) ==> outcome is Ok,
        restricted(config.brp, invocation.name@) && invocation.build_root is Unset
            ==> outcome matches Err(ContainmentError::MissingBuildRoot),
        restricted(config.brp, invocation.name@) && (invocation.build_root matches BuildRoot::Given {
            value,
            ..
        } && value@.len() == 0) ==> outcome matches Err(ContainmentError::EmptyBuildRoot),
{
    if !restricted_mode(config, invocation.name.as_str()) {
        return Ok(());
    }
    let boundary = match Boundary::resolve(&invocation.build_root) {
        Ok(boundary) => boundary,
        Err(error) => {
            return Err(error);
        },
    };
    boundary.admit_all(&config.args)
}

} // verus!
