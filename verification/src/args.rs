//! The command line: flags, the `repo` command, and the two paths.

use crate::errors::{Errors, ErrorsView};
use crate::linker::{Config, DestState};
use crate::paths::{join, joined};
use crate::text::{is_among, views};
use std::collections::VecDeque;
use vstd::prelude::*;
use vstd::string::*;

verus! {

/// The views of a sequence of string slices.
pub open spec fn slice_views(names: Seq<&str>) -> Seq<Seq<char>> {
    Seq::new(names.len(), |i: int| names[i]@)
}

/// `args` without the elements that are among `names`, in the same order.
pub open spec fn without(args: Seq<Seq<char>>, names: Seq<Seq<char>>) -> Seq<Seq<char>> {
    args.filter(|arg: Seq<char>| !names.contains(arg))
}

/// Whether one of `args` is among `names`.
pub open spec fn mentions(args: Seq<Seq<char>>, names: Seq<Seq<char>>) -> bool {
    exists|i: int| 0 <= i < args.len() && names.contains(#[trigger] args[i])
}

/// The names as strings of their own.
fn owned_names(names: &Vec<&str>) -> (owned: Vec<String>)
    ensures
        views(owned@) == slice_views(names@),
{
    let mut owned: Vec<String> = Vec::new();
    let mut j: usize = 0;
    while j < names.len()
        invariant
            0 <= j <= names.len(),
            owned.len() == j,
            forall|k: int| 0 <= k < j ==> (#[trigger] owned@[k])@ == names@[k]@,
        decreases names.len() - j,
    {
        owned.push(String::from_str(names[j]));
        j += 1;
    }
    assert(views(owned@) =~= slice_views(names@));
    owned
}

/// Takes every argument that is one of `names` out of `args`, and says
/// whether there was any.
pub fn verify_argument(args: &mut VecDeque<String>, names: Vec<&str>) -> (found: bool)
    ensures
        views(final(args)@) == without(views(old(args)@), slice_views(names@)),
        found == mentions(views(old(args)@), slice_views(names@)),
{
    let owned = owned_names(&names);
    let ghost wanted = slice_views(names@);
    let ghost all = views(args@);
    let ghost keep = |arg: Seq<char>| !wanted.contains(arg);
    let mut found = false;
    let mut i: usize = 0;
    assert(all.take(0) =~= Seq::empty());
    assert(views(args@).skip(0) =~= all);
    while i < args.len()
        invariant
            0 <= i <= args.len(),
            views(owned@) == wanted,
            wanted == slice_views(names@),
            keep == |arg: Seq<char>| !wanted.contains(arg),
            all == views(old(args)@),
            args@.len() <= all.len(),
            views(args@).take(i as int) == all.take(all.len() - args@.len() + i).filter(keep),
            views(args@).skip(i as int) == all.skip(all.len() - args@.len() + i),
            found == mentions(all.take(all.len() - args@.len() + i), wanted),
        decreases args.len() - i,
    {
        let ghost done = all.len() - args@.len() + i;
        let ghost kept = views(args@).take(i as int);
        let ghost rest = views(args@).skip(i as int);
        assert(rest[0] == all[done]);
        assert(all.take(done + 1).drop_last() =~= all.take(done));
        assert(all.take(done + 1).last() == all[done]);
        proof {
            reveal(Seq::filter);
        }
        if is_among(&args[i], &owned) {
            assert(mentions(all.take(done + 1), wanted)) by {
                assert(wanted.contains(all.take(done + 1)[done]));
            }
            args.remove(i);
            found = true;
            assert(views(args@).take(i as int) =~= kept);
            assert(views(args@).skip(i as int) =~= rest.skip(1));
            assert(rest.skip(1) =~= all.skip(done + 1));
        } else {
            assert(mentions(all.take(done + 1), wanted) == mentions(all.take(done), wanted)) by {
                if mentions(all.take(done + 1), wanted) {
                    let k = choose|k: int|
                        0 <= k < done + 1 && wanted.contains(#[trigger] all.take(done + 1)[k]);
                    assert(all.take(done)[k] == all.take(done + 1)[k]);
                }
                if mentions(all.take(done), wanted) {
                    let k = choose|k: int|
                        0 <= k < done && wanted.contains(#[trigger] all.take(done)[k]);
                    assert(all.take(done)[k] == all.take(done + 1)[k]);
                }
            }
            i += 1;
            assert(views(args@).take(i as int) =~= kept.push(all[done]));
            assert(views(args@).skip(i as int) =~= rest.skip(1));
            assert(rest.skip(1) =~= all.skip(done + 1));
        }
    }
    assert(all.take(all.len() as int) =~= all);
    assert(views(args@).take(i as int) =~= views(args@));
    found
}

/// Whether one of `args` is among `names`.
fn mentions_any(args: &VecDeque<String>, names: Vec<&str>) -> (found: bool)
    ensures
        found == mentions(views(args@), slice_views(names@)),
{
    let owned = owned_names(&names);
    let mut i: usize = 0;
    while i < args.len()
        invariant
            0 <= i <= args.len(),
            views(owned@) == slice_views(names@),
            forall|k: int|
                0 <= k < i ==> !slice_views(names@).contains(#[trigger] views(args@)[k]),
        decreases args.len() - i,
    {
        if is_among(&args[i], &owned) {
            assert(slice_views(names@).contains(views(args@)[i as int]));
            return true;
        }
        i += 1;
    }
    false
}

/// What a run is asked to do, once the flags are taken out of the command
/// line and the paths are told apart.
#[derive(PartialEq, Eq, Debug)]
pub struct Request {
    pub config: Config,
    /// The repository to clone into `path` first, where the `repo` command
    /// was given.
    pub repository: Option<String>,
    /// The root of the source tree.
    pub path: String,
    /// Whether `path` came from the command line; else it is `.dotfiles`
    /// in the home directory.
    pub path_given: bool,
    /// The directory to mirror the tree into.
    pub destination: String,
    /// Whether `destination` came from the command line; else it is the
    /// home directory.
    pub destination_given: bool,
    /// Whether the command line held more than a run can take.
    pub surplus: bool,
}

/// A `Request` with its strings as sequences of characters.
pub struct RequestView {
    pub config: Config,
    pub repository: Option<Seq<char>>,
    pub path: Seq<char>,
    pub path_given: bool,
    pub destination: Seq<char>,
    pub destination_given: bool,
    pub surplus: bool,
}

impl View for Request {
    type V = RequestView;

    open spec fn view(&self) -> RequestView {
        RequestView {
            config: self.config,
            repository: match self.repository {
                Some(link) => Some(link@),
                None => None,
            },
            path: self.path@,
            path_given: self.path_given,
            destination: self.destination@,
            destination_given: self.destination_given,
            surplus: self.surplus,
        }
    }
}

/// What the command line asks for.
#[derive(PartialEq, Eq, Debug)]
pub enum Command {
    /// Show the usage text.
    Help,
    /// Show the version.
    Version,
    /// Mirror a tree.
    Link(Request),
}

/// A `Command` with its request as plain values.
pub enum CommandView {
    Help,
    Version,
    Link(RequestView),
}

impl View for Command {
    type V = CommandView;

    open spec fn view(&self) -> CommandView {
        match self {
            Command::Help => CommandView::Help,
            Command::Version => CommandView::Version,
            Command::Link(request) => CommandView::Link(request@),
        }
    }
}

/// Why a command line, or what it names, was turned down.
#[derive(PartialEq, Eq, Debug)]
pub struct Rejection {
    pub error: Errors,
    /// Whether the usage text is shown along with the error.
    pub usage: bool,
    /// Whether the message is also shown on a line of its own, ahead of the
    /// usage text.
    pub notice: bool,
}

/// A `Rejection` as plain values.
pub struct RejectionView {
    pub error: ErrorsView,
    pub usage: bool,
    pub notice: bool,
}

impl View for Rejection {
    type V = RejectionView;

    open spec fn view(&self) -> RejectionView {
        RejectionView { error: self.error@, usage: self.usage, notice: self.notice }
    }
}

/// The command line that is left once the flags and the `repo` command
/// are taken out, one group after the other.
pub open spec fn positional(args: Seq<Seq<char>>) -> Seq<Seq<char>> {
    let no_force = without(args, seq!["-f"@, "--force"@]);
    let no_verbose = without(no_force, seq!["--verbose"@]);
    let no_static = without(no_verbose, seq!["-s"@, "--static"@]);
    without(no_static, seq!["repo"@])
}

/// The flags that a command line sets.
pub open spec fn flags(args: Seq<Seq<char>>) -> Config {
    let no_force = without(args, seq!["-f"@, "--force"@]);
    let no_verbose = without(no_force, seq!["--verbose"@]);
    Config {
        force: mentions(args, seq!["-f"@, "--force"@]),
        verbose: mentions(no_force, seq!["--verbose"@]),
        static_files: mentions(no_verbose, seq!["-s"@, "--static"@]),
    }
}

/// Whether a command line gives the `repo` command.
pub open spec fn asks_for_repository(args: Seq<Seq<char>>) -> bool {
    let no_force = without(args, seq!["-f"@, "--force"@]);
    let no_verbose = without(no_force, seq!["--verbose"@]);
    let no_static = without(no_verbose, seq!["-s"@, "--static"@]);
    mentions(no_static, seq!["repo"@])
}

/// Whether the command line asks for a run, so that the home directory has
/// to be known: it holds something, and neither help nor the version is
/// asked for.
pub open spec fn asks_for_run(args: Seq<Seq<char>>) -> bool {
    args.len() > 0 && !mentions(args, seq!["-h"@, "--help"@]) && !mentions(
        args,
        seq!["-v"@, "--version"@],
    )
}

/// What a command line asks for, given the home directory if there is one.
///
/// Help wins over everything, then the version. Of what is left behind the
/// flags, the `repo` command takes the first for its link; then come the
/// source path and the destination. Without `repo` the source path has to
/// be there; with it, `.dotfiles` in the home directory stands in. The home
/// directory stands in for the destination.
pub open spec fn parsed(args: Seq<Seq<char>>, home: Option<Seq<char>>) -> Result<
    CommandView,
    RejectionView,
> {
    let repo = asks_for_repository(args);
    let given = positional(args);
    let paths = if repo {
        given.skip(1)
    } else {
        given
    };
    if args.len() == 0 {
        Err(
            RejectionView {
                error: ErrorsView::InvalidArgument { message: "No arguments provided"@ },
                usage: true,
                notice: false,
            },
        )
    } else if mentions(args, seq!["-h"@, "--help"@]) {
        Ok(CommandView::Help)
    } else if mentions(args, seq!["-v"@, "--version"@]) {
        Ok(CommandView::Version)
    } else if home is None {
        Err(
            RejectionView {
                error: ErrorsView::InvalidPath { message: "Could not find $HOME"@ },
                usage: false,
                notice: true,
            },
        )
    } else if repo && given.len() == 0 {
        Err(
            RejectionView {
                error: ErrorsView::RepositoryNotCloned { message: "No repository link provided"@ },
                usage: true,
                notice: false,
            },
        )
    } else if !repo && paths.len() == 0 {
        Err(
            RejectionView {
                error: ErrorsView::InvalidArgument { message: "No path provided"@ },
                usage: true,
                notice: true,
            },
        )
    } else {
        Ok(
            CommandView::Link(
                RequestView {
                    config: flags(args),
                    repository: if repo {
                        Some(given[0])
                    } else {
                        None
                    },
                    path: if paths.len() > 0 {
                        paths[0]
                    } else {
                        joined(home->0, ".dotfiles"@)
                    },
                    path_given: paths.len() > 0,
                    destination: if paths.len() > 1 {
                        paths[1]
                    } else {
                        home->0
                    },
                    destination_given: paths.len() > 1,
                    surplus: paths.len() > 2,
                },
            ),
        )
    }
}

/// Where the command line asks for no run, the home directory plays no
/// part in what it is read as.
pub proof fn home_plays_no_part(args: Seq<Seq<char>>, home: Option<Seq<char>>)
    requires
        !asks_for_run(args),
    ensures
        parsed(args, home) == parsed(args, None),
{
}

/// The view of what `parse_arguments` returns.
pub open spec fn parse_view(result: Result<Command, Rejection>) -> Result<
    CommandView,
    RejectionView,
> {
    match result {
        Ok(command) => Ok(command@),
        Err(rejection) => Err(rejection@),
    }
}

/// Whether the home directory has to be looked up before the command line
/// is read; see `asks_for_run`.
pub fn needs_home(args: &VecDeque<String>) -> (needed: bool)
    ensures
        needed == asks_for_run(views(args@)),
{
    proof {
        reveal_strlit("-h");
        reveal_strlit("--help");
        reveal_strlit("-v");
        reveal_strlit("--version");
    }
    let help = vec!["-h", "--help"];
    assert(slice_views(help@) =~= seq!["-h"@, "--help"@]);
    let version = vec!["-v", "--version"];
    assert(slice_views(version@) =~= seq!["-v"@, "--version"@]);
    args.len() > 0 && !mentions_any(args, help) && !mentions_any(args, version)
}

/// Reads the command line; see `parsed`.
pub fn parse_arguments(args: VecDeque<String>, home: Option<String>) -> (result: Result<
    Command,
    Rejection,
>)
    ensures
        parse_view(result) == parsed(
            views(args@),
            match home {
                Some(dir) => Some(dir@),
                None => None,
            },
        ),
{
    let ghost all = views(args@);
    let mut args = args;
    if args.len() == 0 {
        return Err(
            Rejection {
                error: Errors::InvalidArgument {
                    message: String::from_str("No arguments provided"),
                },
                usage: true,
                notice: false,
            },
        );
    }
    proof {
        reveal_strlit("-h");
        reveal_strlit("--help");
        reveal_strlit("-v");
        reveal_strlit("--version");
        reveal_strlit("-f");
        reveal_strlit("--force");
        reveal_strlit("--verbose");
        reveal_strlit("-s");
        reveal_strlit("--static");
        reveal_strlit("repo");
    }
    let help = vec!["-h", "--help"];
    assert(slice_views(help@) =~= seq!["-h"@, "--help"@]);
    if mentions_any(&args, help) {
        return Ok(Command::Help);
    }
    let version = vec!["-v", "--version"];
    assert(slice_views(version@) =~= seq!["-v"@, "--version"@]);
    if mentions_any(&args, version) {
        return Ok(Command::Version);
    }
    let force_names = vec!["-f", "--force"];
    assert(slice_views(force_names@) =~= seq!["-f"@, "--force"@]);
    let force = verify_argument(&mut args, force_names);
    let verbose_names = vec!["--verbose"];
    assert(slice_views(verbose_names@) =~= seq!["--verbose"@]);
    let verbose = verify_argument(&mut args, verbose_names);
    let static_names = vec!["-s", "--static"];
    assert(slice_views(static_names@) =~= seq!["-s"@, "--static"@]);
    let static_files = verify_argument(&mut args, static_names);
    let repo_names = vec!["repo"];
    assert(slice_views(repo_names@) =~= seq!["repo"@]);
    let repo = verify_argument(&mut args, repo_names);
    let config = Config { force, verbose, static_files };
    assert(config == flags(all));
    assert(views(args@) == positional(all));
    assert(repo == asks_for_repository(all));
    let home = match home {
        Some(dir) => dir,
        None => {
            return Err(
                Rejection {
                    error: Errors::InvalidPath {
                        message: String::from_str("Could not find $HOME"),
                    },
                    usage: false,
                    notice: true,
                },
            );
        },
    };
    let ghost given = views(args@);
    let mut repository: Option<String> = None;
    if repo {
        match args.pop_front() {
            Some(link) => {
                assert(link@ == given[0]);
                assert(views(args@) =~= given.skip(1));
                repository = Some(link);
            },
            None => {
                return Err(
                    Rejection {
                        error: Errors::RepositoryNotCloned {
                            message: String::from_str("No repository link provided"),
                        },
                        usage: true,
                        notice: false,
                    },
                );
            },
        }
    }
    let ghost paths = views(args@);
    let count = args.len();
    let (path, path_given) = match args.pop_front() {
        Some(path) => {
            assert(path@ == paths[0]);
            (path, true)
        },
        None => {
            if repo {
                (join(home.as_str(), ".dotfiles"), false)
            } else {
                return Err(
                    Rejection {
                        error: Errors::InvalidArgument {
                            message: String::from_str("No path provided"),
                        },
                        usage: true,
                        notice: true,
                    },
                );
            }
        },
    };
    let (destination, destination_given) = match args.pop_front() {
        Some(destination) => {
            assert(destination@ == paths[1]);
            (destination, true)
        },
        None => (home, false),
    };
    Ok(
        Command::Link(
            Request {
                config,
                repository,
                path,
                path_given,
                destination,
                destination_given,
                surplus: count > 2,
            },
        ),
    )
}

impl RequestView {
    /// Whether the source directory is to be created before anything else:
    /// a repository is cloned into a directory that may not be there yet.
    pub open spec fn creates_source(self, source: DestState) -> bool {
        self.repository is Some && source == DestState::Absent
    }

    /// Whether the source directory is cleared before the repository is
    /// cloned into it.
    pub open spec fn clears_source(self) -> bool {
        self.repository is Some && self.config.force
    }

    /// Whether the request can be carried out, given what was found at its
    /// two paths. Both have to be directories; the source is looked at
    /// first, and a surplus of arguments is turned down last.
    pub open spec fn checked(self, source: DestState, destination: DestState) -> Result<
        (),
        RejectionView,
    > {
        if source != DestState::Directory {
            Err(
                RejectionView {
                    error: ErrorsView::InvalidPath {
                        message: "Path "@ + self.path + " does not exist"@,
                    },
                    usage: false,
                    notice: false,
                },
            )
        } else if destination != DestState::Directory {
            Err(
                RejectionView {
                    error: ErrorsView::InvalidPath {
                        message: "Destination directory does not exist"@,
                    },
                    usage: false,
                    notice: false,
                },
            )
        } else if self.surplus {
            Err(
                RejectionView {
                    error: ErrorsView::InvalidArgument { message: "Too many arguments provided"@ },
                    usage: true,
                    notice: false,
                },
            )
        } else {
            Ok(())
        }
    }
}

/// The view of what `Request::validate` returns.
pub open spec fn check_view(result: Result<(), Rejection>) -> Result<(), RejectionView> {
    match result {
        Ok(_) => Ok(()),
        Err(rejection) => Err(rejection@),
    }
}

impl Request {
    /// See `RequestView::creates_source`.
    pub fn creates_source(&self, source: DestState) -> (create: bool)
        ensures
            create == self@.creates_source(source),
    {
        self.repository.is_some() && source == DestState::Absent
    }

    /// See `RequestView::clears_source`.
    pub fn clears_source(&self) -> (clear: bool)
        ensures
            clear == self@.clears_source(),
    {
        self.repository.is_some() && self.config.force
    }

    /// Checks the request against what was found at its two paths; see
    /// `RequestView::checked`.
    pub fn validate(&self, source: DestState, destination: DestState) -> (result: Result<
        (),
        Rejection,
    >)
        ensures
            check_view(result) == self@.checked(source, destination),
    {
        if source != DestState::Directory {
            let message = String::from_str("Path ").concat(self.path.as_str()).concat(
                " does not exist",
            );
            Err(Rejection { error: Errors::InvalidPath { message }, usage: false, notice: false })
        } else if destination != DestState::Directory {
            Err(
                Rejection {
                    error: Errors::InvalidPath {
                        message: String::from_str("Destination directory does not exist"),
                    },
                    usage: false,
                    notice: false,
                },
            )
        } else if self.surplus {
            Err(
                Rejection {
                    error: Errors::InvalidArgument {
                        message: String::from_str("Too many arguments provided"),
                    },
                    usage: true,
                    notice: false,
                },
            )
        } else {
            Ok(())
        }
    }
}

} // verus!
