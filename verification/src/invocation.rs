//! What the command line asks for, and the arguments of the commit command
//! that it leads to.

use crate::selector::{outcome_view, Outcome, OutcomeView};
use crate::strings::views;
use vstd::prelude::*;

verus! {

/// Whether `arg` asks for a sign-off: `-s` or `--signoff`.
pub open spec fn is_signoff_flag(arg: Seq<char>) -> bool {
    arg == "-s"@ || arg == "--signoff"@
}

/// The arguments of the commit command for the command line `args`: `args`
/// as they stand where they start with `commit`, and with `commit` put in
/// front of them where they do not.
pub open spec fn with_commit(args: Seq<Seq<char>>) -> Seq<Seq<char>> {
    if args.len() > 0 && args[0] == "commit"@ {
        args
    } else {
        seq!["commit"@] + args
    }
}

/// Whether one of `args` asks for a sign-off, and so for an address to be
/// picked.
pub fn signoff_requested(args: &Vec<String>) -> (requested: bool)
    ensures
        requested <==> exists|i: int| 0 <= i < args.len() && is_signoff_flag(#[trigger] args[i]@),
{
    let short = "-s".to_owned();
    let long = "--signoff".to_owned();
    let mut i: usize = 0;
    while i < args.len()
        invariant
            i <= args.len(),
            short@ == "-s"@,
            long@ == "--signoff"@,
            forall|j: int| 0 <= j < i ==> !is_signoff_flag(#[trigger] args[j]@),
        decreases args.len() - i,
    {
        if args[i] == short || args[i] == long {
            return true;
        }
        i = i + 1;
    }
    false
}

/// The arguments of the commit command for the command line `args`.
pub fn commit_arguments(args: &Vec<String>) -> (all: Vec<String>)
    ensures
        views(all@) == with_commit(views(args@)),
{
    let commit = "commit".to_owned();
    let mut all: Vec<String> = Vec::new();
    if args.len() == 0 || !(args[0] == commit) {
        all.push(commit);
    }
    let ghost head = views(all@);
    let mut i: usize = 0;
    while i < args.len()
        invariant
            i <= args.len(),
            views(all@) == head + views(args@).take(i as int),
        decreases args.len() - i,
    {
        let ghost before = views(all@);
        all.push(args[i].clone());
        assert(views(all@) =~= before.push(args[i as int]@));
        assert(views(args@).take(i + 1) =~= views(args@).take(i as int).push(args[i as int]@));
        i = i + 1;
    }
    assert(views(args@).take(i as int) =~= views(args@));
    assert(head.len() == 0 ==> head + views(args@) =~= views(args@));
    assert(head.len() == 1 ==> head =~= seq!["commit"@]);
    all
}

/// The environment variable that carries the author's address to the commit
/// command.
pub const AUTHOR_VARIABLE: &'static str = "GIT_AUTHOR_EMAIL";

/// The environment variable that carries the committer's address to the
/// commit command.
pub const COMMITTER_VARIABLE: &'static str = "GIT_COMMITTER_EMAIL";

/// A commit command that is ready to run: its arguments, and the address to
/// commit under where one was picked.
pub struct CommitCommand {
    pub email: Option<String>,
    pub arguments: Vec<String>,
}

/// The commit command that follows a selection. Without a selection the
/// command runs with no address of its own; after a confirmed one it runs
/// under the chosen address; after a cancelled one nothing runs.
pub fn command_after(args: &Vec<String>, selection: Option<Outcome>) -> (command: Option<
    CommitCommand,
>)
    ensures
        outcome_view(selection) == Some(OutcomeView::Cancelled) <==> command is None,
        command is Some ==> views(command.unwrap().arguments@) == with_commit(views(args@)),
        command is Some ==> match command.unwrap().email {
            Some(email) => outcome_view(selection) == Some(OutcomeView::Confirmed(email@)),
            None => selection is None,
        },
{
    match selection {
        Some(Outcome::Cancelled) => None,
        Some(Outcome::Confirmed(email)) => Some(
            CommitCommand { email: Some(email), arguments: commit_arguments(args) },
        ),
        None => Some(CommitCommand { email: None, arguments: commit_arguments(args) }),
    }
}

} // verus!
