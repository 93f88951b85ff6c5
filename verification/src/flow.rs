//! The orchestrator's decision logic for one run: joining the raw
//! arguments into a single command line, recognising the sentinel
//! arguments, choosing between record mode and interactive mode,
//! resolving the interactively chosen command line, and mapping each
//! outcome of a run to its exit code.

use vstd::prelude::*;

use crate::text::push_char;
use crate::text::str_eq;

verus! {

/// The single command line the raw arguments form: the arguments
/// joined by one space each.
pub open spec fn spec_join(args: Seq<Seq<char>>) -> Seq<char>
    decreases args.len(),
{
    if args.len() == 0 {
        Seq::empty()
    } else if args.len() == 1 {
        args[0]
    } else {
        spec_join(args.drop_last()) + seq![' '] + args.last()
    }
}

/// Joins the raw arguments into one command line, one space between
/// each pair of neighbours.
pub fn join_args(args: &Vec<String>) -> (r: String)
    ensures
        r@ == spec_join(args.deep_view()),
{
    let ghost dv = args.deep_view();
    let mut out = String::new();
    if args.len() == 0 {
        proof {
            assert(out@ =~= spec_join(dv));
        }
        return out;
    }
    out.append(args[0].as_str());
    proof {
        assert(dv.take(1) =~= seq![dv[0]]);
        assert(dv[0] == args@[0]@);
        assert(out@ =~= dv[0]);
    }
    let mut i: usize = 1;
    while i < args.len()
        invariant
            1 <= i <= args.len(),
            dv == args.deep_view(),
            dv.len() == args@.len(),
            out@ == spec_join(dv.take(i as int)),
        decreases args.len() - i,
    {
        out.append(" ");
        out.append(args[i].as_str());
        proof {
            reveal_strlit(" ");
            assert(" "@ =~= seq![' ']);
            assert(dv.take(i + 1).drop_last() =~= dv.take(i as int));
            assert(dv.take(i + 1).last() == dv[i as int]);
            assert(dv[i as int] == args@[i as int]@);
            assert(out@ =~= spec_join(dv.take(i as int)) + seq![' '] + dv[i as int]);
        }
        i = i + 1;
    }
    proof {
        assert(dv.take(args@.len() as int) =~= dv);
    }
    out
}

/// What one invocation asks for, after the sentinel arguments are
/// recognised.
pub struct Invocation {
    /// The merged command line; empty when a sentinel emptied it.
    pub command: String,
    /// `--`: suppress environment-file injection for this run.
    pub ignore_env: bool,
    /// `*`: present the picked entry in an editable field first.
    pub edit_mode: bool,
}

/// Recognises the sentinel arguments: `--` empties the command line
/// and suppresses environment injection; `*` empties it and asks for
/// edit mode; anything else is the command line itself.
pub fn interpret_args(merged: String) -> (r: Invocation)
    ensures
        r.ignore_env == (merged@ == "--"@),
        r.edit_mode == (merged@ == "*"@),
        (merged@ == "--"@ || merged@ == "*"@) ==> r.command@.len() == 0,
        !(merged@ == "--"@ || merged@ == "*"@) ==> r.command@ == merged@,
{
    let ignore_env = str_eq(merged.as_str(), "--");
    let edit_mode = str_eq(merged.as_str(), "*");
    let command = if ignore_env || edit_mode {
        String::new()
    } else {
        merged
    };
    Invocation { command, ignore_env, edit_mode }
}

/// With no history file on disk and nothing to record, the run ends at
/// once: nothing to show, nothing to write.
pub fn should_exit_early(history_file_exists: bool, inv: &Invocation) -> (r: bool)
    ensures
        r == (!history_file_exists && inv.command@.len() == 0),
{
    !history_file_exists && inv.command.as_str().is_empty()
}

/// Which of the three ways a run proceeds.
pub enum RunMode {
    /// The command line already stands in the history: nothing to do.
    AlreadyRecorded,
    /// A new non-empty command line: append it, execute nothing.
    RecordNew,
    /// No command line given: pick one from the history.
    Interactive,
}

/// Decides between record mode and interactive mode for the merged
/// command line against the loaded history.
pub fn run_mode(history: &Vec<String>, command: &String) -> (r: RunMode)
    ensures
        (r is AlreadyRecorded) <==> history.deep_view().contains(command@),
        (r is RecordNew) <==> (!history.deep_view().contains(command@) && command@.len() > 0),
        (r is Interactive) <==> (!history.deep_view().contains(command@) && command@.len() == 0),
{
    if crate::history::contains_line(history, command.as_str()) {
        RunMode::AlreadyRecorded
    } else if !command.as_str().is_empty() {
        RunMode::RecordNew
    } else {
        RunMode::Interactive
    }
}

/// The bytes appended to the history file for a newly recorded command
/// line: the line followed by one newline.
pub fn record_line(command: &String) -> (r: String)
    ensures
        r@ == command@.push('\n'),
{
    let mut r = command.clone();
    push_char(&mut r, '\n');
    r
}

/// The command line an interactive run settles on: the edited text in
/// edit mode, the selected entry otherwise; `None` — run nothing —
/// when it is empty (a cancelled prompt reads as empty).
pub fn resolve_choice(selected: String, edited: String, edit_mode: bool) -> (r: Option<String>)
    ensures
        ({
            let chosen = if edit_mode {
                edited@
            } else {
                selected@
            };
            match r {
                None => chosen.len() == 0,
                Some(s) => chosen.len() > 0 && s@ == chosen,
            }
        }),
{
    let chosen = if edit_mode {
        edited
    } else {
        selected
    };
    if chosen.as_str().is_empty() {
        None
    } else {
        Some(chosen)
    }
}

/// How a run ended.
pub enum RunOutcome {
    /// A command line was launched and waited for.
    Completed,
    /// A recognised path that needs no action: record-only runs,
    /// cancelled prompts, nothing to show.
    NoOp,
    /// Reading or writing the history or an environment file failed,
    /// or the working directory could not be resolved.
    IoFailure,
    /// Neither the direct nor the shell-wrapped spawn succeeded.
    SpawnFailure,
    /// Waiting for the child process failed; its outcome is unknown.
    WaitFailure,
}

/// The process exit code for each outcome: zero exactly on the
/// successful paths, a distinct small code for each failure kind.
pub fn exit_code(outcome: &RunOutcome) -> (r: i32)
    ensures
        (r == 0) <==> (outcome is Completed || outcome is NoOp),
        outcome is IoFailure ==> r == 1,
        outcome is SpawnFailure ==> r == 2,
        outcome is WaitFailure ==> r == 3,
{
    match outcome {
        RunOutcome::Completed => 0,
        RunOutcome::NoOp => 0,
        RunOutcome::IoFailure => 1,
        RunOutcome::SpawnFailure => 2,
        RunOutcome::WaitFailure => 3,
    }
}

} // verus!
