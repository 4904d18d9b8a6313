use vstd::prelude::*;
use std::io::Write;

use crate::error::SmeError;

verus! {

// ---------------------------------------------------------------------------
// Print mode
// ---------------------------------------------------------------------------

/// The block that print mode writes out: every path preceded by a line
/// break, folded left over the sequence. An empty sequence gives the empty
/// block.
pub open spec fn joined_block(paths: Seq<Seq<char>>) -> Seq<char>
    decreases paths.len(),
{
    if paths.len() == 0 {
        Seq::empty()
    } else {
        joined_block(paths.drop_last()) + seq!['\n'] + paths.last()
    }
}

/// In print mode, an empty matched sequence renders as the empty block.
pub proof fn lemma_empty_block()
    ensures
        joined_block(Seq::<Seq<char>>::empty()) == Seq::<char>::empty(),
{
}

/// Renders the matched paths as one block, each preceded by a line break.
pub fn render_block(paths: &Vec<String>) -> (r: String)
    ensures
        r@ == joined_block(paths.deep_view()),
{
    let mut out = String::new();
    let mut i: usize = 0;
    while i < paths.len()
        invariant
            i <= paths.len(),
            out@ == joined_block(paths.deep_view().take(i as int)),
        decreases paths.len() - i,
    {
        out.append("\n");
        out.append(paths[i].as_str());
        proof {
            reveal_strlit("\n");
            let dv = paths.deep_view();
            assert(dv.take(i + 1).drop_last() =~= dv.take(i as int));
            assert(dv.take(i + 1).last() == paths@[i as int]@);
            assert(out@ =~= joined_block(dv.take(i + 1)));
        }
        i = i + 1;
    }
    proof {
        assert(paths.deep_view().take(paths@.len() as int) =~= paths.deep_view());
    }
    out
}

/// Relies on writeln! to standard output: writes the rendered block,
/// followed by one line break.
#[verifier::external_body]
fn print_block(text: &str) {
    let _ = writeln!(std::io::stdout(), "{}", text);
}

// ---------------------------------------------------------------------------
// Action mode
// ---------------------------------------------------------------------------

/// The command line run for one path: the action and the path joined by a
/// single space.
pub open spec fn command_line(action: Seq<char>, path: Seq<char>) -> Seq<char> {
    action + seq![' '] + path
}

/// Builds the command line for one path.
pub fn build_command(action: &str, path: &str) -> (r: String)
    ensures
        r@ == command_line(action@, path@),
{
    let mut out = String::new();
    out.append(action);
    out.append(" ");
    out.append(path);
    proof {
        reveal_strlit(" ");
        assert(out@ =~= command_line(action@, path@));
    }
    out
}

/// How one spawned command ended: it finished with a clean or unclean exit
/// status, or it could not be launched at all.
enum RunOutcome {
    Finished(bool),
    LaunchFailed(String),
}

/// Relies on subprocess::Exec::shell and Exec::join: runs the command line
/// through a shell, inheriting the parent's standard streams, and waits for
/// it to finish; the reported status is clean exactly on ExitStatus::Exited(0).
/// Nothing is promised of the outcome: it depends on the command.
#[verifier::external_body]
fn run_shell(command: &str) -> (r: RunOutcome) {
    match subprocess::Exec::shell(command).join() {
        Ok(status) => RunOutcome::Finished(status.success()),
        Err(e) => RunOutcome::LaunchFailed(format!("{}", e)),
    }
}

// ---------------------------------------------------------------------------
// The executor
// ---------------------------------------------------------------------------

/// The executor. An empty action prints every matched path, one per line,
/// as a single block, and always succeeds. A non-empty action is run once
/// per matched path, in the order given, each command built by joining the
/// action and the path with a single space and awaited before the next; the
/// first command that fails to launch or does not exit cleanly stops the
/// remaining iterations, and the error names its position, its command line
/// and the failure.
pub fn execute(paths: &Vec<String>, action: &str) -> (r: Result<(), SmeError>)
    ensures
        action@.len() == 0 ==> r is Ok,
        paths@.len() == 0 ==> r is Ok,
        r matches Err(e) ==> action@.len() > 0 && (e matches SmeError::ActionFailed {
            index,
            command,
            ..
        } && index < paths@.len() && command@ == command_line(
            action@,
            paths.deep_view()[index as int],
        )),
{
    if action.is_empty() {
        let block = render_block(paths);
        print_block(block.as_str());
        Ok(())
    } else {
        let mut i: usize = 0;
        while i < paths.len()
            invariant
                i <= paths.len(),
                action@.len() > 0,
            decreases paths.len() - i,
        {
            let command = build_command(action, paths[i].as_str());
            proof {
                assert(paths.deep_view()[i as int] == paths@[i as int]@);
            }
            match run_shell(command.as_str()) {
                RunOutcome::Finished(clean) => {
                    if !clean {
                        return Err(
                            SmeError::ActionFailed {
                                index: i,
                                command,
                                message: "command exited with a failure status".to_owned(),
                            },
                        );
                    }
                },
                RunOutcome::LaunchFailed(message) => {
                    return Err(SmeError::ActionFailed { index: i, command, message });
                },
            }
            i = i + 1;
        }
        Ok(())
    }
}

} // verus!
