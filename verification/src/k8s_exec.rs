//! Terminals into the containers of pods.

use crate::text;
use vstd::prelude::*;

verus! {

/// What a terminal runs, and where.
#[derive(Debug)]
pub struct ExecArgs {
    pub session_id: String,
    pub namespace: String,
    pub pod_name: String,
    pub container: Option<String>,
    pub command: Vec<String>,
}

/// The command of a terminal: a shell unless there is one.
pub open spec fn command_of(command: Seq<Seq<char>>) -> Seq<Seq<char>> {
    if command.len() == 0 {
        seq!["/bin/sh"@]
    } else {
        command
    }
}

/// The command of a terminal.
pub fn exec_command(args: &ExecArgs) -> (r: Vec<String>)
    ensures
        text::texts(r@) == command_of(text::texts(args.command@)),
{
    assert(text::texts(args.command@).len() == args.command@.len());
    if args.command.len() == 0 {
        let mut r: Vec<String> = Vec::new();
        r.push(text::owned("/bin/sh"));
        assert(text::texts(r@) =~= seq!["/bin/sh"@]);
        r
    } else {
        text::copy_texts(args.command.as_slice())
    }
}

/// The last thing that a terminal shows.
pub open spec fn banner_text(error: Option<Seq<char>>) -> Seq<char> {
    match error {
        None => "\r\n\x1b[2m[ session ended ]\x1b[0m\r\n"@,
        Some(e) => "\r\n\x1b[31m[ exec failed: "@ + e + " ]\x1b[0m\r\n"@,
    }
}

/// The last thing that a terminal shows.
pub fn banner(error: Option<&str>) -> (r: String)
    ensures
        r@ == banner_text(
            match error {
                Some(e) => Some(e@),
                None => None,
            },
        ),
{
    match error {
        None => text::owned("\r\n\x1b[2m[ session ended ]\x1b[0m\r\n"),
        Some(e) => text::join3("\r\n\x1b[31m[ exec failed: ", e, " ]\x1b[0m\r\n"),
    }
}

// ---------- laws ----------

/// A terminal in a pod runs the command that was asked for, a shell where none
/// was.
pub proof fn law_pods_run_the_asked_command(args: &ExecArgs, r: Vec<String>)
    requires
        call_ensures(exec_command, (args,), r),
    ensures
        args.command@.len() > 0 ==> text::texts(r@) == text::texts(args.command@),
        args.command@.len() == 0 ==> text::texts(r@) == seq!["/bin/sh"@],
{
    assert(text::texts(args.command@).len() == args.command@.len());
}

/// A terminal that failed says why, one that ended says so.
pub proof fn law_banners_tell_the_end(error: Option<&str>, r: String)
    requires
        call_ensures(banner, (error,), r),
    ensures
        error is None ==> r@ == "\r\n\x1b[2m[ session ended ]\x1b[0m\r\n"@,
        error matches Some(e) ==> r@ == "\r\n\x1b[31m[ exec failed: "@ + e@ + " ]\x1b[0m\r\n"@,
{
}

}
