//! Terminals: which shell opens, and what a terminal in a container runs.

use crate::argv;
use crate::text;
use vstd::prelude::*;

verus! {

/// The two ways into a running terminal.
pub struct TerminalSession<R, I> {
    pub tx_resize: R,
    pub tx_input: I,
}

/// A shell with its arguments.
#[derive(Debug)]
pub struct Shell {
    pub program: String,
    pub args: Vec<String>,
}

/// A shell with its texts spelled out.
#[verifier::ext_equal]
pub struct ShellView {
    pub program: Seq<char>,
    pub args: Seq<Seq<char>>,
}

impl View for Shell {
    type V = ShellView;

    open spec fn view(&self) -> ShellView {
        ShellView { program: self.program@, args: text::texts(self.args@) }
    }
}

/// The first of some places where a file that can be run is.
pub open spec fn first_present(places: Seq<Seq<char>>, runnable: Seq<Seq<char>>) -> Option<
    Seq<char>,
>
    decreases places.len(),
{
    if places.len() == 0 {
        None
    } else if runnable.contains(places[0]) {
        Some(places[0])
    } else {
        first_present(places.skip(1), runnable)
    }
}

/// The shell of a terminal: the operator's own where it can be run, then bash,
/// then sh. Only a plain sh is not started as a login shell.
pub open spec fn shell_picked(own: Option<Seq<char>>, runnable: Seq<Seq<char>>) -> ShellView {
    let bash = first_present(seq!["/bin/bash"@, "/usr/bin/bash"@], runnable);
    let sh = first_present(seq!["/bin/sh"@, "/usr/bin/sh"@], runnable);
    if own is Some && own->0.len() > 0 && runnable.contains(own->0) {
        ShellView { program: own->0, args: seq!["-l"@] }
    } else if bash is Some {
        ShellView { program: bash->0, args: seq!["-l"@] }
    } else if sh is Some {
        ShellView { program: sh->0, args: seq!["-i"@] }
    } else {
        ShellView { program: "bash"@, args: seq!["-l"@] }
    }
}

fn shell(program: &str, arg: &str) -> (r: Shell)
    ensures
        r@ == (ShellView { program: program@, args: seq![arg@] }),
{
    let mut args: Vec<String> = Vec::new();
    args.push(text::owned(arg));
    assert(text::texts(args@) =~= seq![arg@]);
    Shell { program: text::owned(program), args }
}

/// Picks the shell of a terminal, from the operator's own and from the files
/// that can be run.
pub fn pick_login_shell(own: Option<&str>, runnable: &[String]) -> (r: Shell)
    ensures
        r@ == shell_picked(
            match own {
                Some(s) => Some(s@),
                None => None,
            },
            text::texts(runnable@),
        ),
{
    proof {
        reveal_with_fuel(first_present, 3);
        let bash = seq!["/bin/bash"@, "/usr/bin/bash"@];
        let sh = seq!["/bin/sh"@, "/usr/bin/sh"@];
        assert(bash.skip(1)[0] == "/usr/bin/bash"@);
        assert(sh.skip(1)[0] == "/usr/bin/sh"@);
    }
    if let Some(own) = own {
        if !own.is_empty() && text::listed(runnable, own) {
            return shell(own, "-l");
        }
    }
    if text::listed(runnable, "/bin/bash") {
        return shell("/bin/bash", "-l");
    }
    if text::listed(runnable, "/usr/bin/bash") {
        return shell("/usr/bin/bash", "-l");
    }
    if text::listed(runnable, "/bin/sh") {
        return shell("/bin/sh", "-i");
    }
    if text::listed(runnable, "/usr/bin/sh") {
        return shell("/usr/bin/sh", "-i");
    }
    shell("bash", "-l")
}

/// The shell in a container: `sh` unless one is asked for.
pub open spec fn inner_shell(shell: Seq<char>) -> Seq<char> {
    if shell.len() == 0 {
        "sh"@
    } else {
        shell
    }
}

/// The arguments for `docker`, or why a terminal in a container is refused.
pub open spec fn docker_exec_planned(container: Seq<char>, shell: Seq<char>) -> Result<
    Seq<Seq<char>>,
    Seq<char>,
> {
    let shell = inner_shell(shell);
    if text::byte_len(container) == 0 || text::begins(container, '-') || text::byte_len(container) > 256 {
        Err("invalid container id"@)
    } else if !text::alnum_or(container, "_.-"@) {
        Err("container id has disallowed characters"@)
    } else if text::begins(shell, '-') || !text::alnum_or(shell, "/_-."@) {
        Err("invalid shell"@)
    } else {
        Ok(seq!["exec"@, "-it"@, container, shell])
    }
}

/// Plans a terminal in a container.
pub fn plan_docker_exec(container: &str, shell: &str) -> (r: Result<Vec<String>, String>)
    ensures
        text::list_outcome(r) == docker_exec_planned(container@, shell@),
{
    let n = text::byte_length(container);
    if n == 0 || text::starts_with_char(container, '-') || n > 256 {
        return Err(text::owned("invalid container id"));
    }
    if !text::only_alnum_or(container, "_.-") {
        return Err(text::owned("container id has disallowed characters"));
    }
    let shell = if shell.is_empty() {
        text::owned("sh")
    } else {
        text::owned(shell)
    };
    if text::starts_with_char(shell.as_str(), '-') || !text::only_alnum_or(shell.as_str(), "/_-.") {
        return Err(text::owned("invalid shell"));
    }
    let mut argv: Vec<String> = Vec::new();
    argv.push(text::owned("exec"));
    argv.push(text::owned("-it"));
    argv.push(text::owned(container));
    argv.push(shell);
    assert(text::texts(argv@) =~= seq!["exec"@, "-it"@, container@, shell@]);
    Ok(argv)
}

/// Neither the container nor the shell can be taken for an option.
pub proof fn law_docker_exec_takes_no_options(container: Seq<char>, shell: Seq<char>)
    requires
        docker_exec_planned(container, shell) is Ok,
    ensures
        argv::container_ok(container),
        !text::begins(inner_shell(shell), '-'),
        inner_shell(shell).len() > 0,
{
    reveal_strlit("sh");
}

/// The operator's own shell opens where it can be run; else bash, else sh, each
/// from `/bin` before `/usr/bin`; and sh alone is interactive without being a
/// login shell.
pub proof fn law_shells_are_picked_in_order(own: Option<&str>, runnable: &[String], r: Shell)
    requires
        call_ensures(pick_login_shell, (own, runnable), r),
    ensures
        r.args@.len() == 1,
        own is Some && own->0@.len() > 0 && text::texts(runnable@).contains(own->0@) ==> r.program@
            == own->0@ && r.args@[0]@ == "-l"@,
        !(own is Some && own->0@.len() > 0 && text::texts(runnable@).contains(own->0@)) ==> {
            &&& text::texts(runnable@).contains("/bin/bash"@) ==> r.program@ == "/bin/bash"@
                && r.args@[0]@ == "-l"@
            &&& !text::texts(runnable@).contains("/bin/bash"@) ==> {
                &&& text::texts(runnable@).contains("/usr/bin/bash"@) ==> r.program@
                    == "/usr/bin/bash"@ && r.args@[0]@ == "-l"@
                &&& !text::texts(runnable@).contains("/usr/bin/bash"@) ==> {
                    &&& text::texts(runnable@).contains("/bin/sh"@) ==> r.program@ == "/bin/sh"@
                        && r.args@[0]@ == "-i"@
                    &&& !text::texts(runnable@).contains("/bin/sh"@) ==> {
                        &&& text::texts(runnable@).contains("/usr/bin/sh"@) ==> r.program@
                            == "/usr/bin/sh"@ && r.args@[0]@ == "-i"@
                        &&& !text::texts(runnable@).contains("/usr/bin/sh"@) ==> r.program@
                            == "bash"@ && r.args@[0]@ == "-l"@
                    }
                }
            }
        },
{
    reveal_with_fuel(first_present, 3);
    let bash = seq!["/bin/bash"@, "/usr/bin/bash"@];
    let sh = seq!["/bin/sh"@, "/usr/bin/sh"@];
    assert(bash.skip(1)[0] == "/usr/bin/bash"@);
    assert(sh.skip(1)[0] == "/usr/bin/sh"@);
    assert(r@.program == r.program@);
    assert(r@.args == text::texts(r.args@));
    assert(text::texts(r.args@).len() == r.args@.len());
    assert(text::texts(r.args@)[0] == r.args@[0]@);
}

/// A terminal in a container runs the shell that was asked for, `sh` where none
/// was, in that container, for every fit name and shell.
pub proof fn law_containers_run_the_asked_shell(
    container: &str,
    shell: &str,
    r: Result<Vec<String>, String>,
)
    requires
        call_ensures(plan_docker_exec, (container, shell), r),
    ensures
        r matches Ok(args) ==> (shell@.len() > 0 ==> text::texts(args@) == seq![
            "exec"@,
            "-it"@,
            container@,
            shell@,
        ]),
        r matches Ok(args) ==> (shell@.len() == 0 ==> text::texts(args@) == seq![
            "exec"@,
            "-it"@,
            container@,
            "sh"@,
        ]),
        argv::container_ok(container@) && (shell@.len() == 0 || shell@[0] != '-' && text::alnum_or(
            shell@,
            "/_-."@,
        )) <==> r is Ok,
        !argv::container_ok(container@) ==> r is Err && (r->Err_0@ == "invalid container id"@
            || r->Err_0@ == "container id has disallowed characters"@),
        argv::container_ok(container@) && r is Err ==> r->Err_0@ == "invalid shell"@,
{
    reveal_strlit("sh");
    let sh = "sh"@;
    assert(sh[0] == 's' && sh[1] == 'h' && sh.len() == 2);
    assert(text::alnum_or(sh, "/_-."@)) by {
        assert(text::is_alnum('s') && text::is_alnum('h'));
    }
    text::lemma_no_bytes(container@);
}

}
