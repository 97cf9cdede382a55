//! The local policy on privileged operations: which ones exist, and within
//! which limits they may be asked for.

use crate::text;
use vstd::prelude::*;

verus! {

/// How much approval an operation needs.
#[derive(Debug, Clone, Copy, PartialEq, Eq, Structural)]
pub enum Tier {
    Two,
}

/// What a client may ask the host to do as root.
#[derive(Debug)]
pub enum TrustedOperation {
    RootCommand { program: String, args: Vec<String>, timeout_secs: u32 },
    RootPty { shell: String, ttl_secs: u32, cols: u16, rows: u16 },
}

/// An operation with its texts spelled out.
#[verifier::ext_equal]
pub enum OperationView {
    RootCommand { program: Seq<char>, args: Seq<Seq<char>>, timeout_secs: u32 },
    RootPty { shell: Seq<char>, ttl_secs: u32, cols: u16, rows: u16 },
}

impl View for TrustedOperation {
    type V = OperationView;

    open spec fn view(&self) -> OperationView {
        match self {
            TrustedOperation::RootCommand { program, args, timeout_secs } =>
                OperationView::RootCommand {
                program: program@,
                args: text::texts(args@),
                timeout_secs: *timeout_secs,
            },
            TrustedOperation::RootPty { shell, ttl_secs, cols, rows } => OperationView::RootPty {
                shell: shell@,
                ttl_secs: *ttl_secs,
                cols: *cols,
                rows: *rows,
            },
        }
    }
}

/// The longest program path, in bytes.
pub const MAX_PROGRAM_BYTES: usize = 4096;

/// The longest argument list.
pub const MAX_ARGS: usize = 256;

/// The longest argument, in bytes.
pub const MAX_ARG_BYTES: usize = 16384;

/// Whether a program is a bounded absolute path.
pub open spec fn program_ok(program: Seq<char>) -> bool {
    text::begins(program, '/') && !program.contains('\0') && text::byte_len(program) <= MAX_PROGRAM_BYTES
}

/// Whether an argument is bounded.
pub open spec fn arg_ok(arg: Seq<char>) -> bool {
    !arg.contains('\0') && text::byte_len(arg) <= MAX_ARG_BYTES
}

/// Whether an argument list is bounded.
pub open spec fn args_ok(args: Seq<Seq<char>>) -> bool {
    args.len() <= MAX_ARGS && forall|i: int| 0 <= i < args.len() ==> arg_ok(#[trigger] args[i])
}

/// Whether a shell may be opened.
pub open spec fn shell_ok(shell: Seq<char>) -> bool {
    shell == "/bin/bash"@ || shell == "/bin/sh"@ || shell == "/usr/bin/bash"@
}

/// The tier of an operation, or the first limit that it breaks.
pub open spec fn classified(operation: OperationView) -> Result<Tier, Seq<char>> {
    match operation {
        OperationView::RootCommand { program, args, timeout_secs } => if !program_ok(program) {
            Err("root command program must be a bounded absolute path"@)
        } else if !args_ok(args) {
            Err("root command arguments exceed policy limits"@)
        } else if !(1 <= timeout_secs <= 3600) {
            Err("root command timeout is outside policy limits"@)
        } else {
            Ok(Tier::Two)
        },
        OperationView::RootPty { shell, ttl_secs, cols, rows } => if !shell_ok(shell) {
            Err("root PTY shell is not locally allowed"@)
        } else if !(60 <= ttl_secs <= 3600) || cols == 0 || rows == 0 {
            Err("root PTY limits are invalid"@)
        } else {
            Ok(Tier::Two)
        },
    }
}

fn check_args(args: &[String]) -> (r: bool)
    ensures
        r == args_ok(text::texts(args@)),
{
    if args.len() > MAX_ARGS {
        return false;
    }
    let mut i: usize = 0;
    while i < args.len()
        invariant
            i <= args@.len(),
            args@.len() <= MAX_ARGS,
            forall|j: int| 0 <= j < i ==> arg_ok(#[trigger] text::texts(args@)[j]),
        decreases args@.len() - i,
    {
        let arg = args[i].as_str();
        if text::contains_char(arg, '\0') || text::byte_length(arg) > MAX_ARG_BYTES {
            assert(!arg_ok(text::texts(args@)[i as int]));
            return false;
        }
        i += 1;
    }
    true
}

/// Classifies an operation, or says which limit it breaks.
pub fn classify(operation: &TrustedOperation) -> (r: Result<Tier, String>)
    ensures
        text::outcome(r) == classified(operation@),
{
    match operation {
        TrustedOperation::RootCommand { program, args, timeout_secs } => {
            let program = program.as_str();
            if !text::starts_with_char(program, '/') || text::contains_char(program, '\0') || text::byte_length(
                program,
            ) > MAX_PROGRAM_BYTES {
                return Err(text::owned("root command program must be a bounded absolute path"));
            }
            if !check_args(args.as_slice()) {
                return Err(text::owned("root command arguments exceed policy limits"));
            }
            if *timeout_secs < 1 || *timeout_secs > 3600 {
                return Err(text::owned("root command timeout is outside policy limits"));
            }
        },
        TrustedOperation::RootPty { shell, ttl_secs, cols, rows } => {
            let shell = shell.as_str();
            if !text::same(shell, "/bin/bash") && !text::same(shell, "/bin/sh") && !text::same(
                shell,
                "/usr/bin/bash",
            ) {
                return Err(text::owned("root PTY shell is not locally allowed"));
            }
            if *ttl_secs < 60 || *ttl_secs > 3600 || *cols == 0 || *rows == 0 {
                return Err(text::owned("root PTY limits are invalid"));
            }
        },
    }
    Ok(Tier::Two)
}

/// The version of the policy in force: what was configured, else the built-in.
pub fn policy_version(configured: Option<&str>) -> (r: String)
    ensures
        r@ == (match configured {
            Some(v) => v@,
            None => "builtin-v1"@,
        }),
{
    match configured {
        Some(v) => text::owned(v),
        None => text::owned("builtin-v1"),
    }
}

/// Whether two operations are the same.
pub fn same_operation(a: &TrustedOperation, b: &TrustedOperation) -> (r: bool)
    ensures
        r == (a@ == b@),
{
    match (a, b) {
        (
            TrustedOperation::RootCommand { program: p, args: x, timeout_secs: t },
            TrustedOperation::RootCommand { program: q, args: y, timeout_secs: u },
        ) => *t == *u && text::same(p.as_str(), q.as_str()) && text::same_texts(x.as_slice(), y.as_slice()),
        (
            TrustedOperation::RootPty { shell: p, ttl_secs: t, cols: c, rows: h },
            TrustedOperation::RootPty { shell: q, ttl_secs: u, cols: d, rows: k },
        ) => *t == *u && *c == *d && *h == *k && text::same(p.as_str(), q.as_str()),
        _ => false,
    }
}

/// Copies an operation.
pub fn copy_operation(operation: &TrustedOperation) -> (r: TrustedOperation)
    ensures
        r@ == operation@,
{
    match operation {
        TrustedOperation::RootCommand { program, args, timeout_secs } =>
            TrustedOperation::RootCommand {
            program: text::owned(program.as_str()),
            args: text::copy_texts(args.as_slice()),
            timeout_secs: *timeout_secs,
        },
        TrustedOperation::RootPty { shell, ttl_secs, cols, rows } => TrustedOperation::RootPty {
            shell: text::owned(shell.as_str()),
            ttl_secs: *ttl_secs,
            cols: *cols,
            rows: *rows,
        },
    }
}

/// Every operation that the policy admits is of tier two, names an absolute
/// program or one of the listed shells, and is limited to an hour.
pub proof fn law_admitted_operations_are_bounded(operation: OperationView)
    requires
        classified(operation) is Ok,
    ensures
        classified(operation) == Ok::<Tier, Seq<char>>(Tier::Two),
        match operation {
            OperationView::RootCommand { program, args, timeout_secs } => {
                &&& program[0] == '/'
                &&& args.len() <= 256
                &&& 1 <= timeout_secs <= 3600
            },
            OperationView::RootPty { shell, ttl_secs, cols, rows } => {
                &&& shell[0] == '/'
                &&& 60 <= ttl_secs <= 3600
                &&& cols > 0
                &&& rows > 0
            },
        },
{
    reveal_strlit("/bin/bash");
    reveal_strlit("/bin/sh");
    reveal_strlit("/usr/bin/bash");
}

/// A command passes where its program is an absolute path within 4096 bytes, it
/// has at most 256 arguments of at most 16384 bytes, none of them holds a NUL,
/// and it is to take between a second and an hour.
pub proof fn law_commands_are_judged(
    program: String,
    args: Vec<String>,
    timeout_secs: u32,
    r: Result<Tier, String>,
)
    requires
        call_ensures(
            classify,
            (&TrustedOperation::RootCommand { program, args, timeout_secs },),
            r,
        ),
    ensures
        r is Ok <==> program@.len() > 0 && program@[0] == '/' && !program@.contains('\0')
            && text::byte_len(program@) <= 4096 && args@.len() <= 256 && (forall|i: int|
            0 <= i < args@.len() ==> !(#[trigger] args@[i])@.contains('\0') && text::byte_len(
                args@[i]@,
            ) <= 16384) && 1 <= timeout_secs <= 3600,
        r is Ok ==> r->Ok_0 == Tier::Two,
{
    let t = text::texts(args@);
    assert(t.len() == args@.len());
    if forall|i: int|
        0 <= i < args@.len() ==> !(#[trigger] args@[i])@.contains('\0') && text::byte_len(
            args@[i]@,
        ) <= 16384 {
        assert forall|i: int| 0 <= i < t.len() implies arg_ok(#[trigger] t[i]) by {
            assert(!args@[i]@.contains('\0'));
        }
    } else {
        let i = choose|i: int|
            0 <= i < args@.len() && !(!(#[trigger] args@[i])@.contains('\0') && text::byte_len(
                args@[i]@,
            ) <= 16384);
        assert(!arg_ok(t[i]));
    }
}

/// A terminal passes where its shell is one of the three, it is to last between
/// a minute and an hour, and it has columns and rows.
pub proof fn law_terminals_are_judged(
    shell: String,
    ttl_secs: u32,
    cols: u16,
    rows: u16,
    r: Result<Tier, String>,
)
    requires
        call_ensures(classify, (&TrustedOperation::RootPty { shell, ttl_secs, cols, rows },), r),
    ensures
        r is Ok <==> (shell@ == "/bin/bash"@ || shell@ == "/bin/sh"@ || shell@ == "/usr/bin/bash"@)
            && 60 <= ttl_secs <= 3600 && cols > 0 && rows > 0,
        r is Ok ==> r->Ok_0 == Tier::Two,
{
}

/// Two operations are the same where everything about them is, and a copy is
/// the same as what was copied.
pub proof fn law_sameness_is_total(
    a: &TrustedOperation,
    b: &TrustedOperation,
    same: bool,
    copy: TrustedOperation,
)
    requires
        call_ensures(same_operation, (a, b), same),
        call_ensures(copy_operation, (a,), copy),
    ensures
        same <==> (match (*a, *b) {
            (
                TrustedOperation::RootCommand { program: p, args: x, timeout_secs: t },
                TrustedOperation::RootCommand { program: q, args: y, timeout_secs: u },
            ) => p@ == q@ && text::texts(x@) == text::texts(y@) && t == u,
            (
                TrustedOperation::RootPty { shell: p, ttl_secs: t, cols: c, rows: h },
                TrustedOperation::RootPty { shell: q, ttl_secs: u, cols: d, rows: k },
            ) => p@ == q@ && t == u && c == d && h == k,
            _ => false,
        }),
        match (*a, copy) {
            (
                TrustedOperation::RootCommand { program: p, args: x, timeout_secs: t },
                TrustedOperation::RootCommand { program: q, args: y, timeout_secs: u },
            ) => p@ == q@ && text::texts(x@) == text::texts(y@) && t == u,
            (
                TrustedOperation::RootPty { shell: p, ttl_secs: t, cols: c, rows: h },
                TrustedOperation::RootPty { shell: q, ttl_secs: u, cols: d, rows: k },
            ) => p@ == q@ && t == u && c == d && h == k,
            _ => false,
        },
{
}

/// The policy in force is the configured one, else the built-in.
pub proof fn law_the_configured_policy_counts(configured: Option<&str>, r: String)
    requires
        call_ensures(policy_version, (configured,), r),
    ensures
        configured is Some ==> r@ == configured->0@,
        configured is None ==> r@ == "builtin-v1"@,
{
}

/// A refused command says which limit it breaks: that of its program, then that
/// of its arguments, then that of its time.
pub proof fn law_refused_commands_say_why(
    program: String,
    args: Vec<String>,
    timeout_secs: u32,
    r: Result<Tier, String>,
    short: Result<Tier, String>,
)
    requires
        call_ensures(
            classify,
            (&TrustedOperation::RootCommand { program, args, timeout_secs },),
            r,
        ),
        call_ensures(
            classify,
            (&TrustedOperation::RootCommand { program, args, timeout_secs: 1 },),
            short,
        ),
    ensures
        program@.len() == 0 || program@[0] != '/' || program@.contains('\0') || text::byte_len(
            program@,
        ) > 4096 ==> r is Err && r->Err_0@
            == "root command program must be a bounded absolute path"@,
        program@.len() > 0 && program@[0] == '/' && !program@.contains('\0') && text::byte_len(
            program@,
        ) <= 4096 && short is Err ==> r is Err && r->Err_0@
            == "root command arguments exceed policy limits"@,
        short is Ok && r is Err ==> r->Err_0@ == "root command timeout is outside policy limits"@,
{
}

/// A refused terminal says whether it is the shell or a limit.
pub proof fn law_refused_terminals_say_why(
    shell: String,
    ttl_secs: u32,
    cols: u16,
    rows: u16,
    r: Result<Tier, String>,
)
    requires
        call_ensures(classify, (&TrustedOperation::RootPty { shell, ttl_secs, cols, rows },), r),
    ensures
        r matches Err(e) ==> e@ == (if shell@ == "/bin/bash"@ || shell@ == "/bin/sh"@ || shell@
            == "/usr/bin/bash"@ {
            "root PTY limits are invalid"@
        } else {
            "root PTY shell is not locally allowed"@
        }),
{
}

}
