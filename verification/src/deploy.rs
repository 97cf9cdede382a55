//! Deployments: the arguments with which containers and services are created,
//! and what is read back.

use crate::argv;
use crate::output;
use crate::output::CommandOutput;
use crate::text;
use vstd::prelude::*;

verus! {

// ---------- the command line ----------

/// A command line, as far as it has been read.
#[verifier::ext_equal]
pub struct SplitState {
    /// The words that are complete.
    pub done: Seq<Seq<char>>,
    /// The word that is being read.
    pub cur: Seq<char>,
    /// The quote that is open.
    pub quote: Option<char>,
    /// Whether the next character is taken as it is.
    pub escaped: bool,
}

/// Nothing has been read.
pub open spec fn split_start() -> SplitState {
    SplitState { done: Seq::empty(), cur: Seq::empty(), quote: None, escaped: false }
}

/// One more character: a backslash takes the next one as it is, quotes keep
/// what is between them together, blanks separate.
pub open spec fn split_step(st: SplitState, c: char) -> SplitState {
    if st.escaped {
        SplitState { cur: st.cur.push(c), escaped: false, ..st }
    } else if c == '\\' {
        SplitState { escaped: true, ..st }
    } else if st.quote == Some(c) {
        SplitState { quote: None, ..st }
    } else if st.quote is Some {
        SplitState { cur: st.cur.push(c), ..st }
    } else if c == '"' || c == '\'' {
        SplitState { quote: Some(c), ..st }
    } else if text::is_space(c) {
        if st.cur.len() == 0 {
            st
        } else {
            SplitState { done: st.done.push(st.cur), cur: Seq::empty(), ..st }
        }
    } else {
        SplitState { cur: st.cur.push(c), ..st }
    }
}

/// Some more characters.
pub open spec fn split_run(st: SplitState, s: Seq<char>) -> SplitState
    decreases s.len(),
{
    if s.len() == 0 {
        st
    } else {
        split_step(split_run(st, s.drop_last()), s.last())
    }
}

/// The words of a command line.
pub open spec fn command_words(cmd: Seq<char>) -> Seq<Seq<char>> {
    let st = split_run(split_start(), cmd);
    if st.cur.len() == 0 {
        st.done
    } else {
        st.done.push(st.cur)
    }
}

/// Splits a command line into words, as a shell would: it respects quotes and
/// backslashes, and expands nothing.
pub fn split_command(cmd: &str) -> (r: Vec<String>)
    ensures
        text::texts(r@) == command_words(cmd@),
{
    broadcast use text::lemma_texts_push;

    let v = text::to_chars(cmd);
    let mut out: Vec<String> = Vec::new();
    let mut cur = String::new();
    let mut quote: Option<char> = None;
    let mut escaped = false;
    let mut i: usize = 0;
    assert(text::texts(out@) =~= Seq::empty());
    assert(cur@ =~= Seq::empty());
    assert(v@.take(0) =~= Seq::empty());
    while i < v.len()
        invariant
            i <= v@.len(),
            v@ == cmd@,
            split_run(split_start(), v@.take(i as int)) == (SplitState {
                done: text::texts(out@),
                cur: cur@,
                quote,
                escaped,
            }),
        decreases v@.len() - i,
    {
        let c = v[i];
        assert(v@.take(i + 1).drop_last() =~= v@.take(i as int));
        if escaped {
            cur.push(c);
            escaped = false;
        } else if c == '\\' {
            escaped = true;
        } else {
            match quote {
                Some(q) => if q == c {
                    quote = None;
                } else {
                    cur.push(c);
                },
                None => if c == '"' || c == '\'' {
                    quote = Some(c);
                } else if text::space(c) {
                    if !cur.as_str().is_empty() {
                        out.push(cur);
                        cur = String::new();
                        assert(cur@ =~= Seq::empty());
                    }
                } else {
                    cur.push(c);
                },
            }
        }
        i += 1;
    }
    assert(v@.take(i as int) =~= v@);
    if !cur.as_str().is_empty() {
        out.push(cur);
    }
    out
}

// ---------- requests ----------

/// A container to create.
#[derive(Debug)]
pub struct ContainerSpec {
    pub image: String,
    pub name: Option<String>,
    pub ports: Vec<String>,
    pub env: Vec<String>,
    pub volumes: Vec<String>,
    pub restart_policy: Option<String>,
    pub network: Option<String>,
    pub pull: bool,
    pub detached: bool,
    pub command: Option<String>,
}

/// A service to create.
#[derive(Debug)]
pub struct ServiceSpec {
    pub image: String,
    pub name: String,
    pub mode: Option<String>,
    pub replicas: Option<u64>,
    pub ports: Vec<String>,
    pub env: Vec<String>,
    pub mounts: Vec<String>,
    pub constraints: Vec<String>,
    pub networks: Vec<String>,
    pub restart_condition: Option<String>,
    pub command: Option<String>,
}

/// The words of the command, where there is one.
pub open spec fn words_of(command: Option<Seq<char>>) -> Seq<Seq<char>> {
    match command {
        Some(c) => command_words(c),
        None => Seq::empty(),
    }
}

/// The restart policy as an option: `no` needs none.
pub open spec fn with_restart(args: Seq<Seq<char>>, policy: Option<Seq<char>>) -> Seq<Seq<char>> {
    match policy {
        Some(p) => if text::trimmed(p) == "no"@ {
            args
        } else {
            argv::with_value(args, "--restart"@, p)
        },
        None => args,
    }
}

/// The option to pull, where it is asked for.
pub open spec fn with_pull(args: Seq<Seq<char>>, pull: bool) -> Seq<Seq<char>> {
    if pull {
        args.push("--pull"@).push("always"@)
    } else {
        args
    }
}

/// The options of a container.
pub open spec fn container_options(spec: ContainerSpec) -> Seq<Seq<char>> {
    let a = argv::with_option(seq!["run"@], spec.detached, "-d"@);
    let a = argv::with_optional(a, "--name"@, text::opt_text(spec.name));
    let a = argv::with_values(a, "-p"@, text::texts(spec.ports@));
    let a = argv::with_values(a, "-e"@, text::texts(spec.env@));
    let a = argv::with_values(a, "-v"@, text::texts(spec.volumes@));
    let a = with_restart(a, text::opt_text(spec.restart_policy));
    let a = argv::with_optional(a, "--network"@, text::opt_text(spec.network));
    with_pull(a, spec.pull)
}

/// The arguments that create a container, or why it is not.
pub open spec fn container_planned(spec: ContainerSpec) -> Result<Seq<Seq<char>>, Seq<char>> {
    if text::trimmed(spec.image@).len() == 0 {
        Err("image is required"@)
    } else {
        Ok(container_options(spec).push(spec.image@) + words_of(text::opt_text(spec.command)))
    }
}

fn push_command(args: &mut Vec<String>, command: &Option<String>)
    ensures
        text::texts(final(args)@) == text::texts(old(args)@) + words_of(text::opt_text(*command)),
{
    match command {
        Some(c) => argv::push_all(args, split_command(c.as_str()).as_slice()),
        None => {
            assert(text::texts(args@) + Seq::<Seq<char>>::empty() =~= text::texts(args@));
        },
    }
}

/// Plans the creation of a container.
pub fn plan_container(spec: &ContainerSpec) -> (r: Result<Vec<String>, String>)
    ensures
        text::list_outcome(r) == container_planned(*spec),
{
    broadcast use text::lemma_texts_push;

    if text::trim(spec.image.as_str()).as_str().is_empty() {
        return Err(text::owned("image is required"));
    }
    let mut args: Vec<String> = Vec::new();
    args.push(text::owned("run"));
    assert(text::texts(args@) =~= seq!["run"@]);
    argv::push_option(&mut args, spec.detached, "-d");
    argv::push_optional(&mut args, "--name", &spec.name);
    argv::push_values(&mut args, "-p", spec.ports.as_slice());
    argv::push_values(&mut args, "-e", spec.env.as_slice());
    argv::push_values(&mut args, "-v", spec.volumes.as_slice());
    if let Some(policy) = &spec.restart_policy {
        if !text::same(text::trim(policy.as_str()).as_str(), "no") {
            argv::push_value(&mut args, "--restart", policy.as_str());
        }
    }
    argv::push_optional(&mut args, "--network", &spec.network);
    if spec.pull {
        argv::push_pair(&mut args, "--pull", "always");
    }
    args.push(text::owned(spec.image.as_str()));
    push_command(&mut args, &spec.command);
    Ok(args)
}

/// The number of replicas as an option: a global service has none.
pub open spec fn with_replicas(
    args: Seq<Seq<char>>,
    mode: Option<Seq<char>>,
    replicas: Option<u64>,
) -> Seq<Seq<char>> {
    match replicas {
        Some(n) => if mode == Some("global"@) {
            args
        } else {
            args.push("--replicas"@).push(text::decimal(n as nat))
        },
        None => args,
    }
}

/// The options of a service.
pub open spec fn service_options(spec: ServiceSpec) -> Seq<Seq<char>> {
    let a = seq!["service"@, "create"@, "--detach=true"@, "--name"@, text::trimmed(spec.name@)];
    let a = argv::with_optional(a, "--mode"@, text::opt_text(spec.mode));
    let a = with_replicas(a, text::opt_text(spec.mode), spec.replicas);
    let a = argv::with_values(a, "--publish"@, text::texts(spec.ports@));
    let a = argv::with_values(a, "--env"@, text::texts(spec.env@));
    let a = argv::with_values(a, "--mount"@, text::texts(spec.mounts@));
    let a = argv::with_values(a, "--constraint"@, text::texts(spec.constraints@));
    let a = argv::with_values(a, "--network"@, text::texts(spec.networks@));
    argv::with_optional(a, "--restart-condition"@, text::opt_text(spec.restart_condition))
}

/// The arguments that create a service, or why it is not.
pub open spec fn service_planned(spec: ServiceSpec) -> Result<Seq<Seq<char>>, Seq<char>> {
    if text::trimmed(spec.image@).len() == 0 {
        Err("image is required"@)
    } else if text::trimmed(spec.name@).len() == 0 {
        Err("name is required"@)
    } else {
        Ok(service_options(spec).push(spec.image@) + words_of(text::opt_text(spec.command)))
    }
}

/// Plans the creation of a service.
pub fn plan_service(spec: &ServiceSpec) -> (r: Result<Vec<String>, String>)
    ensures
        text::list_outcome(r) == service_planned(*spec),
{
    broadcast use text::lemma_texts_push;

    if text::trim(spec.image.as_str()).as_str().is_empty() {
        return Err(text::owned("image is required"));
    }
    let name = text::trim(spec.name.as_str());
    if name.as_str().is_empty() {
        return Err(text::owned("name is required"));
    }
    let mut args: Vec<String> = Vec::new();
    args.push(text::owned("service"));
    args.push(text::owned("create"));
    args.push(text::owned("--detach=true"));
    args.push(text::owned("--name"));
    args.push(name);
    assert(text::texts(args@) =~= seq![
        "service"@,
        "create"@,
        "--detach=true"@,
        "--name"@,
        text::trimmed(spec.name@),
    ]);
    argv::push_optional(&mut args, "--mode", &spec.mode);
    if let Some(n) = spec.replicas {
        let global = match &spec.mode {
            Some(mode) => text::same(mode.as_str(), "global"),
            None => false,
        };
        if !global {
            argv::push_pair(&mut args, "--replicas", text::decimal_text(n).as_str());
        }
    }
    argv::push_values(&mut args, "--publish", spec.ports.as_slice());
    argv::push_values(&mut args, "--env", spec.env.as_slice());
    argv::push_values(&mut args, "--mount", spec.mounts.as_slice());
    argv::push_values(&mut args, "--constraint", spec.constraints.as_slice());
    argv::push_values(&mut args, "--network", spec.networks.as_slice());
    argv::push_optional(&mut args, "--restart-condition", &spec.restart_condition);
    args.push(text::owned(spec.image.as_str()));
    push_command(&mut args, &spec.command);
    Ok(args)
}

// ---------- reports ----------

/// What became of a creation.
#[derive(Debug)]
pub struct CreateReport {
    pub success: bool,
    pub id: Option<String>,
    pub log: String,
    pub error: Option<String>,
}

/// A report with its texts spelled out.
#[verifier::ext_equal]
pub struct CreateView {
    pub success: bool,
    pub id: Option<Seq<char>>,
    pub log: Seq<char>,
    pub error: Option<Seq<char>>,
}

impl View for CreateReport {
    type V = CreateView;

    open spec fn view(&self) -> CreateView {
        CreateView {
            success: self.success,
            id: text::opt_text(self.id),
            log: self.log@,
            error: text::opt_text(self.error),
        }
    }
}

/// Both streams of a command, one after the other.
pub open spec fn both_streams(stdout: Seq<char>, stderr: Seq<char>) -> Seq<char> {
    if stderr.len() == 0 {
        stdout
    } else if stdout.len() == 0 {
        stderr
    } else {
        stdout + "\n"@ + stderr
    }
}

/// Puts both streams of a command together.
pub fn collect_log(stdout: &str, stderr: &str) -> (r: String)
    ensures
        r@ == both_streams(stdout@, stderr@),
{
    if stderr.is_empty() {
        text::owned(stdout)
    } else if stdout.is_empty() {
        text::owned(stderr)
    } else {
        text::join3(stdout, "\n", stderr)
    }
}

/// A creation that did not get as far as running.
pub fn not_created(error: &str) -> (r: CreateReport)
    ensures
        r@ == (CreateView {
            success: false,
            id: None,
            log: Seq::empty(),
            error: Some(error@),
        }),
{
    let r = CreateReport {
        success: false,
        id: None,
        log: String::new(),
        error: Some(text::owned(error)),
    };
    assert(r.log@ =~= Seq::empty());
    r
}

/// A text without the blanks around it, unless nothing is left.
pub open spec fn said(s: Seq<char>) -> Option<Seq<char>> {
    if text::trimmed(s).len() == 0 {
        None
    } else {
        Some(text::trimmed(s))
    }
}

/// The last of some lines.
pub open spec fn last_line(rows: Seq<Seq<char>>) -> Seq<char> {
    if rows.len() == 0 {
        Seq::empty()
    } else {
        rows.last()
    }
}

/// The report on a creation, with the id that was found.
pub open spec fn created(out: output::OutputView, id: Option<Seq<char>>) -> CreateView {
    CreateView {
        success: out.success,
        id: if out.success {
            id
        } else {
            None
        },
        log: both_streams(out.stdout, out.stderr),
        error: if out.success {
            None
        } else {
            Some("exit code "@ + text::code_words(out.code))
        },
    }
}

fn say(s: &str) -> (r: Option<String>)
    ensures
        text::opt_text(r) == said(s@),
{
    let t = text::trim(s);
    if t.as_str().is_empty() {
        None
    } else {
        Some(t)
    }
}

fn report(out: &CommandOutput, id: Option<String>) -> (r: CreateReport)
    ensures
        r@ == created(out@, text::opt_text(id)),
{
    let log = collect_log(out.stdout.as_str(), out.stderr.as_str());
    if out.success {
        CreateReport { success: true, id, log, error: None }
    } else {
        let error = text::join2("exit code ", text::code_text(out.code).as_str());
        CreateReport { success: false, id: None, log, error: Some(error) }
    }
}

/// Reports on a container: its id is on the last line.
pub fn finish_container(out: &CommandOutput) -> (r: CreateReport)
    ensures
        r@ == created(out@, said(last_line(text::lines(out@.stdout)))),
{
    let rows = text::split_lines(out.stdout.as_str());
    assert(text::texts(rows@).len() == rows@.len());
    let id = if rows.len() == 0 {
        assert(text::trimmed(Seq::<char>::empty()) =~= Seq::empty());
        None
    } else {
        let n = rows.len();
        assert(text::texts(rows@)[n - 1] == rows@[n - 1]@);
        say(rows[n - 1].as_str())
    };
    report(out, id)
}

/// Reports on a service: its id is on the first line that is not blank.
pub fn finish_service(out: &CommandOutput) -> (r: CreateReport)
    ensures
        r@ == created(out@, said(text::first_said(text::lines(out@.stdout)))),
{
    let id = say(text::first_said_line(out.stdout.as_str()).as_str());
    report(out, id)
}

// ---------- laws ----------

/// Whether a command line is plain: no quotes and no backslashes.
pub open spec fn plain(cmd: Seq<char>) -> bool {
    forall|i: int|
        0 <= i < cmd.len() ==> #[trigger] cmd[i] != '"' && cmd[i] != '\'' && cmd[i] != '\\'
}

proof fn lemma_plain_run(cmd: Seq<char>)
    requires
        plain(cmd),
    ensures
        split_run(split_start(), cmd) == (SplitState {
            done: text::nonempty(text::space_pieces(cmd).drop_last()),
            cur: text::space_pieces(cmd).last(),
            quote: None,
            escaped: false,
        }),
        text::space_pieces(cmd).len() > 0,
    decreases cmd.len(),
{
    if cmd.len() == 0 {
        assert(text::space_pieces(cmd).drop_last() =~= Seq::empty());
    } else {
        let front = cmd.drop_last();
        assert(plain(front));
        lemma_plain_run(front);
        let c = cmd[cmd.len() - 1];
        let pieces = text::space_pieces(front);
        assert(c != '"' && c != '\'' && c != '\\');
        if text::is_space(c) {
            assert(text::space_pieces(cmd).drop_last() =~= pieces);
        } else {
            assert(text::space_pieces(cmd).drop_last() =~= pieces.drop_last());
        }
    }
}

/// Without quotes and backslashes a command line falls into its words.
pub proof fn law_plain_command_is_its_words(cmd: Seq<char>)
    requires
        plain(cmd),
    ensures
        command_words(cmd) == text::words(cmd),
{
    lemma_plain_run(cmd);
}

proof fn lemma_run_append(st: SplitState, a: Seq<char>, b: Seq<char>)
    ensures
        split_run(st, a + b) == split_run(split_run(st, a), b),
    decreases b.len(),
{
    if b.len() == 0 {
        assert(a + b =~= a);
    } else {
        assert((a + b).drop_last() =~= a + b.drop_last());
        lemma_run_append(st, a, b.drop_last());
    }
}

proof fn lemma_run_one(st: SplitState, c: char)
    ensures
        split_run(st, seq![c]) == split_step(st, c),
{
    assert(seq![c].drop_last() =~= Seq::empty());
    assert(split_run(st, seq![c].drop_last()) == st);
}

/// A word with a backslash before each of its characters.
pub open spec fn escaped_word(s: Seq<char>) -> Seq<char>
    decreases s.len(),
{
    if s.len() == 0 {
        Seq::empty()
    } else {
        escaped_word(s.drop_last()) + seq!['\\'] + seq![s.last()]
    }
}

proof fn lemma_escaped_run(st: SplitState, s: Seq<char>)
    requires
        !st.escaped,
    ensures
        split_run(st, escaped_word(s)) == (SplitState { cur: st.cur + s, ..st }),
    decreases s.len(),
{
    if s.len() == 0 {
        assert(st.cur + s =~= st.cur);
    } else {
        let front = escaped_word(s.drop_last());
        lemma_escaped_run(st, s.drop_last());
        let mid = split_run(st, front);
        lemma_run_append(st, front, seq!['\\']);
        lemma_run_one(mid, '\\');
        lemma_run_append(st, front + seq!['\\'], seq![s.last()]);
        lemma_run_one(split_step(mid, '\\'), s.last());
        assert((st.cur + s.drop_last()).push(s.last()) =~= st.cur + s);
    }
}

/// Words written out as a command line: escaped, with a blank between them.
pub open spec fn escaped_line(args: Seq<Seq<char>>) -> Seq<char>
    decreases args.len(),
{
    if args.len() == 0 {
        Seq::empty()
    } else if args.len() == 1 {
        escaped_word(args[0])
    } else {
        escaped_line(args.drop_last()) + seq![' '] + escaped_word(args.last())
    }
}

proof fn lemma_escaped_line(args: Seq<Seq<char>>)
    requires
        args.len() > 0,
        forall|i: int| 0 <= i < args.len() ==> (#[trigger] args[i]).len() > 0,
    ensures
        split_run(split_start(), escaped_line(args)) == (SplitState {
            done: args.drop_last(),
            cur: args.last(),
            quote: None,
            escaped: false,
        }),
    decreases args.len(),
{
    let st = split_start();
    if args.len() == 1 {
        lemma_escaped_run(st, args[0]);
        assert(args.drop_last() =~= Seq::empty());
        assert(st.cur + args[0] =~= args[0]);
    } else {
        let front = args.drop_last();
        assert forall|i: int| 0 <= i < front.len() implies (#[trigger] front[i]).len() > 0 by {
            assert(args[i].len() > 0);
        }
        lemma_escaped_line(front);
        let head = escaped_line(front);
        lemma_run_append(st, head, seq![' ']);
        lemma_run_one(split_run(st, head), ' ');
        assert(args[args.len() - 2].len() > 0);
        let mid = split_run(st, head + seq![' ']);
        assert(front.drop_last().push(front.last()) =~= front);
        assert(mid == SplitState {
            done: front,
            cur: Seq::empty(),
            quote: None,
            escaped: false,
        });
        lemma_run_append(st, head + seq![' '], escaped_word(args.last()));
        lemma_escaped_run(mid, args.last());
        assert(Seq::<char>::empty() + args.last() =~= args.last());
    }
}

/// Every list of words can be written as a command line that reads back as
/// that list, unless a word is empty: the command line cannot spell one.
pub proof fn law_escaped_words_read_back(args: Seq<Seq<char>>)
    requires
        forall|i: int| 0 <= i < args.len() ==> (#[trigger] args[i]).len() > 0,
    ensures
        command_words(escaped_line(args)) == args,
{
    if args.len() == 0 {
        assert(command_words(escaped_line(args)) =~= args);
    } else {
        lemma_escaped_line(args);
        assert(args[args.len() - 1].len() > 0);
        assert(args.drop_last().push(args.last()) =~= args);
    }
}

proof fn lemma_quoted_run(st: SplitState, q: char, s: Seq<char>)
    requires
        st.quote == Some(q),
        !st.escaped,
        !s.contains(q),
        !s.contains('\\'),
    ensures
        split_run(st, s) == (SplitState { cur: st.cur + s, ..st }),
    decreases s.len(),
{
    if s.len() == 0 {
        assert(st.cur + s =~= st.cur);
    } else {
        let front = s.drop_last();
        assert(s.contains(s[s.len() - 1]));
        assert(!front.contains(q)) by {
            if front.contains(q) {
                let i = choose|i: int| 0 <= i < front.len() && front[i] == q;
                assert(s[i] == q);
            }
        }
        assert(!front.contains('\\')) by {
            if front.contains('\\') {
                let i = choose|i: int| 0 <= i < front.len() && front[i] == '\\';
                assert(s[i] == '\\');
            }
        }
        lemma_quoted_run(st, q, front);
        assert((st.cur + front).push(s.last()) =~= st.cur + s);
    }
}

/// What stands between quotes stays one word, blanks and all.
pub proof fn law_quotes_keep_a_word_together(q: char, s: Seq<char>)
    requires
        q == '"' || q == '\'',
        s.len() > 0,
        !s.contains(q),
        !s.contains('\\'),
    ensures
        command_words(seq![q] + s + seq![q]) == seq![s],
{
    let st = split_start();
    lemma_run_one(st, q);
    lemma_run_append(st, seq![q], s);
    let open = split_run(st, seq![q]);
    lemma_quoted_run(open, q, s);
    lemma_run_append(st, seq![q] + s, seq![q]);
    lemma_run_one(split_run(st, seq![q] + s), q);
    assert(Seq::<char>::empty() + s =~= s);
    assert(Seq::<Seq<char>>::empty().push(s) =~= seq![s]);
}

/// A container is created from its image with every option that was given, in
/// the order of `docker`, and runs the words of its command.
pub proof fn law_containers_get_every_option(spec: &ContainerSpec, r: Result<Vec<String>, String>)
    requires
        call_ensures(plan_container, (spec,), r),
    ensures
        r is Ok <==> text::trimmed(spec.image@).len() > 0,
        r matches Err(e) ==> e@ == "image is required"@,
        r matches Ok(args) ==> text::texts(args@) == seq!["run"@] + (if spec.detached {
            seq!["-d"@]
        } else {
            Seq::empty()
        }) + argv::given("--name"@, text::opt_text(spec.name)) + argv::spelled(
            "-p"@,
            text::texts(spec.ports@),
        ) + argv::spelled("-e"@, text::texts(spec.env@)) + argv::spelled(
            "-v"@,
            text::texts(spec.volumes@),
        ) + (if spec.restart_policy is Some && text::trimmed(spec.restart_policy->0@) == "no"@ {
            Seq::empty()
        } else {
            argv::given("--restart"@, text::opt_text(spec.restart_policy))
        }) + argv::given("--network"@, text::opt_text(spec.network)) + (if spec.pull {
            seq!["--pull"@, "always"@]
        } else {
            Seq::empty()
        }) + seq![spec.image@] + (match spec.command {
            Some(c) => command_words(c@),
            None => Seq::empty(),
        }),
{
    if let Ok(args) = r {
        let a0 = seq!["run"@] + (if spec.detached {
            seq!["-d"@]
        } else {
            Seq::empty()
        });
        assert(argv::with_option(seq!["run"@], spec.detached, "-d"@) =~= a0);
        argv::law_given_values_are_spelled(a0, "--name"@, text::opt_text(spec.name));
        let a1 = a0 + argv::given("--name"@, text::opt_text(spec.name));
        argv::law_values_are_spelled(a1, "-p"@, text::texts(spec.ports@));
        let a2 = a1 + argv::spelled("-p"@, text::texts(spec.ports@));
        argv::law_values_are_spelled(a2, "-e"@, text::texts(spec.env@));
        let a3 = a2 + argv::spelled("-e"@, text::texts(spec.env@));
        argv::law_values_are_spelled(a3, "-v"@, text::texts(spec.volumes@));
        let a4 = a3 + argv::spelled("-v"@, text::texts(spec.volumes@));
        argv::law_given_values_are_spelled(a4, "--restart"@, text::opt_text(spec.restart_policy));
        let a5 = with_restart(a4, text::opt_text(spec.restart_policy));
        let restart = if spec.restart_policy is Some && text::trimmed(spec.restart_policy->0@)
            == "no"@ {
            Seq::empty()
        } else {
            argv::given("--restart"@, text::opt_text(spec.restart_policy))
        };
        assert(a5 =~= a4 + restart);
        argv::law_given_values_are_spelled(a5, "--network"@, text::opt_text(spec.network));
        let a6 = a5 + argv::given("--network"@, text::opt_text(spec.network));
        let pull = if spec.pull {
            seq!["--pull"@, "always"@]
        } else {
            Seq::empty()
        };
        assert(with_pull(a6, spec.pull) =~= a6 + pull);
        assert(container_options(*spec) == a6 + pull);
        assert(container_options(*spec).push(spec.image@) =~= a6 + pull + seq![spec.image@]);
    }
}

/// A service is created from its image under its name with every option that
/// was given, and runs the words of its command; a global one counts no
/// replicas.
pub proof fn law_services_get_every_option(spec: &ServiceSpec, r: Result<Vec<String>, String>)
    requires
        call_ensures(plan_service, (spec,), r),
    ensures
        r is Ok <==> text::trimmed(spec.image@).len() > 0 && text::trimmed(spec.name@).len() > 0,
        r matches Err(e) ==> e@ == "image is required"@ || e@ == "name is required"@,
        r matches Ok(args) ==> text::texts(args@) == seq![
            "service"@,
            "create"@,
            "--detach=true"@,
            "--name"@,
            text::trimmed(spec.name@),
        ] + argv::given("--mode"@, text::opt_text(spec.mode)) + (if spec.replicas is Some && !(
        spec.mode is Some && spec.mode->0@ == "global"@) {
            seq!["--replicas"@, text::decimal(spec.replicas->0 as nat)]
        } else {
            Seq::empty()
        }) + argv::spelled("--publish"@, text::texts(spec.ports@)) + argv::spelled(
            "--env"@,
            text::texts(spec.env@),
        ) + argv::spelled("--mount"@, text::texts(spec.mounts@)) + argv::spelled(
            "--constraint"@,
            text::texts(spec.constraints@),
        ) + argv::spelled("--network"@, text::texts(spec.networks@)) + argv::given(
            "--restart-condition"@,
            text::opt_text(spec.restart_condition),
        ) + seq![spec.image@] + (match spec.command {
            Some(c) => command_words(c@),
            None => Seq::empty(),
        }),
{
    if let Ok(args) = r {
        let a0 = seq![
            "service"@,
            "create"@,
            "--detach=true"@,
            "--name"@,
            text::trimmed(spec.name@),
        ];
        argv::law_given_values_are_spelled(a0, "--mode"@, text::opt_text(spec.mode));
        let a1 = a0 + argv::given("--mode"@, text::opt_text(spec.mode));
        let replicas = if spec.replicas is Some && !(spec.mode is Some && spec.mode->0@
            == "global"@) {
            seq!["--replicas"@, text::decimal(spec.replicas->0 as nat)]
        } else {
            Seq::empty()
        };
        let a2 = a1 + replicas;
        assert(with_replicas(a1, text::opt_text(spec.mode), spec.replicas) =~= a2);
        argv::law_values_are_spelled(a2, "--publish"@, text::texts(spec.ports@));
        let a3 = a2 + argv::spelled("--publish"@, text::texts(spec.ports@));
        argv::law_values_are_spelled(a3, "--env"@, text::texts(spec.env@));
        let a4 = a3 + argv::spelled("--env"@, text::texts(spec.env@));
        argv::law_values_are_spelled(a4, "--mount"@, text::texts(spec.mounts@));
        let a5 = a4 + argv::spelled("--mount"@, text::texts(spec.mounts@));
        argv::law_values_are_spelled(a5, "--constraint"@, text::texts(spec.constraints@));
        let a6 = a5 + argv::spelled("--constraint"@, text::texts(spec.constraints@));
        argv::law_values_are_spelled(a6, "--network"@, text::texts(spec.networks@));
        let a7 = a6 + argv::spelled("--network"@, text::texts(spec.networks@));
        argv::law_given_values_are_spelled(
            a7,
            "--restart-condition"@,
            text::opt_text(spec.restart_condition),
        );
        let a8 = a7 + argv::given(
            "--restart-condition"@,
            text::opt_text(spec.restart_condition),
        );
        assert(service_options(*spec) == a8);
        assert(a8.push(spec.image@) =~= a8 + seq![spec.image@]);
    }
}

/// A creation is reported as it ended: with the id where it went well, with the
/// exit code where it did not, and with all that was printed.
pub proof fn law_creations_are_reported(
    out: &CommandOutput,
    container: CreateReport,
    service: CreateReport,
)
    requires
        call_ensures(finish_container, (out,), container),
        call_ensures(finish_service, (out,), service),
    ensures
        container.success == out.success && service.success == out.success,
        out.success ==> container.error is None && service.error is None,
        !out.success ==> container.id is None && service.id is None && text::opt_text(
            container.error,
        ) == Some("exit code "@ + text::code_words(out.code)) && text::opt_text(service.error)
            == Some("exit code "@ + text::code_words(out.code)),
        out.stderr@.len() == 0 ==> container.log@ == out.stdout@ && service.log@ == out.stdout@,
        out.stdout@.len() == 0 ==> container.log@ == out.stderr@ && service.log@ == out.stderr@,
        out.stdout@.len() > 0 && out.stderr@.len() > 0 ==> container.log@ == out.stdout@ + "\n"@
            + out.stderr@ && service.log@ == out.stdout@ + "\n"@ + out.stderr@,
        out.success && text::lines(out.stdout@).len() > 0 && text::trimmed(
            text::lines(out.stdout@).last(),
        ).len() > 0 ==> container.id is Some && container.id->0@ == text::trimmed(
            text::lines(out.stdout@).last(),
        ),
        out.success && text::lines(out.stdout@).len() > 0 && text::trimmed(
            text::lines(out.stdout@)[0],
        ).len() > 0 ==> service.id is Some && service.id->0@ == text::trimmed(
            text::lines(out.stdout@)[0],
        ),
{
    assert(out@.success == out.success && out@.code == out.code && out@.stdout == out.stdout@
        && out@.stderr == out.stderr@);
    assert(container@.success == container.success && container@.id == text::opt_text(container.id)
        && container@.log == container.log@ && container@.error == text::opt_text(
        container.error,
    ));
    assert(service@.success == service.success && service@.id == text::opt_text(service.id)
        && service@.log == service.log@ && service@.error == text::opt_text(service.error));
}

/// A creation that did not run is reported as failed, with the reason.
pub proof fn law_nothing_created_says_why(error: &str, r: CreateReport)
    requires
        call_ensures(not_created, (error,), r),
    ensures
        !r.success,
        r.id is None,
        r.error is Some && r.error->0@ == error@,
{
    assert(r@.success == r.success && r@.id == text::opt_text(r.id) && r@.error == text::opt_text(
        r.error,
    ));
}

/// A service is refused for want of an image first, and then of a name.
pub proof fn law_refused_services_say_why(spec: &ServiceSpec, r: Result<Vec<String>, String>)
    requires
        call_ensures(plan_service, (spec,), r),
    ensures
        r matches Err(e) ==> e@ == (if text::trimmed(spec.image@).len() == 0 {
            "image is required"@
        } else {
            "name is required"@
        }),
{
}

}
