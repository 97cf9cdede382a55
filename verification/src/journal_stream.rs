//! Journal streams with any combination of filters, by the id that the
//! dashboard gave them.

use crate::argv;
use crate::registry::Registry;
use crate::text;
use vstd::prelude::*;

verus! {

/// What a stream shows.
#[derive(Debug)]
pub struct StreamArgs {
    pub stream_id: String,
    pub units: Vec<String>,
    pub priority: Option<String>,
    pub since: Option<String>,
    pub grep: Option<String>,
    pub identifier: Option<String>,
    pub lines: u32,
    pub follow: bool,
}

/// The priorities by name.
pub open spec fn priorities() -> Seq<Seq<char>> {
    seq![
        "emerg"@,
        "alert"@,
        "crit"@,
        "err"@,
        "warning"@,
        "notice"@,
        "info"@,
        "debug"@,
    ]
}

fn priority_names() -> (r: Vec<String>)
    ensures
        text::texts(r@) == priorities(),
{
    let mut r: Vec<String> = Vec::new();
    r.push(text::owned("emerg"));
    r.push(text::owned("alert"));
    r.push(text::owned("crit"));
    r.push(text::owned("err"));
    r.push(text::owned("warning"));
    r.push(text::owned("notice"));
    r.push(text::owned("info"));
    r.push(text::owned("debug"));
    assert(text::texts(r@) =~= priorities());
    r
}

/// A point in time, as an operator may write it.
pub open spec fn since_ok(s: Seq<char>) -> bool {
    argv::token_ok(s, " :+,.-"@, 64)
}

/// A pattern to look for: 1 to 256 characters, and no option.
pub open spec fn grep_ok(s: Seq<char>) -> bool {
    0 < s.len() <= 256 && !text::begins(s, '-')
}

/// Checks a unit name or an identifier.
pub fn is_safe_token(s: &str) -> (r: bool)
    ensures
        r == argv::unit_ok(s@),
{
    argv::is_unit(s)
}

/// Checks a point in time.
pub fn is_safe_since(s: &str) -> (r: bool)
    ensures
        r == since_ok(s@),
{
    argv::is_token(s, " :+,.-", 64)
}

/// The options in front of the filters.
pub open spec fn head_args(follow: bool, lines: u32) -> Seq<Seq<char>> {
    argv::with_option(seq!["--no-pager"@, "--output=short-iso"@], follow, "--follow"@).push(
        "--lines="@ + text::decimal(argv::backlog(lines)),
    )
}

/// The first unit that is not a unit's name.
pub open spec fn bad_unit(units: Seq<Seq<char>>) -> Option<Seq<char>>
    decreases units.len(),
{
    if units.len() == 0 {
        None
    } else {
        match bad_unit(units.drop_last()) {
            Some(u) => Some(u),
            None => if argv::unit_ok(units.last()) {
                None
            } else {
                Some(units.last())
            },
        }
    }
}

/// A filter for each unit.
pub open spec fn unit_args(args: Seq<Seq<char>>, units: Seq<Seq<char>>) -> Seq<Seq<char>>
    decreases units.len(),
{
    if units.len() == 0 {
        args
    } else {
        unit_args(args, units.drop_last()).push("-u"@).push(units.last())
    }
}

/// A filter where there is a value for it.
pub open spec fn filter(args: Seq<Seq<char>>, option: Seq<char>, value: Option<Seq<char>>) -> Seq<
    Seq<char>,
> {
    match value {
        Some(v) => args.push(option).push(v),
        None => args,
    }
}

/// Why a request is refused, if it is: the first filter that is wrong.
pub open spec fn refused(
    units: Seq<Seq<char>>,
    priority: Option<Seq<char>>,
    identifier: Option<Seq<char>>,
    since: Option<Seq<char>>,
    grep: Option<Seq<char>>,
) -> Option<Seq<char>> {
    if bad_unit(units) is Some {
        Some("invalid unit name: "@ + bad_unit(units)->0)
    } else if priority is Some && !priorities().contains(priority->0) {
        Some("invalid priority: "@ + priority->0)
    } else if identifier is Some && !argv::unit_ok(identifier->0) {
        Some("invalid identifier: "@ + identifier->0)
    } else if since is Some && !since_ok(since->0) {
        Some("invalid since value: "@ + since->0)
    } else if grep is Some && !grep_ok(grep->0) {
        Some("invalid grep pattern"@)
    } else {
        None
    }
}

/// The arguments for `journalctl`, or why the request is refused.
pub open spec fn argv_built(args: StreamArgs) -> Result<Seq<Seq<char>>, Seq<char>> {
    let units = text::texts(args.units@);
    let priority = text::opt_text(args.priority);
    let identifier = text::opt_text(args.identifier);
    let since = text::opt_text(args.since);
    let grep = text::opt_text(args.grep);
    match refused(units, priority, identifier, since, grep) {
        Some(e) => Err(e),
        None => Ok(
            filter(
                filter(
                    filter(
                        filter(
                            unit_args(head_args(args.follow, args.lines), units),
                            "-p"@,
                            priority,
                        ),
                        "-t"@,
                        identifier,
                    ),
                    "--since"@,
                    since,
                ),
                "-g"@,
                grep,
            ),
        ),
    }
}

proof fn lemma_bad_unit(units: Seq<Seq<char>>, n: int)
    requires
        0 <= n <= units.len(),
        bad_unit(units.take(n)) is Some,
    ensures
        bad_unit(units) == bad_unit(units.take(n)),
    decreases units.len() - n,
{
    if n == units.len() {
        assert(units.take(n) =~= units);
    } else {
        assert(units.take(n + 1).drop_last() =~= units.take(n));
        lemma_bad_unit(units, n + 1);
    }
}

fn push_units(argv: &mut Vec<String>, units: &[String]) -> (r: Option<String>)
    ensures
        text::opt_text(r) == bad_unit(text::texts(units@)),
        r is None ==> text::texts(final(argv)@) == unit_args(text::texts(old(argv)@), text::texts(units@)),
{
    let ghost first = text::texts(argv@);
    let ghost all = text::texts(units@);
    let mut i: usize = 0;
    assert(all.take(0) =~= Seq::empty());
    while i < units.len()
        invariant
            i <= units@.len(),
            all == text::texts(units@),
            bad_unit(all.take(i as int)) is None,
            text::texts(argv@) == unit_args(first, all.take(i as int)),
        decreases units@.len() - i,
    {
        assert(all.take(i + 1).drop_last() =~= all.take(i as int));
        assert(all.take(i + 1).last() == units@[i as int]@);
        if !is_safe_token(units[i].as_str()) {
            proof {
                lemma_bad_unit(all, i + 1);
            }
            return Some(text::owned(units[i].as_str()));
        }
        argv::push_pair(argv, "-u", units[i].as_str());
        i += 1;
    }
    assert(all.take(i as int) =~= all);
    None
}

fn push_filter(argv: &mut Vec<String>, option: &str, value: &Option<String>)
    ensures
        text::texts(final(argv)@) == filter(text::texts(old(argv)@), option@, text::opt_text(*value)),
{
    if let Some(v) = value {
        argv::push_pair(argv, option, v.as_str());
    }
}

/// The arguments in front of the filters.
pub fn head(follow: bool, lines: u32) -> (r: Vec<String>)
    ensures
        text::texts(r@) == head_args(follow, lines),
{
    broadcast use text::lemma_texts_push;

    let mut argv: Vec<String> = Vec::new();
    argv.push(text::owned("--no-pager"));
    argv.push(text::owned("--output=short-iso"));
    assert(text::texts(argv@) =~= seq!["--no-pager"@, "--output=short-iso"@]);
    argv::push_option(&mut argv, follow, "--follow");
    argv.push(argv::backlog_arg("--lines=", lines));
    argv
}

/// Builds the arguments for `journalctl`.
pub fn build_argv(args: &StreamArgs) -> (r: Result<Vec<String>, String>)
    ensures
        text::list_outcome(r) == argv_built(*args),
{
    let mut argv = head(args.follow, args.lines);
    if let Some(unit) = push_units(&mut argv, args.units.as_slice()) {
        return Err(text::join2("invalid unit name: ", unit.as_str()));
    }
    if let Some(p) = &args.priority {
        if !text::listed(priority_names().as_slice(), p.as_str()) {
            return Err(text::join2("invalid priority: ", p.as_str()));
        }
    }
    if let Some(id) = &args.identifier {
        if !is_safe_token(id.as_str()) {
            return Err(text::join2("invalid identifier: ", id.as_str()));
        }
    }
    if let Some(s) = &args.since {
        if !is_safe_since(s.as_str()) {
            return Err(text::join2("invalid since value: ", s.as_str()));
        }
    }
    if let Some(g) = &args.grep {
        let n = text::to_chars(g.as_str()).len();
        if n == 0 || n > 256 || text::starts_with_char(g.as_str(), '-') {
            return Err(text::owned("invalid grep pattern"));
        }
    }
    push_filter(&mut argv, "-p", &args.priority);
    push_filter(&mut argv, "-t", &args.identifier);
    push_filter(&mut argv, "--since", &args.since);
    push_filter(&mut argv, "-g", &args.grep);
    Ok(argv)
}

/// The running streams by id.
pub struct JournalStreams<H> {
    inner: Registry<H>,
}

impl<H> View for JournalStreams<H> {
    type V = Map<Seq<char>, H>;

    closed spec fn view(&self) -> Map<Seq<char>, H> {
        self.inner@
    }
}

impl<H> JournalStreams<H> {
    /// No id comes twice.
    pub closed spec fn well_formed(&self) -> bool {
        self.inner.well_formed()
    }

    /// No streams yet.
    pub fn new() -> (r: Self)
        ensures
            r.well_formed(),
            r@ == Map::<Seq<char>, H>::empty(),
    {
        JournalStreams { inner: Registry::new() }
    }

    /// Takes up a stream, and hands back the one that it supersedes.
    pub fn start(&mut self, stream_id: &str, stream: H) -> (r: Option<H>)
        requires
            old(self).well_formed(),
        ensures
            final(self).well_formed(),
            final(self)@ == old(self)@.insert(stream_id@, stream),
            match r {
                Some(h) => old(self)@.contains_key(stream_id@) && h == old(self)@[stream_id@],
                None => !old(self)@.contains_key(stream_id@),
            },
    {
        self.inner.insert(stream_id, stream)
    }

    /// Lets go of a stream, and hands it back.
    pub fn stop(&mut self, stream_id: &str) -> (r: Option<H>)
        requires
            old(self).well_formed(),
        ensures
            final(self).well_formed(),
            final(self)@ == old(self)@.remove(stream_id@),
            match r {
                Some(h) => old(self)@.contains_key(stream_id@) && h == old(self)@[stream_id@],
                None => !old(self)@.contains_key(stream_id@),
            },
    {
        self.inner.remove(stream_id)
    }
}

// ---------- laws ----------

/// Which of some arguments are values that came from outside.
pub open spec fn is_value(args: StreamArgs, v: Seq<char>) -> bool {
    ||| text::texts(args.units@).contains(v)
    ||| text::opt_text(args.priority) == Some(v)
    ||| text::opt_text(args.identifier) == Some(v)
    ||| text::opt_text(args.since) == Some(v)
    ||| text::opt_text(args.grep) == Some(v)
}

proof fn lemma_good_units(units: Seq<Seq<char>>, i: int)
    requires
        bad_unit(units) is None,
        0 <= i < units.len(),
    ensures
        argv::unit_ok(units[i]),
    decreases units.len(),
{
    if i < units.len() - 1 {
        lemma_good_units(units.drop_last(), i);
    }
}

/// No filter that gets through can be taken for an option: none starts with a
/// dash, and none is empty.
pub proof fn law_no_filter_is_an_option(args: StreamArgs, v: Seq<char>)
    requires
        argv_built(args) is Ok,
        is_value(args, v),
    ensures
        !text::begins(v, '-'),
        v.len() > 0,
{
    let units = text::texts(args.units@);
    if units.contains(v) {
        let i = choose|i: int| 0 <= i < units.len() && units[i] == v;
        lemma_good_units(units, i);
    }
    if text::opt_text(args.priority) == Some(v) {
        reveal_strlit("emerg");
        reveal_strlit("alert");
        reveal_strlit("crit");
        reveal_strlit("err");
        reveal_strlit("warning");
        reveal_strlit("notice");
        reveal_strlit("info");
        reveal_strlit("debug");
        let i = choose|i: int| 0 <= i < priorities().len() && priorities()[i] == v;
        assert(priorities()[i] == v);
    }
    if v.len() == 0 {
        assert(v =~= Seq::empty());
        assert(text::byte_len(v) == 0);
    }
}

/// The options in front of the filters, one by one.
pub proof fn law_heads_are_spelled(follow: bool, lines: u32)
    ensures
        head_args(follow, lines) == seq!["--no-pager"@, "--output=short-iso"@] + (if follow {
            seq!["--follow"@]
        } else {
            Seq::empty()
        }) + seq![
            "--lines="@ + text::decimal(
                if lines <= 10000 {
                    lines as nat
                } else {
                    10000
                },
            ),
        ],
{
}

proof fn lemma_unit_args(args: Seq<Seq<char>>, units: Seq<Seq<char>>)
    ensures
        unit_args(args, units) == args + units.map_values(|u: Seq<char>| seq!["-u"@, u]).flatten(),
    decreases units.len(),
{
    let pair = |u: Seq<char>| seq!["-u"@, u];
    let all = units.map_values(pair);
    if units.len() == 0 {
        assert(all =~= Seq::empty());
        assert(all.flatten() =~= Seq::<Seq<char>>::empty());
        assert(unit_args(args, units) =~= args + all.flatten());
    } else {
        let front = units.drop_last();
        lemma_unit_args(args, front);
        assert(all =~= front.map_values(pair).push(seq!["-u"@, units.last()]));
        front.map_values(pair).lemma_flatten_push(seq!["-u"@, units.last()]);
        assert(unit_args(args, units) =~= args + all.flatten());
    }
}

proof fn lemma_all_good(units: Seq<Seq<char>>)
    requires
        forall|i: int| 0 <= i < units.len() ==> argv::unit_ok(#[trigger] units[i]),
    ensures
        bad_unit(units) is None,
    decreases units.len(),
{
    if units.len() > 0 {
        let front = units.drop_last();
        assert forall|i: int| 0 <= i < front.len() implies argv::unit_ok(#[trigger] front[i]) by {
            assert(argv::unit_ok(units[i]));
        }
        lemma_all_good(front);
        assert(argv::unit_ok(units[units.len() - 1]));
    }
}

/// What a filter with a value comes to as arguments.
pub open spec fn filtered(option: Seq<char>, value: Option<String>) -> Seq<Seq<char>> {
    match value {
        Some(v) => seq![option, v@],
        None => Seq::empty(),
    }
}

proof fn lemma_filters(
    args: Seq<Seq<char>>,
    priority: Option<String>,
    identifier: Option<String>,
    since: Option<String>,
    grep: Option<String>,
)
    ensures
        filter(
            filter(
                filter(
                    filter(args, "-p"@, text::opt_text(priority)),
                    "-t"@,
                    text::opt_text(identifier),
                ),
                "--since"@,
                text::opt_text(since),
            ),
            "-g"@,
            text::opt_text(grep),
        ) == args + filtered("-p"@, priority) + filtered("-t"@, identifier) + filtered(
            "--since"@,
            since,
        ) + filtered("-g"@, grep),
{
    let p = filter(args, "-p"@, text::opt_text(priority));
    assert(p =~= args + filtered("-p"@, priority));
    let t = filter(p, "-t"@, text::opt_text(identifier));
    assert(t =~= p + filtered("-t"@, identifier));
    let s = filter(t, "--since"@, text::opt_text(since));
    assert(s =~= t + filtered("--since"@, since));
    let g = filter(s, "-g"@, text::opt_text(grep));
    assert(g =~= s + filtered("-g"@, grep));
}

/// What the units of a stream come to as arguments.
pub open spec fn units_given(units: Seq<Seq<char>>) -> Seq<Seq<char>> {
    units.map_values(|u: Seq<char>| seq!["-u"@, u]).flatten()
}

/// A stream shows the units, the priority, the identifier, the time and the
/// pattern that were asked for, each behind its own option.
pub proof fn law_filters_are_all_applied(args: &StreamArgs, r: Result<Vec<String>, String>)
    requires
        call_ensures(build_argv, (args,), r),
    ensures
        r matches Ok(v) ==> exists|head: Seq<Seq<char>>|
            #![trigger head + units_given(text::texts(args.units@))]
            text::texts(v@) == head + units_given(text::texts(args.units@)) + filtered(
                "-p"@,
                args.priority,
            ) + filtered("-t"@, args.identifier) + filtered("--since"@, args.since) + filtered(
                "-g"@,
                args.grep,
            ) && (args.follow ==> head == seq![
                "--no-pager"@,
                "--output=short-iso"@,
                "--follow"@,
                "--lines="@ + text::decimal(
                    if args.lines <= 10000 {
                        args.lines as nat
                    } else {
                        10000
                    },
                ),
            ]) && (!args.follow ==> head == seq![
                "--no-pager"@,
                "--output=short-iso"@,
                "--lines="@ + text::decimal(
                    if args.lines <= 10000 {
                        args.lines as nat
                    } else {
                        10000
                    },
                ),
            ]),
{
    law_heads_are_spelled(args.follow, args.lines);
    let head = head_args(args.follow, args.lines);
    let units = text::texts(args.units@);
    lemma_unit_args(head, units);
    lemma_filters(
        unit_args(head, units),
        args.priority,
        args.identifier,
        args.since,
        args.grep,
    );
    assert(head + units_given(text::texts(args.units@)) == unit_args(head, units));
    let n = text::decimal(
        if args.lines <= 10000 {
            args.lines as nat
        } else {
            10000
        },
    );
    if args.follow {
        assert(head =~= seq![
            "--no-pager"@,
            "--output=short-iso"@,
            "--follow"@,
            "--lines="@ + n,
        ]);
    } else {
        assert(head =~= seq!["--no-pager"@, "--output=short-iso"@, "--lines="@ + n]);
    }
}

/// A stream is refused where one of its filters is wrong, and only there.
pub proof fn law_wrong_filters_are_refused(args: &StreamArgs, r: Result<Vec<String>, String>)
    requires
        call_ensures(build_argv, (args,), r),
    ensures
        r is Ok <==> (forall|i: int|
            0 <= i < args.units@.len() ==> argv::unit_ok((#[trigger] args.units@[i])@)) && (
        args.priority matches Some(p) ==> p@ == "emerg"@ || p@ == "alert"@ || p@ == "crit"@ || p@
            == "err"@ || p@ == "warning"@ || p@ == "notice"@ || p@ == "info"@ || p@ == "debug"@)
            && (args.identifier matches Some(t) ==> argv::unit_ok(t@)) && (args.since
            matches Some(s) ==> since_ok(s@)) && (args.grep matches Some(g) ==> 0 < g@.len() <= 256
            && g@[0] != '-'),
{
    let units = text::texts(args.units@);
    if forall|i: int|
        0 <= i < args.units@.len() ==> argv::unit_ok((#[trigger] args.units@[i])@) {
        assert forall|i: int| 0 <= i < units.len() implies argv::unit_ok(#[trigger] units[i]) by {
            assert(argv::unit_ok(args.units@[i]@));
        }
        lemma_all_good(units);
    } else {
        let i = choose|i: int|
            0 <= i < args.units@.len() && !argv::unit_ok((#[trigger] args.units@[i])@);
        assert(units[i] == args.units@[i]@);
        if bad_unit(units) is None {
            lemma_good_units(units, i);
        }
    }
    if let Some(p) = args.priority {
        let l = priorities();
        assert(l[0] == "emerg"@ && l[1] == "alert"@ && l[2] == "crit"@ && l[3] == "err"@ && l[4]
            == "warning"@ && l[5] == "notice"@ && l[6] == "info"@ && l[7] == "debug"@ && l.len()
            == 8);
        if l.contains(p@) {
            let k = choose|k: int| 0 <= k < l.len() && l[k] == p@;
            assert(l[k] == p@);
        }
    }
}

/// A point in time is short, begins with no dash, and is made of letters,
/// digits and a few signs.
pub proof fn law_times_are_checked(s: &str, r: bool)
    requires
        call_ensures(is_safe_since, (s,), r),
    ensures
        r <==> s@.len() > 0 && text::byte_len(s@) <= 64 && s@[0] != '-' && forall|i: int|
            0 <= i < s@.len() ==> text::is_alnum(#[trigger] s@[i]) || s@[i] == ' ' || s@[i] == ':'
                || s@[i] == '+' || s@[i] == ',' || s@[i] == '.' || s@[i] == '-',
{
    reveal_strlit(" :+,.-");
    let t = " :+,.-"@;
    assert(t[0] == ' ' && t[1] == ':' && t[2] == '+' && t[3] == ',' && t[4] == '.' && t[5] == '-'
        && t.len() == 6);
    text::lemma_no_bytes(s@);
}

/// A stream that is taken up is there under its name, and hands back the one it
/// supersedes; a stream that is let go of is handed back and gone; the others
/// stay.
pub proof fn law_streams_come_and_go<H>(
    a: &mut JournalStreams<H>,
    b: &mut JournalStreams<H>,
    name: &str,
    stream: H,
    superseded: Option<H>,
    stopped: Option<H>,
    other: Seq<char>,
)
    requires
        call_ensures(JournalStreams::<H>::start, (a, name, stream), superseded),
        call_ensures(JournalStreams::<H>::stop, (b, name), stopped),
        other != name@,
    ensures
        final(a)@.contains_key(name@) && final(a)@[name@] == stream,
        final(a)@.contains_key(other) <==> old(a)@.contains_key(other),
        old(a)@.contains_key(other) ==> final(a)@[other] == old(a)@[other],
        superseded is Some <==> old(a)@.contains_key(name@),
        superseded matches Some(h) ==> h == old(a)@[name@],
        !final(b)@.contains_key(name@),
        final(b)@.contains_key(other) <==> old(b)@.contains_key(other),
        old(b)@.contains_key(other) ==> final(b)@[other] == old(b)@[other],
        stopped is Some <==> old(b)@.contains_key(name@),
        stopped matches Some(h) ==> h == old(b)@[name@],
{
}

/// A refused filter is named: a unit first, then the priority, the identifier,
/// the point in time and the pattern.
pub proof fn law_refused_filters_are_named(
    args: &StreamArgs,
    r: Result<Vec<String>, String>,
    i: int,
)
    requires
        call_ensures(build_argv, (args,), r),
        0 <= i <= args.units@.len(),
        forall|k: int| 0 <= k < i ==> argv::unit_ok((#[trigger] args.units@[k])@),
        i < args.units@.len() ==> !argv::unit_ok(args.units@[i]@),
    ensures
        i < args.units@.len() ==> r is Err && r->Err_0@ == "invalid unit name: "@
            + args.units@[i]@,
        i == args.units@.len() && r is Err ==> ({
            let e = r->Err_0@;
            let p = args.priority;
            let t = args.identifier;
            let s = args.since;
            ||| p is Some && e == "invalid priority: "@ + p->0@
            ||| t is Some && !argv::unit_ok(t->0@) && e == "invalid identifier: "@ + t->0@
            ||| s is Some && !since_ok(s->0@) && e == "invalid since value: "@ + s->0@
            ||| args.grep is Some && e == "invalid grep pattern"@
        }),
{
    let units = text::texts(args.units@);
    assert(units.len() == args.units@.len());
    assert forall|k: int| 0 <= k < i implies argv::unit_ok(#[trigger] units[k]) by {
        assert(argv::unit_ok(args.units@[k]@));
    }
    lemma_first_bad(units, i);
}

proof fn lemma_first_bad(units: Seq<Seq<char>>, i: int)
    requires
        0 <= i <= units.len(),
        forall|k: int| 0 <= k < i ==> argv::unit_ok(#[trigger] units[k]),
        i < units.len() ==> !argv::unit_ok(units[i]),
    ensures
        i < units.len() ==> bad_unit(units) == Some(units[i]),
        i == units.len() ==> bad_unit(units) is None,
    decreases units.len(),
{
    if i == units.len() {
        lemma_all_good(units);
    } else {
        let front = units.drop_last();
        assert forall|k: int| 0 <= k < i implies argv::unit_ok(#[trigger] front[k]) by {
            assert(argv::unit_ok(units[k]));
        }
        lemma_first_bad(front, i);
    }
}

}
