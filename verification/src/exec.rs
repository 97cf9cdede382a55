//! One-shot commands: which ones may run, how much of their output is kept,
//! and what is reported of them.

use crate::output;
use crate::text;
use vstd::prelude::*;
use vstd::slice::slice_subrange;

verus! {

// ---------- the outside functions ----------

/// The texts in a JSON array of texts, or what is wrong with the JSON.
pub uninterp spec fn json_texts(raw: Seq<char>) -> Result<Seq<Seq<char>>, Seq<char>>;

/// `serde_json::from_str` into a list of texts: a function of the JSON text,
/// its error as `Display` writes it.
#[verifier::external_body]
fn parse_json_texts(raw: &str) -> (r: Result<Vec<String>, String>)
    ensures
        text::list_outcome(r) == json_texts(raw@),
{
    serde_json::from_str::<Vec<String>>(raw).map_err(|e| e.to_string())
}

// ---------- the allow-list ----------

/// The entries of an allow-list: trimmed, and without the empty ones.
pub open spec fn entries_of(list: Seq<Seq<char>>) -> Seq<Seq<char>>
    decreases list.len(),
{
    if list.len() == 0 {
        Seq::empty()
    } else {
        let front = entries_of(list.drop_last());
        let entry = text::trimmed(list.last());
        if entry.len() == 0 {
            front
        } else {
            front.push(entry)
        }
    }
}

/// The allow-list in parsed JSON.
pub open spec fn allowlist_of(parsed: Result<Seq<Seq<char>>, Seq<char>>) -> Result<
    Seq<Seq<char>>,
    Seq<char>,
> {
    match parsed {
        Err(e) => Err("SHELLFLEET_EXEC_ALLOW_JSON must be a JSON array of strings: "@ + e),
        Ok(list) => if entries_of(list).len() == 0 {
            Err("SHELLFLEET_EXEC_ALLOW_JSON must contain at least one command"@)
        } else {
            Ok(entries_of(list))
        },
    }
}

/// The allow-list in the configured value.
pub open spec fn allowlist_parsed(raw: Option<Seq<char>>) -> Result<Seq<Seq<char>>, Seq<char>> {
    match raw {
        None => Err("SHELLFLEET_EXEC_ALLOW_JSON is not configured"@),
        Some(raw) => if text::trimmed(raw).len() == 0 {
            Err("SHELLFLEET_EXEC_ALLOW_JSON is not configured"@)
        } else {
            allowlist_of(json_texts(raw))
        },
    }
}

pub open spec fn raw_view(raw: Option<&str>) -> Option<Seq<char>> {
    match raw {
        Some(raw) => Some(raw@),
        None => None,
    }
}

/// Takes an allow-list from parsed JSON.
pub fn take_allowlist(parsed: &Result<Vec<String>, String>) -> (r: Result<Vec<String>, String>)
    ensures
        text::list_outcome(r) == allowlist_of(text::list_outcome(*parsed)),
{
    broadcast use text::lemma_texts_push;

    match parsed {
        Err(e) => Err(
            text::join2(
                "SHELLFLEET_EXEC_ALLOW_JSON must be a JSON array of strings: ",
                e.as_str(),
            ),
        ),
        Ok(list) => {
            let mut entries: Vec<String> = Vec::new();
            let mut i: usize = 0;
            assert(text::texts(entries@) =~= entries_of(text::texts(list@).take(0)));
            while i < list.len()
                invariant
                    i <= list@.len(),
                    text::texts(entries@) == entries_of(text::texts(list@).take(i as int)),
                decreases list@.len() - i,
            {
                let entry = text::trim(list[i].as_str());
                if !entry.as_str().is_empty() {
                    entries.push(entry);
                }
                i += 1;
                assert(text::texts(list@).take(i as int).drop_last() =~= text::texts(list@).take(i - 1));
                assert(text::texts(list@).take(i as int).last() == list@[i - 1]@);
            }
            assert(text::texts(list@).take(i as int) =~= text::texts(list@));
            assert(text::texts(entries@).len() == entries@.len());
            if entries.len() == 0 {
                return Err(
                    text::owned("SHELLFLEET_EXEC_ALLOW_JSON must contain at least one command"),
                );
            }
            Ok(entries)
        },
    }
}

/// Parses the configured allow-list.
pub fn parse_command_allowlist(raw: Option<&str>) -> (r: Result<Vec<String>, String>)
    ensures
        text::list_outcome(r) == allowlist_parsed(raw_view(raw)),
{
    match raw {
        None => Err(text::owned("SHELLFLEET_EXEC_ALLOW_JSON is not configured")),
        Some(raw) => {
            if text::trim(raw).as_str().is_empty() {
                return Err(text::owned("SHELLFLEET_EXEC_ALLOW_JSON is not configured"));
            }
            take_allowlist(&parse_json_texts(raw))
        },
    }
}

/// Whether a command is on an allow-list, as a whole.
pub open spec fn allowed(command: Seq<char>, allowlist: Seq<Seq<char>>) -> bool {
    text::trimmed(command).len() > 0 && allowlist.contains(text::trimmed(command))
}

/// Tests whether a command is on an allow-list.
pub fn command_allowed(command: &str, allowlist: &[String]) -> (r: bool)
    ensures
        r == allowed(command@, text::texts(allowlist@)),
{
    let wanted = text::trim(command);
    if wanted.as_str().is_empty() {
        return false;
    }
    text::listed(allowlist, wanted.as_str())
}

/// Whether commands may run at all: only with an allow-list.
pub fn enabled(raw: Option<&str>) -> (r: bool)
    ensures
        r == (allowlist_parsed(raw_view(raw)) is Ok),
{
    parse_command_allowlist(raw).is_ok()
}

// ---------- results ----------

/// What became of a command.
#[derive(Debug)]
pub struct ExecResult {
    pub exit_code: i32,
    pub stdout: String,
    pub stderr: String,
    pub error: Option<String>,
    pub truncated: bool,
    pub timed_out: bool,
    pub duration_ms: u64,
}

/// A result with its texts spelled out.
#[verifier::ext_equal]
pub struct ExecView {
    pub exit_code: i32,
    pub stdout: Seq<char>,
    pub stderr: Seq<char>,
    pub error: Option<Seq<char>>,
    pub truncated: bool,
    pub timed_out: bool,
    pub duration_ms: u64,
}

impl View for ExecResult {
    type V = ExecView;

    open spec fn view(&self) -> ExecView {
        ExecView {
            exit_code: self.exit_code,
            stdout: self.stdout@,
            stderr: self.stderr@,
            error: text::opt_text(self.error),
            truncated: self.truncated,
            timed_out: self.timed_out,
            duration_ms: self.duration_ms,
        }
    }
}

/// The result of a command that did not start.
pub open spec fn not_started(error: Seq<char>, duration_ms: u64) -> ExecView {
    ExecView {
        exit_code: (-1) as i32,
        stdout: Seq::empty(),
        stderr: Seq::empty(),
        error: Some(error),
        truncated: false,
        timed_out: false,
        duration_ms,
    }
}

fn unstarted(error: String, duration_ms: u64) -> (r: ExecResult)
    ensures
        r@ == not_started(error@, duration_ms),
{
    let r = ExecResult {
        exit_code: -1,
        stdout: String::new(),
        stderr: String::new(),
        error: Some(error),
        truncated: false,
        timed_out: false,
        duration_ms,
    };
    assert(r@ =~= not_started(error@, duration_ms));
    r
}

/// The result of a command that was blocked.
pub fn blocked_result(error: String) -> (r: ExecResult)
    ensures
        r@ == not_started(error@, 0),
{
    unstarted(error, 0)
}

/// The result of a command whose shell could not be started.
pub fn spawn_failed(error: &str, duration_ms: u64) -> (r: ExecResult)
    ensures
        r@ == not_started("spawn failed: "@ + error@, duration_ms),
{
    unstarted(text::join2("spawn failed: ", error), duration_ms)
}

/// Why a command is blocked, if it is.
pub open spec fn block(raw: Option<Seq<char>>, command: Seq<char>) -> Option<Seq<char>> {
    match allowlist_parsed(raw) {
        Err(e) => Some(e),
        Ok(list) => if allowed(command, list) {
            None
        } else {
            Some("command blocked by agent execution allow-list"@)
        },
    }
}

/// Lets a command through, or gives the result of blocking it.
pub fn gate(raw: Option<&str>, command: &str) -> (r: Option<ExecResult>)
    ensures
        match r {
            None => block(raw_view(raw), command@) is None,
            Some(result) => block(raw_view(raw), command@) is Some && result@ == not_started(
                block(raw_view(raw), command@)->0,
                0,
            ),
        },
{
    match parse_command_allowlist(raw) {
        Err(e) => Some(blocked_result(e)),
        Ok(list) => if command_allowed(command, list.as_slice()) {
            None
        } else {
            Some(blocked_result(text::owned("command blocked by agent execution allow-list")))
        },
    }
}

/// How long a command may run, in seconds: between a second and an hour.
pub fn timeout_secs(wanted: u64) -> (r: u64)
    ensures
        r == (if wanted < 1 {
            1
        } else if wanted > 3600 {
            3600
        } else {
            wanted as int
        }),
{
    if wanted < 1 {
        1
    } else if wanted > 3600 {
        3600
    } else {
        wanted
    }
}

// ---------- the output budget ----------

/// The bytes that both streams of a command may still produce.
#[derive(Debug)]
pub struct Budget {
    pub left: usize,
}

/// What a reader does with the bytes that it just read.
#[derive(Debug, Clone, Copy, PartialEq, Eq, Structural)]
pub enum ReadStep {
    /// The stream has ended.
    End,
    /// Keep all of them and read on.
    Keep,
    /// Keep that many, report that the limit is reached, and stop.
    Last(usize),
}

impl Budget {
    /// Takes bytes from the budget, as far as it goes.
    pub fn reserve(&mut self, n: usize) -> (r: usize)
        ensures
            r == (if n <= old(self).left {
                n
            } else {
                old(self).left
            }),
            final(self).left == old(self).left - r,
    {
        let take: usize = if n <= self.left {
            n
        } else {
            self.left
        };
        self.left = self.left - take;
        take
    }

    /// Decides on a read of some bytes.
    pub fn read(&mut self, n: usize) -> (r: ReadStep)
        ensures
            r == (if n == 0 {
                ReadStep::End
            } else if n <= old(self).left {
                ReadStep::Keep
            } else {
                ReadStep::Last(old(self).left)
            }),
            final(self).left == old(self).left - kept_of(old(self).left as nat, n as nat),
    {
        if n == 0 {
            return ReadStep::End;
        }
        let reserved = self.reserve(n);
        if reserved < n {
            ReadStep::Last(reserved)
        } else {
            ReadStep::Keep
        }
    }
}

/// How many of some bytes a budget covers.
pub open spec fn kept_of(left: nat, n: nat) -> nat {
    if n <= left {
        n
    } else {
        left
    }
}

/// How many bytes a budget covers over a run of reads.
pub open spec fn kept_over(left: nat, reads: Seq<nat>) -> nat
    decreases reads.len(),
{
    if reads.len() == 0 {
        0
    } else {
        let before = kept_over(left, reads.drop_last());
        before + kept_of((left - before) as nat, reads.last())
    }
}

/// Chunks end to end.
pub open spec fn flat(chunks: Seq<Vec<u8>>) -> Seq<u8>
    decreases chunks.len(),
{
    if chunks.len() == 0 {
        Seq::empty()
    } else {
        flat(chunks.drop_last()) + chunks.last()@
    }
}

proof fn lemma_flat_prefix(chunks: Seq<Vec<u8>>, n: int)
    requires
        0 <= n <= chunks.len(),
    ensures
        flat(chunks.take(n)).is_prefix_of(flat(chunks)),
    decreases chunks.len() - n,
{
    if n == chunks.len() {
        assert(chunks.take(n) =~= chunks);
        assert(flat(chunks) =~= flat(chunks).subrange(0, flat(chunks).len() as int));
    } else {
        lemma_flat_prefix(chunks, n + 1);
        assert(chunks.take(n + 1).drop_last() =~= chunks.take(n));
        let a = flat(chunks.take(n));
        let b = flat(chunks.take(n + 1));
        let c = flat(chunks);
        assert(a =~= c.subrange(0, a.len() as int)) by {
            assert forall|i: int| 0 <= i < a.len() implies a[i] == c[i] by {
                assert(b[i] == a[i]);
                assert(c.subrange(0, b.len() as int)[i] == c[i]);
            }
        }
    }
}

/// Puts chunks together, up to a cap.
pub fn gather(chunks: &[Vec<u8>], cap: usize) -> (r: Vec<u8>)
    ensures
        r@ == output::capped(flat(chunks@), cap as int),
{
    let mut buf: Vec<u8> = Vec::new();
    let mut i: usize = 0;
    assert(buf@ =~= flat(chunks@.take(0)));
    while i < chunks.len()
        invariant
            i <= chunks@.len(),
            buf@ == flat(chunks@.take(i as int)),
            buf@.len() <= cap,
        decreases chunks@.len() - i,
    {
        let room: usize = cap - buf.len();
        assert(chunks@.take(i + 1).drop_last() =~= chunks@.take(i as int));
        if chunks[i].len() > room {
            let ghost before = buf@;
            let mut part = text::copy_bytes(slice_subrange(chunks[i].as_slice(), 0, room));
            buf.append(&mut part);
            proof {
                lemma_flat_prefix(chunks@, i + 1);
                let whole = flat(chunks@);
                let now = flat(chunks@.take(i + 1));
                assert(now == before + chunks@[i as int]@);
                assert(now == whole.subrange(0, now.len() as int));
                assert(buf@ =~= whole.take(cap as int)) by {
                    assert forall|k: int| 0 <= k < cap implies buf@[k] == whole[k] by {
                        assert(now[k] == whole.subrange(0, now.len() as int)[k]);
                        assert(buf@[k] == now[k]);
                    }
                }
            }
            return buf;
        }
        let mut part = text::copy_bytes(chunks[i].as_slice());
        buf.append(&mut part);
        i += 1;
    }
    assert(chunks@.take(i as int) =~= chunks@);
    buf
}

/// The text of some chunks, up to a cap.
pub fn concatenate(chunks: &[Vec<u8>], cap: usize) -> (r: String)
    ensures
        r@ == output::lossy_text(output::capped(flat(chunks@), cap as int)),
{
    output::decode_output(gather(chunks, cap).as_slice())
}

// ---------- the end of a run ----------

/// What ended the wait for a command.
#[derive(Debug)]
pub enum WaitEnd {
    /// It exited, with a code if it has one.
    Exited(Option<i32>),
    /// Its time was up.
    Deadline,
    /// It wrote more than the budget.
    Limit,
}

/// How a reader of one of the streams ended.
#[derive(Debug)]
pub enum ReaderEnd {
    Done,
    ReadFailed(String),
    JoinFailed(String),
    /// It was still reading when the grace period was over.
    Aborted,
}

/// Whether a command is killed, with its group.
pub fn must_kill(end: &WaitEnd) -> (r: bool)
    ensures
        r == !(end is Exited),
{
    match end {
        WaitEnd::Exited(_) => false,
        _ => true,
    }
}

/// What a reader has to complain about.
pub open spec fn complaint(end: ReaderEnd) -> Option<Seq<char>> {
    match end {
        ReaderEnd::ReadFailed(e) => Some("reader: "@ + e@),
        ReaderEnd::JoinFailed(e) => Some("join: "@ + e@),
        _ => None,
    }
}

/// The complaints of both readers.
pub open spec fn complaints(out: Option<Seq<char>>, err: Option<Seq<char>>) -> Option<Seq<char>> {
    match (out, err) {
        (Some(a), Some(b)) => Some("stdout: "@ + a + ", stderr: "@ + b),
        (Some(a), None) => Some(a),
        (None, Some(b)) => Some(b),
        (None, None) => None,
    }
}

/// The result of a command that ran.
pub open spec fn assembled(
    wait: WaitEnd,
    out_end: ReaderEnd,
    err_end: ReaderEnd,
    stdout: Seq<char>,
    stderr: Seq<char>,
    limited: bool,
    duration_ms: u64,
) -> ExecView {
    ExecView {
        exit_code: match wait {
            WaitEnd::Exited(Some(code)) => code,
            _ => (-1) as i32,
        },
        stdout,
        stderr,
        error: complaints(complaint(out_end), complaint(err_end)),
        truncated: limited || !(out_end is Done) || !(err_end is Done),
        timed_out: wait is Deadline,
        duration_ms,
    }
}

fn complain(end: &ReaderEnd) -> (r: Option<String>)
    ensures
        text::opt_text(r) == complaint(*end),
{
    match end {
        ReaderEnd::ReadFailed(e) => Some(text::join2("reader: ", e.as_str())),
        ReaderEnd::JoinFailed(e) => Some(text::join2("join: ", e.as_str())),
        _ => None,
    }
}

fn reader_done(end: &ReaderEnd) -> (r: bool)
    ensures
        r == (end is Done),
{
    match end {
        ReaderEnd::Done => true,
        _ => false,
    }
}

/// Assembles the result of a command that ran.
pub fn assemble(
    wait: &WaitEnd,
    out_end: &ReaderEnd,
    err_end: &ReaderEnd,
    stdout: String,
    stderr: String,
    limited: bool,
    duration_ms: u64,
) -> (r: ExecResult)
    ensures
        r@ == assembled(*wait, *out_end, *err_end, stdout@, stderr@, limited, duration_ms),
{
    let exit_code: i32 = match wait {
        WaitEnd::Exited(Some(code)) => *code,
        _ => -1,
    };
    let timed_out = match wait {
        WaitEnd::Deadline => true,
        _ => false,
    };
    let error = match (complain(out_end), complain(err_end)) {
        (Some(a), Some(b)) => Some(text::join4("stdout: ", a.as_str(), ", stderr: ", b.as_str())),
        (Some(a), None) => Some(a),
        (None, Some(b)) => Some(b),
        (None, None) => None,
    };
    ExecResult {
        exit_code,
        stdout,
        stderr,
        error,
        truncated: limited || !reader_done(out_end) || !reader_done(err_end),
        timed_out,
        duration_ms,
    }
}

// ---------- the course of a run ----------

/// How far a command has come, which says what is to be done next.
#[derive(Debug)]
pub enum ExecRun {
    /// Start `/bin/sh` with these arguments, in a group of its own.
    Starting { argv: Vec<String>, timeout_secs: u64 },
    /// Wait until it exits, until so many seconds are over, or until its output
    /// goes over the budget.
    Waiting { timeout_secs: u64 },
    /// Kill it with its group, and wait for it.
    Killing { end: WaitEnd },
    /// Wait for the readers that have not ended, through the grace period.
    Reading { end: WaitEnd, out: Option<ReaderEnd>, err: Option<ReaderEnd> },
    /// Stop the readers that have not ended, and kill the group.
    Aborting { end: WaitEnd, out: Option<ReaderEnd>, err: Option<ReaderEnd> },
    /// Collect what the readers kept.
    Collecting { end: WaitEnd, out_end: ReaderEnd, err_end: ReaderEnd },
    Over { result: ExecResult },
}

/// What came of it.
#[derive(Debug)]
pub enum ExecEvent {
    Started,
    StartFailed { error: String, duration_ms: u64 },
    Ended(WaitEnd),
    Killed,
    OutEnded(ReaderEnd),
    ErrEnded(ReaderEnd),
    GraceOver,
    Aborted,
    Collected {
        stdout: Vec<Vec<u8>>,
        stderr: Vec<Vec<u8>>,
        cap: usize,
        limited: bool,
        duration_ms: u64,
    },
}

/// Whether an event can come of what is being done for a command.
pub open spec fn exec_expects(run: ExecRun, event: ExecEvent) -> bool {
    match run {
        ExecRun::Starting { argv, timeout_secs } => event is Started || event is StartFailed,
        ExecRun::Waiting { timeout_secs } => event is Ended,
        ExecRun::Killing { end } => event is Killed,
        ExecRun::Reading { end, out, err } => event is GraceOver || (event is OutEnded
            && out is None) || (event is ErrEnded && err is None),
        ExecRun::Aborting { end, out, err } => event is Aborted,
        ExecRun::Collecting { end, out_end, err_end } => event is Collected,
        ExecRun::Over { result } => false,
    }
}

/// How many seconds a command may run.
pub open spec fn clamped_timeout(wanted: u64) -> u64 {
    if wanted < 1 {
        1
    } else if wanted > 3600 {
        3600
    } else {
        wanted
    }
}

/// Whether a command begins as it should: a command off the allow-list is over
/// before it started.
pub open spec fn exec_begun(
    raw: Option<Seq<char>>,
    command: Seq<char>,
    wanted: u64,
    run: ExecRun,
) -> bool {
    match block(raw, command) {
        Some(e) => run matches ExecRun::Over { result } && result@ == not_started(e, 0),
        None => run matches ExecRun::Starting { argv, timeout_secs } && text::texts(argv@) == seq![
            "-c"@,
            command,
        ] && timeout_secs == clamped_timeout(wanted),
    }
}

/// What is done about the readers: they are waited for while one has not
/// ended.
pub open spec fn readers_seen(
    end: WaitEnd,
    out: Option<ReaderEnd>,
    err: Option<ReaderEnd>,
    after: ExecRun,
) -> bool {
    if out is Some && err is Some {
        after == (ExecRun::Collecting { end, out_end: out->0, err_end: err->0 })
    } else {
        after == (ExecRun::Reading { end, out, err })
    }
}

/// How a reader ended, where one that did not was stopped.
pub open spec fn or_aborted(end: Option<ReaderEnd>) -> ReaderEnd {
    match end {
        Some(end) => end,
        None => ReaderEnd::Aborted,
    }
}

/// Whether a command goes on as it should.
pub open spec fn exec_stepped(run: ExecRun, event: ExecEvent, after: ExecRun) -> bool {
    match (run, event) {
        (ExecRun::Starting { argv, timeout_secs }, ExecEvent::Started) => after
            == (ExecRun::Waiting { timeout_secs }),
        (
            ExecRun::Starting { argv, timeout_secs },
            ExecEvent::StartFailed { error, duration_ms },
        ) => after matches ExecRun::Over { result } && result@ == not_started(
            "spawn failed: "@ + error@,
            duration_ms,
        ),
        (ExecRun::Waiting { timeout_secs }, ExecEvent::Ended(end)) => if end is Exited {
            after == (ExecRun::Reading { end, out: None, err: None })
        } else {
            after == (ExecRun::Killing { end })
        },
        (ExecRun::Killing { end }, ExecEvent::Killed) => after == (ExecRun::Reading {
            end,
            out: None,
            err: None,
        }),
        (ExecRun::Reading { end, out, err }, ExecEvent::OutEnded(e)) => readers_seen(
            end,
            Some(e),
            err,
            after,
        ),
        (ExecRun::Reading { end, out, err }, ExecEvent::ErrEnded(e)) => readers_seen(
            end,
            out,
            Some(e),
            after,
        ),
        (ExecRun::Reading { end, out, err }, ExecEvent::GraceOver) => after
            == (ExecRun::Aborting { end, out, err }),
        (ExecRun::Aborting { end, out, err }, ExecEvent::Aborted) => after
            == (ExecRun::Collecting { end, out_end: or_aborted(out), err_end: or_aborted(err) }),
        (
            ExecRun::Collecting { end, out_end, err_end },
            ExecEvent::Collected { stdout, stderr, cap, limited, duration_ms },
        ) => after matches ExecRun::Over { result } && result@ == assembled(
            end,
            out_end,
            err_end,
            output::lossy_text(output::capped(flat(stdout@), cap as int)),
            output::lossy_text(output::capped(flat(stderr@), cap as int)),
            limited,
            duration_ms,
        ),
        _ => true,
    }
}

/// Begins a command.
pub fn begin(raw: Option<&str>, command: &str, wanted: u64) -> (r: ExecRun)
    ensures
        exec_begun(raw_view(raw), command@, wanted, r),
{
    match gate(raw, command) {
        Some(result) => ExecRun::Over { result },
        None => {
            let mut argv: Vec<String> = Vec::new();
            argv.push(text::owned("-c"));
            argv.push(text::owned(command));
            assert(text::texts(argv@) =~= seq!["-c"@, command@]);
            ExecRun::Starting { argv, timeout_secs: timeout_secs(wanted) }
        },
    }
}

fn see_readers(end: WaitEnd, out: Option<ReaderEnd>, err: Option<ReaderEnd>) -> (r: ExecRun)
    ensures
        readers_seen(end, out, err, r),
{
    match (out, err) {
        (Some(out_end), Some(err_end)) => ExecRun::Collecting { end, out_end, err_end },
        (out, err) => ExecRun::Reading { end, out, err },
    }
}

fn else_aborted(end: Option<ReaderEnd>) -> (r: ReaderEnd)
    ensures
        r == or_aborted(end),
{
    match end {
        Some(end) => end,
        None => ReaderEnd::Aborted,
    }
}

impl ExecRun {
    /// Takes a command one step on.
    pub fn step(self, event: ExecEvent) -> (r: ExecRun)
        requires
            exec_expects(self, event),
        ensures
            exec_stepped(self, event, r),
    {
        match (self, event) {
            (ExecRun::Starting { argv, timeout_secs }, ExecEvent::Started) => ExecRun::Waiting {
                timeout_secs,
            },
            (
                ExecRun::Starting { argv, timeout_secs },
                ExecEvent::StartFailed { error, duration_ms },
            ) => ExecRun::Over { result: spawn_failed(error.as_str(), duration_ms) },
            (ExecRun::Waiting { timeout_secs }, ExecEvent::Ended(end)) => if must_kill(&end) {
                ExecRun::Killing { end }
            } else {
                ExecRun::Reading { end, out: None, err: None }
            },
            (ExecRun::Killing { end }, ExecEvent::Killed) => ExecRun::Reading {
                end,
                out: None,
                err: None,
            },
            (ExecRun::Reading { end, out, err }, ExecEvent::OutEnded(e)) => see_readers(
                end,
                Some(e),
                err,
            ),
            (ExecRun::Reading { end, out, err }, ExecEvent::ErrEnded(e)) => see_readers(
                end,
                out,
                Some(e),
            ),
            (ExecRun::Reading { end, out, err }, ExecEvent::GraceOver) => ExecRun::Aborting {
                end,
                out,
                err,
            },
            (ExecRun::Aborting { end, out, err }, ExecEvent::Aborted) => ExecRun::Collecting {
                end,
                out_end: else_aborted(out),
                err_end: else_aborted(err),
            },
            (
                ExecRun::Collecting { end, out_end, err_end },
                ExecEvent::Collected { stdout, stderr, cap, limited, duration_ms },
            ) => {
                let stdout = concatenate(stdout.as_slice(), cap);
                let stderr = concatenate(stderr.as_slice(), cap);
                let result = assemble(
                    &end,
                    &out_end,
                    &err_end,
                    stdout,
                    stderr,
                    limited,
                    duration_ms,
                );
                ExecRun::Over { result }
            },
            (run, _) => run,
        }
    }
}

// ---------- laws ----------

/// Nothing runs without an allow-list.
pub proof fn law_nothing_runs_without_an_allowlist(raw: Option<Seq<char>>, command: Seq<char>)
    requires
        raw is None || text::trimmed(raw->0).len() == 0,
    ensures
        block(raw, command) == Some("SHELLFLEET_EXEC_ALLOW_JSON is not configured"@),
{
}

/// Only complete commands match: what runs is, but for blanks around it, one
/// of the entries, and no entry is empty.
pub proof fn law_only_listed_commands_run(raw: Option<Seq<char>>, command: Seq<char>)
    requires
        block(raw, command) is None,
    ensures
        allowlist_parsed(raw) is Ok,
        exists|i: int|
            0 <= i < allowlist_parsed(raw)->Ok_0.len() && #[trigger] allowlist_parsed(
                raw,
            )->Ok_0[i] == text::trimmed(command) && text::trimmed(command).len() > 0,
{
    let list = allowlist_parsed(raw)->Ok_0;
    let i = choose|i: int| 0 <= i < list.len() && list[i] == text::trimmed(command);
    assert(list[i] == text::trimmed(command));
}

/// Both streams together never keep more than the budget, and lose nothing
/// while they are within it.
pub proof fn law_output_is_bounded(left: nat, reads: Seq<nat>)
    ensures
        kept_over(left, reads) <= left,
        kept_over(left, reads) <= total_of(reads),
        total_of(reads) <= left ==> kept_over(left, reads) == total_of(reads),
    decreases reads.len(),
{
    if reads.len() > 0 {
        law_output_is_bounded(left, reads.drop_last());
    }
}

/// The sum of some reads.
pub open spec fn total_of(reads: Seq<nat>) -> nat
    decreases reads.len(),
{
    if reads.len() == 0 {
        0
    } else {
        total_of(reads.drop_last()) + reads.last()
    }
}

/// Whether some states and events are a course that a command can take.
pub open spec fn exec_course(states: Seq<ExecRun>, events: Seq<ExecEvent>) -> bool {
    &&& states.len() == events.len() + 1
    &&& states[0] is Starting
    &&& forall|i: int|
        0 <= i < events.len() ==> #[trigger] exec_expects(states[i], events[i]) && exec_stepped(
            states[i],
            events[i],
            states[i + 1],
        )
}

/// Whether a state, where a command has ended, remembers that it overran.
pub open spec fn overran(run: ExecRun, end: WaitEnd) -> bool {
    match run {
        ExecRun::Killing { end: e } => e == end,
        ExecRun::Reading { end: e, out, err } => e == end,
        ExecRun::Aborting { end: e, out, err } => e == end,
        ExecRun::Collecting { end: e, out_end, err_end } => e == end,
        ExecRun::Over { result } => result@.timed_out == (end is Deadline)
            && result@.exit_code == (-1) as i32,
        _ => false,
    }
}

/// A command that overran is killed before anything is reported of it, and
/// then reported as such: as timed out where its time was up, and never with
/// an exit code of its own.
pub proof fn law_overruns_are_killed_and_reported(
    states: Seq<ExecRun>,
    events: Seq<ExecEvent>,
    i: int,
    j: int,
)
    requires
        exec_course(states, events),
        0 <= i < j <= events.len(),
        events[i] matches ExecEvent::Ended(end) && !(end is Exited),
    ensures
        states[i + 1] is Killing,
        overran(states[j], events[i]->Ended_0),
    decreases j - i,
{
    assert(exec_expects(states[i], events[i]));
    if j > i + 1 {
        law_overruns_are_killed_and_reported(states, events, i, j - 1);
        assert(exec_expects(states[j - 1], events[j - 1]));
    }
}

/// How many more events a command can see.
pub open spec fn exec_left(run: ExecRun) -> nat {
    match run {
        ExecRun::Starting { argv, timeout_secs } => 8,
        ExecRun::Waiting { timeout_secs } => 7,
        ExecRun::Killing { end } => 6,
        ExecRun::Reading { end, out, err } => 3 + (if out is None {
            1nat
        } else {
            0
        }) + (if err is None {
            1nat
        } else {
            0
        }),
        ExecRun::Aborting { end, out, err } => 2,
        ExecRun::Collecting { end, out_end, err_end } => 1,
        ExecRun::Over { result } => 0,
    }
}

/// A command always comes to an end: each event leaves fewer to come.
pub proof fn law_commands_end(run: ExecRun, event: ExecEvent, after: ExecRun)
    requires
        exec_expects(run, event),
        exec_stepped(run, event, after),
    ensures
        exec_left(after) < exec_left(run),
{
}

/// Chunks stand end to end: those of two lists are those of the first and then
/// those of the second, and a single chunk stands for itself.
pub proof fn law_chunks_stand_end_to_end(a: Seq<Vec<u8>>, b: Seq<Vec<u8>>, c: Vec<u8>)
    ensures
        flat(a + b) == flat(a) + flat(b),
        flat(seq![c]) == c@,
        flat(Seq::<Vec<u8>>::empty()).len() == 0,
    decreases b.len(),
{
    if b.len() == 0 {
        assert(a + b =~= a);
        assert(flat(a) + flat(b) =~= flat(a));
    } else {
        law_chunks_stand_end_to_end(a, b.drop_last(), c);
        assert((a + b).drop_last() =~= a + b.drop_last());
        assert(flat(a + b) =~= flat(a) + flat(b));
    }
    reveal_with_fuel(flat, 2);
    assert(seq![c].drop_last() =~= Seq::<Vec<u8>>::empty());
    assert(flat(seq![c]) =~= c@);
}

/// The first bytes, as many as the cap.
pub open spec fn first_bytes(bytes: Seq<u8>, cap: int, kept: Seq<u8>) -> bool {
    &&& bytes.len() <= cap ==> kept == bytes
    &&& bytes.len() > cap ==> kept.len() == cap && kept.is_prefix_of(bytes)
}

/// The result of a command holds the text of what was collected from each of
/// its streams, up to the cap; its own exit code, where it has one; and whether
/// its time ran out. A result that is not marked as cut short lacks nothing:
/// the budget held and both readers came to the end of their stream.
pub proof fn law_results_hold_what_was_collected(
    end: WaitEnd,
    out_end: ReaderEnd,
    err_end: ReaderEnd,
    stdout: Vec<Vec<u8>>,
    stderr: Vec<Vec<u8>>,
    cap: usize,
    limited: bool,
    duration_ms: u64,
    after: ExecRun,
)
    requires
        call_ensures(
            ExecRun::step,
            (
                ExecRun::Collecting { end, out_end, err_end },
                ExecEvent::Collected { stdout, stderr, cap, limited, duration_ms },
            ),
            after,
        ),
    ensures
        after is Over,
        exists|kept: Seq<u8>|
            first_bytes(flat(stdout@), cap as int, kept) && after->result.stdout@
                == #[trigger] output::lossy_text(kept),
        exists|kept: Seq<u8>|
            first_bytes(flat(stderr@), cap as int, kept) && after->result.stderr@
                == #[trigger] output::lossy_text(kept),
        end matches WaitEnd::Exited(Some(code)) ==> after->result.exit_code == code,
        !(end matches WaitEnd::Exited(Some(_))) ==> after->result.exit_code == -1,
        after->result.timed_out <==> end is Deadline,
        after->result.truncated <==> limited || !(out_end is Done) || !(err_end is Done),
        after->result.duration_ms == duration_ms,
        after->result.error is None <==> !(out_end is ReadFailed) && !(out_end is JoinFailed)
            && !(err_end is ReadFailed) && !(err_end is JoinFailed),
{
    let a = output::capped(flat(stdout@), cap as int);
    let b = output::capped(flat(stderr@), cap as int);
    assert(a =~= flat(stdout@).subrange(0, a.len() as int));
    assert(b =~= flat(stderr@).subrange(0, b.len() as int));
    assert(first_bytes(flat(stdout@), cap as int, a));
    assert(first_bytes(flat(stderr@), cap as int, b));
    assert(after->result@.stdout == output::lossy_text(a));
    assert(after->result@.stderr == output::lossy_text(b));
    assert(after->result.stdout@ == output::lossy_text(a));
    assert(after->result.stderr@ == output::lossy_text(b));
}

/// A result is put together from its parts, each in its place.
pub proof fn law_results_are_assembled(
    wait: &WaitEnd,
    out_end: &ReaderEnd,
    err_end: &ReaderEnd,
    stdout: String,
    stderr: String,
    limited: bool,
    duration_ms: u64,
    r: ExecResult,
)
    requires
        call_ensures(
            assemble,
            (wait, out_end, err_end, stdout, stderr, limited, duration_ms),
            r,
        ),
    ensures
        r.stdout@ == stdout@,
        r.stderr@ == stderr@,
        *wait matches WaitEnd::Exited(Some(code)) ==> r.exit_code == code,
        !(*wait matches WaitEnd::Exited(Some(_))) ==> r.exit_code == -1,
        r.timed_out <==> *wait is Deadline,
        r.truncated <==> limited || !(*out_end is Done) || !(*err_end is Done),
        r.duration_ms == duration_ms,
        *out_end is Done && *err_end is Done ==> r.error is None,
        *out_end matches ReaderEnd::ReadFailed(e) ==> (*err_end is Done ==> text::opt_text(r.error) == Some(
            "reader: "@ + e@,
        )),
        *err_end matches ReaderEnd::ReadFailed(e) ==> (*out_end is Done ==> text::opt_text(r.error) == Some(
            "reader: "@ + e@,
        )),
        *out_end matches ReaderEnd::JoinFailed(e) ==> (*err_end is Done ==> text::opt_text(r.error) == Some(
            "join: "@ + e@,
        )),
        *err_end matches ReaderEnd::JoinFailed(e) ==> (*out_end is Done ==> text::opt_text(r.error) == Some(
            "join: "@ + e@,
        )),
        *out_end matches ReaderEnd::ReadFailed(a) ==> (*err_end matches ReaderEnd::ReadFailed(b)
            ==> text::opt_text(r.error) == Some(
            "stdout: "@ + ("reader: "@ + a@) + ", stderr: "@ + ("reader: "@ + b@),
        )),
{
    assert(r@.stdout == r.stdout@ && r@.stderr == r.stderr@);
    assert(r@.error == text::opt_text(r.error));
}

/// What runs is the command as it was given, under the shell, for as long as
/// was asked, held between a second and an hour.
pub proof fn law_the_given_command_runs(
    raw: Option<&str>,
    command: &str,
    wanted: u64,
    run: ExecRun,
)
    requires
        call_ensures(begin, (raw, command, wanted), run),
    ensures
        run is Over || run is Starting,
        run matches ExecRun::Starting { argv, timeout_secs } ==> text::texts(argv@) == seq![
            "-c"@,
            command@,
        ] && 1 <= timeout_secs <= 3600 && (1 <= wanted <= 3600 ==> timeout_secs == wanted) && (
        wanted == 0 ==> timeout_secs == 1) && (wanted > 3600 ==> timeout_secs == 3600),
        run matches ExecRun::Over { result } ==> result.exit_code == -1 && result.error is Some
            && result.stdout@.len() == 0 && result.stderr@.len() == 0,
{
    if run is Over {
        assert(run->result@.error == text::opt_text(run->result.error));
        assert(run->result@.stdout == run->result.stdout@);
        assert(run->result@.stderr == run->result.stderr@);
    }
}

/// A listed command is let through, with or without blanks around it; any other
/// is blocked. Two commands that differ only in the blanks around them fare
/// alike.
pub proof fn law_the_list_decides(command: &str, allowlist: &[String], r: bool)
    requires
        call_ensures(command_allowed, (command, allowlist), r),
    ensures
        r <==> text::trimmed(command@).len() > 0 && exists|i: int|
            0 <= i < allowlist@.len() && (#[trigger] allowlist@[i])@ == text::trimmed(command@),
{
    let list = text::texts(allowlist@);
    if r {
        let i = choose|i: int| 0 <= i < list.len() && list[i] == text::trimmed(command@);
        assert(allowlist@[i]@ == list[i]);
    }
    if exists|i: int|
        0 <= i < allowlist@.len() && (#[trigger] allowlist@[i])@ == text::trimmed(command@) {
        let i = choose|i: int|
            0 <= i < allowlist@.len() && (#[trigger] allowlist@[i])@ == text::trimmed(command@);
        assert(list[i] == text::trimmed(command@));
    }
}

proof fn lemma_entries(list: Seq<Seq<char>>)
    ensures
        forall|i: int|
            0 <= i < entries_of(list).len() ==> (#[trigger] entries_of(list)[i]).len() > 0
                && exists|k: int|
                0 <= k < list.len() && entries_of(list)[i] == text::trimmed(#[trigger] list[k]),
        forall|k: int|
            0 <= k < list.len() && text::trimmed(#[trigger] list[k]).len() > 0 ==> entries_of(
                list,
            ).contains(text::trimmed(list[k])),
    decreases list.len(),
{
    if list.len() > 0 {
        let front = list.drop_last();
        lemma_entries(front);
        let e = entries_of(list);
        let f = entries_of(front);
        let last = text::trimmed(list.last());
        assert(list[list.len() - 1] == list.last());
        assert forall|i: int| 0 <= i < e.len() implies (#[trigger] e[i]).len() > 0 && exists|k: int|
            0 <= k < list.len() && e[i] == text::trimmed(#[trigger] list[k]) by {
            if i < f.len() {
                assert(e[i] == f[i]);
                let k = choose|k: int|
                    0 <= k < front.len() && f[i] == text::trimmed(#[trigger] front[k]);
                assert(list[k] == front[k]);
            } else {
                assert(e[i] == last);
            }
        }
        assert forall|k: int| 0 <= k < list.len() && text::trimmed(#[trigger] list[k]).len()
            > 0 implies e.contains(text::trimmed(list[k])) by {
            if k < front.len() {
                assert(front[k] == list[k]);
                assert(f.contains(text::trimmed(front[k])));
                let j = choose|j: int| 0 <= j < f.len() && f[j] == text::trimmed(front[k]);
                assert(e[j] == f[j]);
            } else {
                assert(e[f.len() as int] == last);
            }
        }
    }
}

/// An allow-list is the trimmed texts of the list, all that are not blank; it
/// is refused where nothing is left, and where it is not configured.
pub proof fn law_allow_lists_are_read(
    parsed: &Result<Vec<String>, String>,
    r: Result<Vec<String>, String>,
)
    requires
        call_ensures(take_allowlist, (parsed,), r),
    ensures
        *parsed is Err ==> r is Err,
        *parsed matches Ok(v) ==> (r is Ok <==> exists|k: int|
            0 <= k < v@.len() && text::trimmed((#[trigger] v@[k])@).len() > 0),
        r matches Ok(list) ==> forall|i: int|
            0 <= i < list@.len() ==> (#[trigger] list@[i])@.len() > 0,
        *parsed matches Ok(v) ==> forall|k: int|
            0 <= k < v@.len() && text::trimmed((#[trigger] v@[k])@).len() > 0 ==> text::texts(
                r->Ok_0@,
            ).contains(text::trimmed(v@[k]@)),
{
    if let Ok(v) = *parsed {
        let all = text::texts(v@);
        lemma_entries(all);
        assert forall|k: int| 0 <= k < v@.len() && text::trimmed(
            (#[trigger] v@[k])@,
        ).len() > 0 implies entries_of(all).contains(text::trimmed(v@[k]@)) by {
            assert(all[k] == v@[k]@);
        }
        if r is Err {
            assert(entries_of(all).len() == 0);
            assert forall|k: int| 0 <= k < v@.len() implies text::trimmed(
                (#[trigger] v@[k])@,
            ).len() == 0 by {
                if text::trimmed(v@[k]@).len() > 0 {
                    assert(entries_of(all).contains(text::trimmed(v@[k]@)));
                }
            }
        }
        if r is Ok {
            let list = r->Ok_0;
            assert(text::texts(list@) == entries_of(all));
            let e = entries_of(all);
            assert(e.len() > 0);
            let k = choose|k: int| 0 <= k < all.len() && e[0] == text::trimmed(#[trigger] all[k]);
            assert(v@[k]@ == all[k]);
            assert forall|i: int| 0 <= i < list@.len() implies (#[trigger] list@[i])@.len() > 0 by {
                assert(e[i] == list@[i]@);
            }
        }
    }
}

/// Of a read that the budget covers all bytes are kept, of any other as many as
/// are left; the streams of a command share one budget.
pub proof fn law_the_budget_is_shared(left: nat, first: nat, second: nat)
    ensures
        first + second <= left ==> kept_over(left, seq![first, second]) == first + second,
        first + second > left ==> kept_over(left, seq![first, second]) == left,
{
    let both = seq![first, second];
    assert(both.drop_last() =~= seq![first]);
    assert(seq![first].drop_last() =~= Seq::<nat>::empty());
    reveal_with_fuel(kept_over, 3);
}

/// A command that could not be started says why, and that it did not run.
pub proof fn law_unstarted_commands_say_why(error: &str, duration_ms: u64, r: ExecResult)
    requires
        call_ensures(spawn_failed, (error, duration_ms), r),
    ensures
        text::opt_text(r.error) == Some("spawn failed: "@ + error@),
        r.exit_code == -1,
        r.stdout@.len() == 0 && r.stderr@.len() == 0,
        !r.timed_out && !r.truncated,
        r.duration_ms == duration_ms,
{
    assert(r@.error == text::opt_text(r.error));
    assert(r@.stdout == r.stdout@ && r@.stderr == r.stderr@);
}

proof fn lemma_entries_are_filtered(list: Seq<Seq<char>>)
    ensures
        entries_of(list) == list.map_values(|e: Seq<char>| text::trimmed(e)).filter(
            |e: Seq<char>| e.len() > 0,
        ),
    decreases list.len(),
{
    reveal(Seq::filter);
    let trim = |e: Seq<char>| text::trimmed(e);
    let full = |e: Seq<char>| e.len() > 0;
    let all = list.map_values(trim);
    if list.len() > 0 {
        let front = list.drop_last();
        lemma_entries_are_filtered(front);
        assert(all.drop_last() =~= front.map_values(trim));
        assert(all.last() == text::trimmed(list.last()));
    }
    assert(entries_of(list) =~= all.filter(full));
}

/// The allow-list is what the JSON lists, trimmed and without blanks, and
/// nothing beside it.
pub proof fn law_allow_lists_hold_nothing_else(
    parsed: &Result<Vec<String>, String>,
    r: Result<Vec<String>, String>,
)
    requires
        call_ensures(take_allowlist, (parsed,), r),
    ensures
        *parsed matches Ok(v) ==> (r matches Ok(list) ==> text::texts(list@) == text::texts(
            v@,
        ).map_values(|e: Seq<char>| text::trimmed(e)).filter(|e: Seq<char>| e.len() > 0)),
        *parsed matches Err(e) ==> r is Err && r->Err_0@
            == "SHELLFLEET_EXEC_ALLOW_JSON must be a JSON array of strings: "@ + e@,
{
    if let Ok(v) = *parsed {
        lemma_entries_are_filtered(text::texts(v@));
    }
}

/// Without a configured list nothing runs; with one, exactly what it lists
/// runs, and what is blocked says why and did not run.
pub proof fn law_commands_pass_the_list(
    raw: Option<&str>,
    command: &str,
    list: Result<Vec<String>, String>,
    on: bool,
    r: Option<ExecResult>,
)
    requires
        call_ensures(parse_command_allowlist, (raw,), list),
        call_ensures(enabled, (raw,), on),
        call_ensures(gate, (raw, command), r),
    ensures
        raw is None || text::trimmed(raw->0@).len() == 0 ==> list is Err && list->Err_0@
            == "SHELLFLEET_EXEC_ALLOW_JSON is not configured"@,
        on <==> list is Ok,
        r is None <==> list is Ok && text::trimmed(command@).len() > 0 && text::texts(
            list->Ok_0@,
        ).contains(text::trimmed(command@)),
        r is Some && list is Err ==> text::opt_text(r->0.error) == Some(list->Err_0@),
        r is Some && list is Ok ==> text::opt_text(r->0.error) == Some(
            "command blocked by agent execution allow-list"@,
        ),
        r matches Some(result) ==> result.exit_code == -1 && result.stdout@.len() == 0
            && result.stderr@.len() == 0 && !result.timed_out && !result.truncated
            && result.duration_ms == 0,
{
    if let Some(result) = r {
        assert(result@.error == text::opt_text(result.error));
        assert(result@.stdout == result.stdout@ && result@.stderr == result.stderr@);
        assert(result@.exit_code == result.exit_code && result@.timed_out == result.timed_out
            && result@.truncated == result.truncated && result@.duration_ms == result.duration_ms);
    }
}

/// A timeout is as asked, between a second and an hour.
pub proof fn law_timeouts_are_bounded(wanted: u64, r: u64)
    requires
        call_ensures(timeout_secs, (wanted,), r),
    ensures
        1 <= wanted <= 3600 ==> r == wanted,
        wanted == 0 ==> r == 1,
        wanted > 3600 ==> r == 3600,
{
}

/// A budget gives what was asked for as far as it goes, and remembers it.
pub proof fn law_budgets_are_spent(
    a: &mut Budget,
    b: &mut Budget,
    n: usize,
    given: usize,
    step: ReadStep,
)
    requires
        call_ensures(Budget::reserve, (a, n), given),
        call_ensures(Budget::read, (b, n), step),
    ensures
        n <= old(a).left ==> given == n,
        n > old(a).left ==> given == old(a).left,
        final(a).left + given == old(a).left,
        n == 0 <==> step == ReadStep::End,
        0 < n <= old(b).left ==> step == ReadStep::Keep && final(b).left + n == old(b).left,
        n > 0 && n > old(b).left ==> step == ReadStep::Last(old(b).left) && final(b).left == 0,
{
}

/// A command is killed where it did not exit by itself.
pub proof fn law_only_overruns_are_killed(end: &WaitEnd, r: bool)
    requires
        call_ensures(must_kill, (end,), r),
    ensures
        r <==> *end is Deadline || *end is Limit,
{
}

/// A command goes its way: it is waited for with its own timeout, killed where
/// it did not exit, read to the end of both its streams, and what its readers
/// came to is kept apart.
pub proof fn law_commands_go_their_way(run: ExecRun, event: ExecEvent, after: ExecRun)
    requires
        call_ensures(ExecRun::step, (run, event), after),
    ensures
        run matches ExecRun::Starting { argv, timeout_secs } ==> (event is Started ==> after == (
        ExecRun::Waiting { timeout_secs })),
        run is Starting ==> (event matches ExecEvent::StartFailed { error, duration_ms } ==> (after
            matches ExecRun::Over { result } && text::opt_text(result.error) == Some(
            "spawn failed: "@ + error@,
        ) && result.exit_code == -1 && result.duration_ms == duration_ms)),
        run is Waiting ==> (event matches ExecEvent::Ended(end) ==> (end is Exited ==> after == (
        ExecRun::Reading { end, out: None, err: None }))),
        run is Waiting ==> (event matches ExecEvent::Ended(end) ==> (end is Deadline || end
            is Limit ==> after == (ExecRun::Killing { end }))),
        run matches ExecRun::Killing { end } ==> (event is Killed ==> after == (ExecRun::Reading {
            end,
            out: None,
            err: None,
        })),
        run matches ExecRun::Reading { end, out: None, err: None } ==> (event
            matches ExecEvent::OutEnded(e) ==> after == (ExecRun::Reading {
            end,
            out: Some(e),
            err: None,
        })),
        run matches ExecRun::Reading { end, out: None, err: None } ==> (event
            matches ExecEvent::ErrEnded(e) ==> after == (ExecRun::Reading {
            end,
            out: None,
            err: Some(e),
        })),
        run matches ExecRun::Reading { end, out: None, err: Some(d) } ==> (event
            matches ExecEvent::OutEnded(e) ==> after == (ExecRun::Collecting {
            end,
            out_end: e,
            err_end: d,
        })),
        run matches ExecRun::Reading { end, out: Some(d), err: None } ==> (event
            matches ExecEvent::ErrEnded(e) ==> after == (ExecRun::Collecting {
            end,
            out_end: d,
            err_end: e,
        })),
        run matches ExecRun::Reading { end, out, err } ==> (event is GraceOver ==> after == (
        ExecRun::Aborting { end, out, err })),
        run matches ExecRun::Aborting { end, out, err } ==> (event is Aborted ==> (after
            matches ExecRun::Collecting { end: e, out_end, err_end } && e == end && out_end == (
        match out {
            Some(o) => o,
            None => ReaderEnd::Aborted,
        }) && err_end == (match err {
            Some(o) => o,
            None => ReaderEnd::Aborted,
        }))),
{
    if let ExecRun::Over { result } = after {
        assert(result@.error == text::opt_text(result.error));
        assert(result@.exit_code == result.exit_code && result@.duration_ms == result.duration_ms);
    }
}

}
