//! The journal of one unit: one stream for each unit.

use crate::argv;
use crate::journal_stream;
use crate::registry::Registry;
use crate::text;
use vstd::prelude::*;

verus! {

/// Checks the name of a unit.
pub fn valid_unit_name(s: &str) -> (r: bool)
    ensures
        r == argv::unit_ok(s@),
{
    argv::is_unit(s)
}

/// The arguments for `journalctl`, or why the request is refused.
pub open spec fn planned(unit: Seq<char>, lines: u32, follow: bool) -> Result<
    Seq<Seq<char>>,
    Seq<char>,
> {
    if argv::unit_ok(unit) {
        Ok(journal_stream::head_args(follow, lines).push("-u"@).push(unit))
    } else {
        Err("invalid unit name"@)
    }
}

/// Plans the stream of a unit.
pub fn plan(unit: &str, lines: u32, follow: bool) -> (r: Result<Vec<String>, String>)
    ensures
        text::list_outcome(r) == planned(unit@, lines, follow),
{
    if !valid_unit_name(unit) {
        return Err(text::owned("invalid unit name"));
    }
    let mut argv = journal_stream::head(follow, lines);
    argv::push_pair(&mut argv, "-u", unit);
    Ok(argv)
}

/// The running streams by unit.
pub struct JournalStreams<H> {
    inner: Registry<H>,
}

impl<H> View for JournalStreams<H> {
    type V = Map<Seq<char>, H>;

    closed spec fn view(&self) -> Map<Seq<char>, H> {
        self.inner@
    }
}

impl<H> JournalStreams<H> {
    /// No unit comes twice.
    pub closed spec fn well_formed(&self) -> bool {
        self.inner.well_formed()
    }

    /// No streams yet.
    pub fn new() -> (r: Self)
        ensures
            r.well_formed(),
            r@ == Map::<Seq<char>, H>::empty(),
    {
        JournalStreams { inner: Registry::new() }
    }

    /// Takes up the stream of a unit, and hands back the one that it supersedes.
    pub fn start(&mut self, unit: &str, stream: H) -> (r: Option<H>)
        requires
            old(self).well_formed(),
        ensures
            final(self).well_formed(),
            final(self)@ == old(self)@.insert(unit@, stream),
            match r {
                Some(h) => old(self)@.contains_key(unit@) && h == old(self)@[unit@],
                None => !old(self)@.contains_key(unit@),
            },
    {
        self.inner.insert(unit, stream)
    }

    /// Lets go of the stream of a unit, and hands it back.
    pub fn stop(&mut self, unit: &str) -> (r: Option<H>)
        requires
            old(self).well_formed(),
        ensures
            final(self).well_formed(),
            final(self)@ == old(self)@.remove(unit@),
            match r {
                Some(h) => old(self)@.contains_key(unit@) && h == old(self)@[unit@],
                None => !old(self)@.contains_key(unit@),
            },
    {
        self.inner.remove(unit)
    }
}

// ---------- laws ----------

/// However large a backlog is asked for, at most ten thousand lines of it are
/// read, and the unit cannot be taken for an option.
pub proof fn law_backlog_is_bounded(unit: Seq<char>, lines: u32, follow: bool)
    requires
        planned(unit, lines, follow) is Ok,
    ensures
        argv::backlog(lines) <= 10000,
        planned(unit, lines, follow)->Ok_0.last() == unit,
        unit.len() > 0 && !text::begins(unit, '-'),
{
    if unit.len() == 0 {
        assert(unit =~= Seq::empty());
        assert(text::byte_len(unit) == 0);
    }
}

/// The journal of a unit is read with its backlog, and followed where that was
/// asked.
pub proof fn law_journals_are_read_as_asked(
    unit: &str,
    lines: u32,
    follow: bool,
    r: Result<Vec<String>, String>,
)
    requires
        call_ensures(plan, (unit, lines, follow), r),
    ensures
        r is Ok <==> argv::unit_ok(unit@),
        r matches Err(e) ==> e@ == "invalid unit name"@,
        r matches Ok(args) ==> text::texts(args@) == seq!["--no-pager"@, "--output=short-iso"@] + (
        if follow {
            seq!["--follow"@]
        } else {
            Seq::empty()
        }) + seq![
            "--lines="@ + text::decimal(
                if lines <= 10000 {
                    lines as nat
                } else {
                    10000
                },
            ),
            "-u"@,
            unit@,
        ],
{
    journal_stream::law_heads_are_spelled(follow, lines);
    if let Ok(args) = r {
        assert(text::texts(args@) =~= journal_stream::head_args(follow, lines) + seq![
            "-u"@,
            unit@,
        ]);
    }
}

/// A stream that is taken up is there under its name, and hands back the one it
/// supersedes; a stream that is let go of is handed back and gone; the others
/// stay.
pub proof fn law_streams_come_and_go<H>(
    a: &mut JournalStreams<H>,
    b: &mut JournalStreams<H>,
    name: &str,
    stream: H,
    superseded: Option<H>,
    stopped: Option<H>,
    other: Seq<char>,
)
    requires
        call_ensures(JournalStreams::<H>::start, (a, name, stream), superseded),
        call_ensures(JournalStreams::<H>::stop, (b, name), stopped),
        other != name@,
    ensures
        final(a)@.contains_key(name@) && final(a)@[name@] == stream,
        final(a)@.contains_key(other) <==> old(a)@.contains_key(other),
        old(a)@.contains_key(other) ==> final(a)@[other] == old(a)@[other],
        superseded is Some <==> old(a)@.contains_key(name@),
        superseded matches Some(h) ==> h == old(a)@[name@],
        !final(b)@.contains_key(name@),
        final(b)@.contains_key(other) <==> old(b)@.contains_key(other),
        old(b)@.contains_key(other) ==> final(b)@[other] == old(b)@[other],
        stopped is Some <==> old(b)@.contains_key(name@),
        stopped matches Some(h) ==> h == old(b)@[name@],
{
}

}
