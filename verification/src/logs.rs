//! The log of one container: one stream for each container.

use crate::argv;
use crate::registry;
use crate::registry::Registry;
use crate::text;
use vstd::prelude::*;

verus! {

/// Checks the name or the id of a container.
pub fn valid_container_id(s: &str) -> (r: bool)
    ensures
        r == argv::container_ok(s@),
{
    argv::is_container(s)
}

/// The arguments for `docker`, or why the request is refused.
pub open spec fn planned(container: Seq<char>, tail: u32, follow: bool) -> Result<
    Seq<Seq<char>>,
    Seq<char>,
> {
    if argv::container_ok(container) {
        Ok(
            argv::with_option(seq!["logs"@], follow, "--follow"@).push(
                "--tail="@ + text::decimal(argv::backlog(tail)),
            ).push(container),
        )
    } else {
        Err("invalid container id"@)
    }
}

/// Plans the stream of a container.
pub fn plan(container: &str, tail: u32, follow: bool) -> (r: Result<Vec<String>, String>)
    ensures
        text::list_outcome(r) == planned(container@, tail, follow),
{
    broadcast use text::lemma_texts_push;

    if !valid_container_id(container) {
        return Err(text::owned("invalid container id"));
    }
    let mut argv: Vec<String> = Vec::new();
    argv.push(text::owned("logs"));
    assert(text::texts(argv@) =~= seq!["logs"@]);
    argv::push_option(&mut argv, follow, "--follow");
    argv.push(argv::backlog_arg("--tail=", tail));
    argv.push(text::owned(container));
    Ok(argv)
}

/// The running streams by container.
pub struct LogStreams<H> {
    inner: Registry<H>,
}

impl<H> View for LogStreams<H> {
    type V = Map<Seq<char>, H>;

    closed spec fn view(&self) -> Map<Seq<char>, H> {
        self.inner@
    }
}

impl<H> LogStreams<H> {
    /// No container comes twice.
    pub closed spec fn well_formed(&self) -> bool {
        self.inner.well_formed()
    }

    /// No streams yet.
    pub fn new() -> (r: Self)
        ensures
            r.well_formed(),
            r@ == Map::<Seq<char>, H>::empty(),
    {
        LogStreams { inner: Registry::new() }
    }

    /// Takes up the stream of a container, and hands back the one that it
    /// supersedes.
    pub fn start(&mut self, container: &str, stream: H) -> (r: Option<H>)
        requires
            old(self).well_formed(),
        ensures
            final(self).well_formed(),
            final(self)@ == old(self)@.insert(container@, stream),
            match r {
                Some(h) => old(self)@.contains_key(container@) && h == old(self)@[container@],
                None => !old(self)@.contains_key(container@),
            },
    {
        self.inner.insert(container, stream)
    }

    /// Lets go of the stream of a container, and hands it back.
    pub fn stop(&mut self, container: &str) -> (r: Option<H>)
        requires
            old(self).well_formed(),
        ensures
            final(self).well_formed(),
            final(self)@ == old(self)@.remove(container@),
            match r {
                Some(h) => old(self)@.contains_key(container@) && h == old(self)@[container@],
                None => !old(self)@.contains_key(container@),
            },
    {
        self.inner.remove(container)
    }

    /// Lets go of every stream, and hands them back.
    pub fn shutdown(&mut self) -> (r: Vec<H>)
        requires
            old(self).well_formed(),
        ensures
            final(self).well_formed(),
            final(self)@ == Map::<Seq<char>, H>::empty(),
            registry::handed_over(old(self)@, r@),
    {
        self.inner.take_all()
    }
}

// ---------- laws ----------

/// However large a backlog is asked for, at most ten thousand lines of it are
/// read, and the container cannot be taken for an option.
pub proof fn law_backlog_is_bounded(container: Seq<char>, tail: u32, follow: bool)
    requires
        planned(container, tail, follow) is Ok,
    ensures
        argv::backlog(tail) <= 10000,
        planned(container, tail, follow)->Ok_0.last() == container,
        container.len() > 0 && !text::begins(container, '-'),
{
    if container.len() == 0 {
        assert(container =~= Seq::empty());
        assert(text::byte_len(container) == 0);
    }
}

/// The log of a container is read with its backlog, and followed where that was
/// asked.
pub proof fn law_logs_are_read_as_asked(
    container: &str,
    tail: u32,
    follow: bool,
    r: Result<Vec<String>, String>,
)
    requires
        call_ensures(plan, (container, tail, follow), r),
    ensures
        r is Ok <==> argv::container_ok(container@),
        r matches Err(e) ==> e@ == "invalid container id"@,
        r matches Ok(args) ==> text::texts(args@) == seq!["logs"@] + (if follow {
            seq!["--follow"@]
        } else {
            Seq::empty()
        }) + seq![
            "--tail="@ + text::decimal(
                if tail <= 10000 {
                    tail as nat
                } else {
                    10000
                },
            ),
            container@,
        ],
{
}

/// A stream that is taken up is there under its name, and hands back the one it
/// supersedes; a stream that is let go of is handed back and gone; the others
/// stay.
pub proof fn law_streams_come_and_go<H>(
    a: &mut LogStreams<H>,
    b: &mut LogStreams<H>,
    name: &str,
    stream: H,
    superseded: Option<H>,
    stopped: Option<H>,
    other: Seq<char>,
)
    requires
        call_ensures(LogStreams::<H>::start, (a, name, stream), superseded),
        call_ensures(LogStreams::<H>::stop, (b, name), stopped),
        other != name@,
    ensures
        final(a)@.contains_key(name@) && final(a)@[name@] == stream,
        final(a)@.contains_key(other) <==> old(a)@.contains_key(other),
        old(a)@.contains_key(other) ==> final(a)@[other] == old(a)@[other],
        superseded is Some <==> old(a)@.contains_key(name@),
        superseded matches Some(h) ==> h == old(a)@[name@],
        !final(b)@.contains_key(name@),
        final(b)@.contains_key(other) <==> old(b)@.contains_key(other),
        old(b)@.contains_key(other) ==> final(b)@[other] == old(b)@[other],
        stopped is Some <==> old(b)@.contains_key(name@),
        stopped matches Some(h) ==> h == old(b)@[name@],
{
}

}
