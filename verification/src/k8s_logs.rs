//! The logs of pods: streams by the id that the dashboard gave them.

use crate::registry::Registry;
use crate::text;
use vstd::prelude::*;

verus! {

/// What a stream shows.
#[derive(Debug)]
pub struct LogArgs {
    pub stream_id: String,
    pub namespace: String,
    pub pod_name: String,
    pub container: Option<String>,
    pub tail_lines: i64,
    pub follow: bool,
}

/// How many lines a stream starts with: all of them unless a positive number
/// is asked for.
pub fn tail_lines(wanted: i64) -> (r: Option<i64>)
    ensures
        r == (if wanted > 0 {
            Some(wanted)
        } else {
            None
        }),
{
    if wanted > 0 {
        Some(wanted)
    } else {
        None
    }
}

/// How a stream ended.
#[derive(Debug)]
pub enum PodLogEnd {
    NoClient(String),
    NoStream(String),
    Broken(String),
    Finished,
}

/// What is said about the end of a stream.
pub open spec fn end_said(end: PodLogEnd) -> Option<Seq<char>> {
    match end {
        PodLogEnd::NoClient(e) => Some("kube client: "@ + e@),
        PodLogEnd::NoStream(e) => Some("log_stream: "@ + e@),
        PodLogEnd::Broken(e) => Some("stream: "@ + e@),
        PodLogEnd::Finished => None,
    }
}

/// Explains the end of a stream.
pub fn end_error(end: &PodLogEnd) -> (r: Option<String>)
    ensures
        text::opt_text(r) == end_said(*end),
{
    match end {
        PodLogEnd::NoClient(e) => Some(text::join2("kube client: ", e.as_str())),
        PodLogEnd::NoStream(e) => Some(text::join2("log_stream: ", e.as_str())),
        PodLogEnd::Broken(e) => Some(text::join2("stream: ", e.as_str())),
        PodLogEnd::Finished => None,
    }
}

/// The running streams by id.
pub struct K8sLogStreams<H> {
    inner: Registry<H>,
}

impl<H> View for K8sLogStreams<H> {
    type V = Map<Seq<char>, H>;

    closed spec fn view(&self) -> Map<Seq<char>, H> {
        self.inner@
    }
}

impl<H> K8sLogStreams<H> {
    /// No id comes twice.
    pub closed spec fn well_formed(&self) -> bool {
        self.inner.well_formed()
    }

    /// No streams yet.
    pub fn new() -> (r: Self)
        ensures
            r.well_formed(),
            r@ == Map::<Seq<char>, H>::empty(),
    {
        K8sLogStreams { inner: Registry::new() }
    }

    /// Takes up a stream, and hands back the one that it supersedes.
    pub fn start(&mut self, stream_id: &str, stream: H) -> (r: Option<H>)
        requires
            old(self).well_formed(),
        ensures
            final(self).well_formed(),
            final(self)@ == old(self)@.insert(stream_id@, stream),
            match r {
                Some(h) => old(self)@.contains_key(stream_id@) && h == old(self)@[stream_id@],
                None => !old(self)@.contains_key(stream_id@),
            },
    {
        self.inner.insert(stream_id, stream)
    }

    /// Lets go of a stream, and hands it back.
    pub fn stop(&mut self, stream_id: &str) -> (r: Option<H>)
        requires
            old(self).well_formed(),
        ensures
            final(self).well_formed(),
            final(self)@ == old(self)@.remove(stream_id@),
            match r {
                Some(h) => old(self)@.contains_key(stream_id@) && h == old(self)@[stream_id@],
                None => !old(self)@.contains_key(stream_id@),
            },
    {
        self.inner.remove(stream_id)
    }
}

// ---------- laws ----------

/// A stream starts with as many lines as were asked for, all of them where that
/// is no positive number.
pub proof fn law_tails_are_as_asked(wanted: i64, r: Option<i64>)
    requires
        call_ensures(tail_lines, (wanted,), r),
    ensures
        wanted > 0 ==> r == Some(wanted),
        wanted <= 0 ==> r is None,
{
}

/// The end of a stream is explained by what failed; one that finished needs no
/// words.
pub proof fn law_ends_are_explained(end: &PodLogEnd, r: Option<String>)
    requires
        call_ensures(end_error, (end,), r),
    ensures
        r is None <==> *end is Finished,
        *end matches PodLogEnd::NoClient(e) ==> r->0@ == "kube client: "@ + e@,
        *end matches PodLogEnd::NoStream(e) ==> r->0@ == "log_stream: "@ + e@,
        *end matches PodLogEnd::Broken(e) ==> r->0@ == "stream: "@ + e@,
{
}

/// A stream that is taken up is there under its name, and hands back the one it
/// supersedes; a stream that is let go of is handed back and gone; the others
/// stay.
pub proof fn law_streams_come_and_go<H>(
    a: &mut K8sLogStreams<H>,
    b: &mut K8sLogStreams<H>,
    name: &str,
    stream: H,
    superseded: Option<H>,
    stopped: Option<H>,
    other: Seq<char>,
)
    requires
        call_ensures(K8sLogStreams::<H>::start, (a, name, stream), superseded),
        call_ensures(K8sLogStreams::<H>::stop, (b, name), stopped),
        other != name@,
    ensures
        final(a)@.contains_key(name@) && final(a)@[name@] == stream,
        final(a)@.contains_key(other) <==> old(a)@.contains_key(other),
        old(a)@.contains_key(other) ==> final(a)@[other] == old(a)@[other],
        superseded is Some <==> old(a)@.contains_key(name@),
        superseded matches Some(h) ==> h == old(a)@[name@],
        !final(b)@.contains_key(name@),
        final(b)@.contains_key(other) <==> old(b)@.contains_key(other),
        old(b)@.contains_key(other) ==> final(b)@[other] == old(b)@[other],
        stopped is Some <==> old(b)@.contains_key(name@),
        stopped matches Some(h) ==> h == old(b)@[name@],
{
}

}
