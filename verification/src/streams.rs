//! What all streams of log lines have in common: lines are sent in batches,
//! and the end of a stream is explained.

use crate::text;
use vstd::prelude::*;

verus! {

/// How many lines are sent at once.
pub const MAX_LINES_PER_CHUNK: usize = 100;

/// How long a line waits for others, in milliseconds.
pub const FLUSH_INTERVAL_MS: u64 = 250;

/// Lines that wait to be sent.
pub struct Batcher {
    buf: Vec<String>,
}

impl View for Batcher {
    type V = Seq<Seq<char>>;

    closed spec fn view(&self) -> Seq<Seq<char>> {
        text::texts(self.buf@)
    }
}

/// What happens to a batcher.
pub enum BatchEvent {
    /// A line arrives.
    Line(Seq<char>),
    /// The interval is over, or the stream is.
    Flush,
}

/// The lines that wait after an event, and the chunk that it sends.
pub open spec fn batched(waiting: Seq<Seq<char>>, event: BatchEvent) -> (
    Seq<Seq<char>>,
    Option<Seq<Seq<char>>>,
) {
    match event {
        BatchEvent::Line(line) => if waiting.len() + 1 >= MAX_LINES_PER_CHUNK {
            (Seq::empty(), Some(waiting.push(line)))
        } else {
            (waiting.push(line), None)
        },
        BatchEvent::Flush => if waiting.len() == 0 {
            (waiting, None)
        } else {
            (Seq::empty(), Some(waiting))
        },
    }
}

pub open spec fn chunk(o: Option<Vec<String>>) -> Option<Seq<Seq<char>>> {
    match o {
        Some(v) => Some(text::texts(v@)),
        None => None,
    }
}

impl Batcher {
    /// Nothing waits yet.
    pub fn new() -> (r: Self)
        ensures
            r@ == Seq::<Seq<char>>::empty(),
    {
        let r = Batcher { buf: Vec::new() };
        assert(r@ =~= Seq::empty());
        r
    }

    fn drain(&mut self) -> (r: Vec<String>)
        ensures
            text::texts(r@) == old(self)@,
            final(self)@ == Seq::<Seq<char>>::empty(),
    {
        let mut r: Vec<String> = Vec::new();
        r.append(&mut self.buf);
        assert(self@ =~= Seq::empty());
        r
    }

    /// Takes a line, and gives the chunk that is due with it.
    pub fn push(&mut self, line: String) -> (r: Option<Vec<String>>)
        ensures
            (final(self)@, chunk(r)) == batched(old(self)@, BatchEvent::Line(line@)),
    {
        broadcast use text::lemma_texts_push;

        self.buf.push(line);
        assert(text::texts(self.buf@).len() == self.buf@.len());
        if self.buf.len() >= MAX_LINES_PER_CHUNK {
            Some(self.drain())
        } else {
            None
        }
    }

    /// Gives the lines that wait, if any do.
    pub fn flush(&mut self) -> (r: Option<Vec<String>>)
        ensures
            (final(self)@, chunk(r)) == batched(old(self)@, BatchEvent::Flush),
    {
        assert(text::texts(self.buf@).len() == self.buf@.len());
        if self.buf.len() == 0 {
            None
        } else {
            Some(self.drain())
        }
    }
}

/// How a child process was waited for.
#[derive(Debug)]
pub enum ChildEnd {
    Exited { success: bool, code: Option<i32> },
    WaitFailed(String),
}

/// What is said about the end of a stream: nothing where it went well.
pub open spec fn end_said(program: Seq<char>, end: ChildEnd) -> Option<Seq<char>> {
    match end {
        ChildEnd::Exited { success, code } => if success {
            None
        } else {
            Some(program + " exited with "@ + text::code_words(code))
        },
        ChildEnd::WaitFailed(e) => Some(program + " wait failed: "@ + e@),
    }
}

/// Explains the end of a stream.
pub fn end_error(program: &str, end: &ChildEnd) -> (r: Option<String>)
    ensures
        text::opt_text(r) == end_said(program@, *end),
{
    match end {
        ChildEnd::Exited { success, code } => if *success {
            None
        } else {
            Some(text::join3(program, " exited with ", text::code_text(*code).as_str()))
        },
        ChildEnd::WaitFailed(e) => Some(text::join3(program, " wait failed: ", e.as_str())),
    }
}

// ---------- laws ----------

/// The lines that wait, and the chunks that were sent, after a run of events.
pub open spec fn run(events: Seq<BatchEvent>) -> (Seq<Seq<char>>, Seq<Seq<Seq<char>>>)
    decreases events.len(),
{
    if events.len() == 0 {
        (Seq::empty(), Seq::empty())
    } else {
        let (waiting, sent) = run(events.drop_last());
        let (after, chunk) = batched(waiting, events.last());
        (
            after,
            match chunk {
                Some(c) => sent.push(c),
                None => sent,
            },
        )
    }
}

/// The lines that arrived in a run of events.
pub open spec fn arrived(events: Seq<BatchEvent>) -> Seq<Seq<char>>
    decreases events.len(),
{
    if events.len() == 0 {
        Seq::empty()
    } else {
        match events.last() {
            BatchEvent::Line(line) => arrived(events.drop_last()).push(line),
            BatchEvent::Flush => arrived(events.drop_last()),
        }
    }
}

/// Chunks end to end.
pub open spec fn end_to_end(chunks: Seq<Seq<Seq<char>>>) -> Seq<Seq<char>>
    decreases chunks.len(),
{
    if chunks.len() == 0 {
        Seq::empty()
    } else {
        end_to_end(chunks.drop_last()) + chunks.last()
    }
}

/// No line is lost, doubled or moved: what was sent, and then what waits, is
/// what arrived. No chunk is empty or over its size.
pub proof fn law_batching_keeps_every_line(events: Seq<BatchEvent>)
    ensures
        end_to_end(run(events).1) + run(events).0 == arrived(events),
        run(events).0.len() < MAX_LINES_PER_CHUNK,
        forall|i: int|
            0 <= i < run(events).1.len() ==> 0 < (#[trigger] run(events).1[i]).len()
                <= MAX_LINES_PER_CHUNK,
    decreases events.len(),
{
    if events.len() > 0 {
        let front = events.drop_last();
        law_batching_keeps_every_line(front);
        let (waiting, sent) = run(front);
        let (after, chunk) = batched(waiting, events.last());
        if chunk is Some {
            assert(sent.push(chunk->0).drop_last() =~= sent);
        }
        match events.last() {
            BatchEvent::Line(line) => {
                assert(end_to_end(sent) + waiting.push(line) =~= arrived(front).push(line));
                assert(end_to_end(sent) + waiting.push(line) + Seq::<Seq<char>>::empty()
                    =~= arrived(front).push(line));
            },
            BatchEvent::Flush => {
                assert(end_to_end(sent) + waiting + Seq::<Seq<char>>::empty() =~= arrived(front));
            },
        }
    } else {
        assert(end_to_end(run(events).1) + run(events).0 =~= arrived(events));
    }
}

/// A flush leaves nothing behind: after it everything that arrived is sent.
pub proof fn law_flush_sends_everything(events: Seq<BatchEvent>)
    requires
        events.len() > 0,
        events.last() is Flush,
    ensures
        end_to_end(run(events).1) == arrived(events),
{
    law_batching_keeps_every_line(events);
    assert(run(events).0 =~= Seq::empty());
    assert(end_to_end(run(events).1) + Seq::<Seq<char>>::empty() =~= end_to_end(run(events).1));
}

/// A line waits until a hundred are there; then they all go, in order.
pub proof fn law_chunks_are_full(b: &mut Batcher, line: String, r: Option<Vec<String>>)
    requires
        call_ensures(Batcher::push, (b, line), r),
    ensures
        old(b)@.len() < 99 ==> r is None && final(b)@ == old(b)@.push(line@),
        old(b)@.len() >= 99 ==> r is Some && text::texts(r->0@) == old(b)@.push(line@)
            && final(b)@.len() == 0,
{
}

/// A flush sends what waits, and leaves nothing.
pub proof fn law_flushes_send_what_waits(b: &mut Batcher, r: Option<Vec<String>>)
    requires
        call_ensures(Batcher::flush, (b,), r),
    ensures
        final(b)@.len() == 0,
        r is Some <==> old(b)@.len() > 0,
        r matches Some(lines) ==> text::texts(lines@) == old(b)@,
{
}

/// The end of a stream needs no words where it went well; else it names the
/// program and what came of it.
pub proof fn law_ends_are_explained(program: &str, end: &ChildEnd, r: Option<String>)
    requires
        call_ensures(end_error, (program, end), r),
    ensures
        r is None <==> *end is Exited && (*end)->success,
        *end matches ChildEnd::Exited { success, code } ==> (!success ==> r->0@ == program@
            + " exited with "@ + text::code_words(code)),
        *end matches ChildEnd::WaitFailed(e) ==> r->0@ == program@ + " wait failed: "@ + e@,
{
}

}
