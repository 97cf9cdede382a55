//! What child processes print, and how much of it is kept.

use crate::text;
use vstd::prelude::*;
use vstd::slice::slice_subrange;
use vstd::utf8::{decode_utf8, encode_utf8, valid_utf8};

verus! {

// ---------- the outside functions ----------

/// The text that some bytes are read as, invalid sequences replaced.
pub uninterp spec fn lossy_text(bytes: Seq<u8>) -> Seq<char>;

/// `String::from_utf8_lossy`: a function of the bytes; valid UTF-8 is read as
/// it stands.
#[verifier::external_body]
fn from_lossy(bytes: &[u8]) -> (r: String)
    ensures
        r@ == lossy_text(bytes@),
        valid_utf8(bytes@) ==> r@ == decode_utf8(bytes@),
{
    String::from_utf8_lossy(bytes).into_owned()
}

/// A text in quotes, with its special characters escaped.
pub uninterp spec fn quoted_text(s: Seq<char>) -> Seq<char>;

/// The `Debug` form of a `str`: a function of the text.
#[verifier::external_body]
pub(crate) fn quoted(s: &str) -> (r: String)
    ensures
        r@ == quoted_text(s@),
{
    format!("{:?}", s)
}

// ---------- output ----------

/// What a child process left behind.
#[derive(Debug)]
pub struct CommandOutput {
    pub stdout: String,
    pub stderr: String,
    pub success: bool,
    pub code: Option<i32>,
}

/// What a child process left behind, with its texts spelled out.
#[verifier::ext_equal]
pub struct OutputView {
    pub stdout: Seq<char>,
    pub stderr: Seq<char>,
    pub success: bool,
    pub code: Option<i32>,
}

impl View for CommandOutput {
    type V = OutputView;

    open spec fn view(&self) -> OutputView {
        OutputView {
            stdout: self.stdout@,
            stderr: self.stderr@,
            success: self.success,
            code: self.code,
        }
    }
}

impl CommandOutput {
    /// Reads what a child process wrote.
    pub fn read(stdout: &[u8], stderr: &[u8], success: bool, code: Option<i32>) -> (r: Self)
        ensures
            r.stdout@ == lossy_text(stdout@),
            r.stderr@ == lossy_text(stderr@),
            r.success == success,
            r.code == code,
            valid_utf8(stdout@) ==> r.stdout@ == decode_utf8(stdout@),
            valid_utf8(stderr@) ==> r.stderr@ == decode_utf8(stderr@),
    {
        CommandOutput { stdout: from_lossy(stdout), stderr: from_lossy(stderr), success, code }
    }
}

/// Reads bytes as text, invalid sequences replaced.
pub fn decode_output(bytes: &[u8]) -> (r: String)
    ensures
        r@ == lossy_text(bytes@),
        valid_utf8(bytes@) ==> r@ == decode_utf8(bytes@),
{
    from_lossy(bytes)
}

// ---------- dropping bytes ----------

/// What is left of a text without its first `n` bytes, where they end at the
/// end of a character.
pub open spec fn drop_bytes(s: Seq<char>, n: int) -> Option<Seq<char>>
    decreases s.len(),
{
    if n == 0 {
        Some(s)
    } else if n < 0 || s.len() == 0 {
        None
    } else {
        drop_bytes(s.skip(1), n - text::byte_len(seq![s[0]]))
    }
}

/// The first `n` bytes of a text, where they end at the end of a character.
pub open spec fn take_bytes(s: Seq<char>, n: int) -> Option<Seq<char>>
    decreases s.len(),
{
    if n == 0 {
        Some(Seq::empty())
    } else if n < 0 || s.len() == 0 {
        None
    } else {
        match take_bytes(s.skip(1), n - text::byte_len(seq![s[0]])) {
            Some(rest) => Some(seq![s[0]] + rest),
            None => None,
        }
    }
}

/// How many bytes a character takes.
pub fn char_width(c: char) -> (r: usize)
    ensures
        r == text::byte_len(seq![c]),
        1 <= r <= 4,
{
    let mut s = String::new();
    s.push(c);
    assert(s@ =~= seq![c]);
    let n = text::byte_length(s.as_str());
    proof {
        vstd::utf8::char_is_scalar(c);
        reveal_with_fuel(encode_utf8, 2);
        assert(seq![c].drop_first() =~= Seq::empty());
    }
    n
}

/// Where the first `n` bytes of a text end, counted in characters.
pub fn boundary(v: &[char], n: usize) -> (r: Option<usize>)
    ensures
        match r {
            Some(k) => k <= v@.len() && drop_bytes(v@, n as int) == Some(v@.skip(k as int))
                && take_bytes(v@, n as int) == Some(v@.take(k as int)),
            None => drop_bytes(v@, n as int) is None && take_bytes(v@, n as int) is None,
        },
{
    let mut left: usize = n;
    let mut k: usize = 0;
    assert(v@.skip(0) =~= v@);
    while left > 0
        invariant
            k <= v@.len(),
            left <= n,
            drop_bytes(v@, n as int) == drop_bytes(v@.skip(k as int), left as int),
            match take_bytes(v@.skip(k as int), left as int) {
                Some(rest) => take_bytes(v@, n as int) == Some(v@.take(k as int) + rest),
                None => take_bytes(v@, n as int) is None,
            },
        decreases left,
    {
        if k == v.len() {
            return None;
        }
        let ghost rest = v@.skip(k as int);
        assert(rest[0] == v@[k as int]);
        assert(rest.skip(1) =~= v@.skip(k as int + 1));
        let w = char_width(v[k]);
        if w > left {
            assert(drop_bytes(rest.skip(1), left - w) is None);
            assert(take_bytes(rest.skip(1), left - w) is None);
            return None;
        }
        proof {
            if let Some(t) = take_bytes(rest.skip(1), left - w) {
                assert(v@.take(k as int) + (seq![rest[0]] + t) =~= v@.take(k as int + 1) + t);
            }
        }
        left = left - w;
        k = k + 1;
    }
    assert(v@.take(k as int) + Seq::<char>::empty() =~= v@.take(k as int));
    Some(k)
}

// ---------- capping ----------

/// At most some number of leading bytes.
pub open spec fn capped(bytes: Seq<u8>, cap: int) -> Seq<u8> {
    if bytes.len() <= cap {
        bytes
    } else {
        bytes.take(cap)
    }
}

/// Keeps at most some number of leading bytes.
pub fn cap_bytes(bytes: Vec<u8>, cap: usize) -> (r: Vec<u8>)
    ensures
        r@ == capped(bytes@, cap as int),
{
    let mut r = bytes;
    if r.len() > cap {
        r.truncate(cap);
        assert(r@ =~= bytes@.take(cap as int));
    }
    r
}

// ---------- logs ----------

/// The note that stands for bytes that were cut off the front of a log.
pub open spec fn cut_note(cut: nat) -> Seq<char> {
    "…["@ + text::decimal(cut) + " bytes truncated]…\n"@
}

/// Whether a log can be cut down to a cap: what goes must end at the end of a
/// character.
pub open spec fn cuttable(s: Seq<char>, cap: nat) -> bool {
    text::byte_len(s) > cap ==> drop_bytes(s, text::byte_len(s) - cap) is Some
}

/// A log cut down to its last `cap` bytes, with a note in front.
pub open spec fn tail_kept(s: Seq<char>, cap: nat) -> Seq<char> {
    if text::byte_len(s) > cap {
        cut_note((text::byte_len(s) - cap) as nat) + drop_bytes(s, text::byte_len(s) - cap)->0
    } else {
        s
    }
}

/// Cuts a log down to its last `cap` bytes, where that is possible.
pub fn try_truncate(s: &str, cap: usize) -> (r: Option<String>)
    ensures
        text::opt_text(r) == cut_down(s@, cap as nat),
{
    let n = text::byte_length(s);
    if n <= cap {
        return Some(text::owned(s));
    }
    let cut: usize = n - cap;
    let v = text::to_chars(s);
    match boundary(v.as_slice(), cut) {
        None => None,
        Some(k) => {
            let mut r = text::join3("…[", text::decimal_text(cut as u64).as_str(), " bytes truncated]…\n");
            let rest = slice_subrange(v.as_slice(), k, v.len());
            assert(rest@ =~= v@.skip(k as int));
            r.append(text::from_chars(rest).as_str());
            Some(r)
        },
    }
}

/// A log cut down to its last `cap` bytes, where that is possible.
pub open spec fn cut_down(s: Seq<char>, cap: nat) -> Option<Seq<char>> {
    if cuttable(s, cap) {
        Some(tail_kept(s, cap))
    } else {
        None
    }
}

/// Cuts a log down to its last `cap` bytes.
pub fn truncate(s: &mut String, cap: usize)
    requires
        cuttable(old(s)@, cap as nat),
    ensures
        final(s)@ == tail_kept(old(s)@, cap as nat),
{
    if let Some(t) = try_truncate(s.as_str(), cap) {
        *s = t;
    }
}

/// A part of a log under its heading: nothing where the part is empty.
pub open spec fn section(heading: Seq<char>, part: Seq<char>) -> Seq<char> {
    if part.len() == 0 {
        Seq::empty()
    } else {
        heading + part
    }
}

/// Adds a part under its heading to a log.
pub fn push_section(log: &mut String, heading: &str, part: &str)
    ensures
        final(log)@ == old(log)@ + section(heading@, part@),
{
    if !part.is_empty() {
        log.append(text::join2(heading, part).as_str());
    } else {
        assert(section(heading@, part@) =~= Seq::empty());
        assert(log@ + Seq::<char>::empty() =~= log@);
    }
}

// ---------- laws ----------

proof fn lemma_drop_bytes_len(s: Seq<char>, n: int)
    requires
        drop_bytes(s, n) is Some,
    ensures
        text::byte_len(drop_bytes(s, n)->0) + n == text::byte_len(s),
    decreases s.len(),
{
    if n != 0 {
        lemma_drop_bytes_len(s.skip(1), n - text::byte_len(seq![s[0]]));
        assert(s.drop_first() =~= s.skip(1));
        assert(seq![s[0]].drop_first() =~= Seq::empty());
        assert(seq![s[0]][0] == s[0]);
        reveal_with_fuel(encode_utf8, 2);
        assert(text::byte_len(s) == text::byte_len(seq![s[0]]) + text::byte_len(s.skip(1)));
    }
}

/// Cutting keeps exactly the last `cap` bytes of a longer log, behind the note.
pub proof fn law_truncate_keeps_the_cap(s: Seq<char>, cap: nat)
    requires
        cuttable(s, cap),
        text::byte_len(s) > cap,
    ensures
        text::byte_len(drop_bytes(s, text::byte_len(s) - cap)->0) == cap,
        tail_kept(s, cap) == cut_note((text::byte_len(s) - cap) as nat) + drop_bytes(
            s,
            text::byte_len(s) - cap,
        )->0,
{
    lemma_drop_bytes_len(s, text::byte_len(s) - cap);
}

proof fn lemma_byte_len_front(s: Seq<char>)
    requires
        s.len() > 0,
    ensures
        text::byte_len(s) == text::byte_len(seq![s[0]]) + text::byte_len(s.skip(1)),
        text::byte_len(seq![s[0]]) > 0,
{
    vstd::utf8::char_is_scalar(s[0]);
    assert(s.drop_first() =~= s.skip(1));
    assert(seq![s[0]].drop_first() =~= Seq::empty());
    assert(seq![s[0]][0] == s[0]);
    reveal_with_fuel(encode_utf8, 2);
}

proof fn lemma_dropped(s: Seq<char>, n: int)
    ensures
        drop_bytes(s, n) matches Some(rest) ==> exists|k: int|
            0 <= k <= s.len() && rest == #[trigger] s.skip(k) && text::byte_len(s.skip(k)) + n
                == text::byte_len(s),
        drop_bytes(s, n) is None ==> forall|k: int|
            0 <= k <= s.len() ==> text::byte_len(#[trigger] s.skip(k)) + n != text::byte_len(s),
    decreases s.len(),
{
    assert(s.skip(0) =~= s);
    if s.len() == 0 {
        assert(s =~= Seq::empty());
    } else {
        lemma_byte_len_front(s);
        let u = s.skip(1);
        let w = text::byte_len(seq![s[0]]);
        if n > 0 {
            lemma_dropped(u, n - w);
            if drop_bytes(s, n) is Some {
                let k = choose|k: int|
                    0 <= k <= u.len() && drop_bytes(s, n)->0 == #[trigger] u.skip(k)
                        && text::byte_len(u.skip(k)) + (n - w) == text::byte_len(u);
                assert(u.skip(k) =~= s.skip(k + 1));
            } else {
                assert forall|k: int| 0 <= k <= s.len() implies text::byte_len(
                    #[trigger] s.skip(k),
                ) + n != text::byte_len(s) by {
                    if k > 0 {
                        assert(u.skip(k - 1) =~= s.skip(k));
                    }
                }
            }
        } else if n < 0 {
            assert forall|k: int| 0 <= k <= s.len() implies text::byte_len(#[trigger] s.skip(k))
                + n != text::byte_len(s) by {
                lemma_skip_is_shorter(s, k);
            }
        }
    }
    if s.len() == 0 && n != 0 {
        assert forall|k: int| 0 <= k <= s.len() implies text::byte_len(#[trigger] s.skip(k)) + n
            != text::byte_len(s) by {
            assert(s.skip(k) =~= s);
        }
    }
}

proof fn lemma_skip_is_shorter(s: Seq<char>, k: int)
    requires
        0 <= k <= s.len(),
    ensures
        text::byte_len(s.skip(k)) <= text::byte_len(s),
    decreases k,
{
    if k == 0 {
        assert(s.skip(0) =~= s);
    } else {
        lemma_byte_len_front(s);
        lemma_skip_is_shorter(s.skip(1), k - 1);
        assert(s.skip(1).skip(k - 1) =~= s.skip(k));
    }
}

/// A log within the cap stays as it is. A longer one keeps its end, exactly as
/// many bytes as the cap, behind a note of how many bytes went before it. There
/// is no such log only where no character starts there.
pub proof fn law_logs_keep_their_end(s: &str, cap: usize, r: Option<String>)
    requires
        call_ensures(try_truncate, (s, cap), r),
    ensures
        text::byte_len(s@) <= cap ==> r is Some && r->0@ == s@,
        text::byte_len(s@) > cap && r is Some ==> exists|k: int|
            0 <= k <= s@.len() && text::byte_len(#[trigger] s@.skip(k)) == cap && r->0@ == "…["@
                + text::decimal((text::byte_len(s@) - cap) as nat) + " bytes truncated]…\n"@
                + s@.skip(k),
        r is None ==> forall|k: int|
            0 <= k <= s@.len() ==> text::byte_len(#[trigger] s@.skip(k)) != cap,
{
    lemma_dropped(s@, text::byte_len(s@) - cap);
}

/// Bytes within the cap stay as they are; of more, the first ones are kept, as
/// many as the cap.
pub proof fn law_capped_bytes(bytes: Vec<u8>, cap: usize, r: Vec<u8>)
    requires
        call_ensures(cap_bytes, (bytes, cap), r),
    ensures
        bytes@.len() <= cap ==> r@ == bytes@,
        bytes@.len() > cap ==> r@.len() == cap,
        r@.is_prefix_of(bytes@),
{
    assert(r@ =~= bytes@.subrange(0, r@.len() as int));
}

/// A part of a log is there in full under its heading, and an empty part adds
/// nothing, not even the heading.
pub proof fn law_log_sections(heading: Seq<char>, part: Seq<char>)
    ensures
        part.len() > 0 ==> section(heading, part) == heading + part,
        part.len() == 0 ==> section(heading, part).len() == 0,
{
}

/// What a process wrote is kept stream by stream, with how it exited.
pub proof fn law_output_is_kept_apart(
    stdout: &[u8],
    stderr: &[u8],
    success: bool,
    code: Option<i32>,
    r: CommandOutput,
)
    requires
        call_ensures(CommandOutput::read, (stdout, stderr, success, code), r),
    ensures
        valid_utf8(stdout@) ==> r.stdout@ == decode_utf8(stdout@),
        valid_utf8(stderr@) ==> r.stderr@ == decode_utf8(stderr@),
        r.success == success,
        r.code == code,
        r@.stdout == r.stdout@ && r@.stderr == r.stderr@ && r@.success == r.success && r@.code
            == r.code,
{
}

/// A log is cut down in place as a copy of it would be, and a part of a log is
/// added behind what is there.
pub proof fn law_logs_grow_and_are_cut(
    log: &mut String,
    heading: &str,
    part: &str,
    s: &mut String,
    cap: usize,
)
    requires
        call_ensures(push_section, (log, heading, part), ()),
        call_ensures(truncate, (s, cap), ()),
        cuttable(old(s)@, cap as nat),
    ensures
        part@.len() > 0 ==> final(log)@ == old(log)@ + (heading@ + part@),
        part@.len() == 0 ==> final(log)@ == old(log)@,
        text::byte_len(old(s)@) <= cap ==> final(s)@ == old(s)@,
{
    if part@.len() == 0 {
        assert(section(heading@, part@) =~= Seq::empty());
        assert(old(log)@ + section(heading@, part@) =~= old(log)@);
    }
}

/// A log over the cap is cut down to a note and its last bytes, exactly as many
/// as the cap; one within it stays whole.
pub proof fn law_cut_logs_are_exact(s: Seq<char>, cap: nat)
    ensures
        text::byte_len(s) <= cap ==> cut_down(s, cap) == Some(s),
        text::byte_len(s) > cap ==> (cut_down(s, cap) matches Some(cut) ==> exists|k: int|
            0 <= k <= s.len() && text::byte_len(#[trigger] s.skip(k)) == cap && cut == "…["@
                + text::decimal((text::byte_len(s) - cap) as nat) + " bytes truncated]…\n"@
                + s.skip(k)),
{
    lemma_dropped(s, text::byte_len(s) - cap);
}

}
