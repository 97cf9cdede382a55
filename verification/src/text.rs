//! Text as sequences of characters: the small vocabulary (trimming, splitting,
//! searching, decimal numbers) that every other module states its contracts in.

use vstd::prelude::*;
use vstd::slice::slice_subrange;
use vstd::utf8::encode_utf8;

verus! {

/// `String::push` appends one character at the end.
pub assume_specification[ String::push ](s: &mut String, c: char)
    ensures
        final(s)@ == old(s)@.push(c),
;

// ---------- strings and their views ----------

/// The texts held by a sequence of strings.
pub open spec fn texts(v: Seq<String>) -> Seq<Seq<char>> {
    Seq::new(v.len(), |i: int| v[i]@)
}

pub broadcast proof fn lemma_texts_push(v: Seq<String>, s: String)
    ensures
        #[trigger] texts(v.push(s)) == texts(v).push(s@),
{
    assert(texts(v.push(s)) =~= texts(v).push(s@));
}

/// The text of an optional string.
pub open spec fn opt_text(o: Option<String>) -> Option<Seq<char>> {
    match o {
        Some(s) => Some(s@),
        None => None,
    }
}

/// A result whose error is a message, with the message as text.
pub open spec fn outcome<T>(r: Result<T, String>) -> Result<T, Seq<char>> {
    match r {
        Ok(t) => Ok(t),
        Err(e) => Err(e@),
    }
}

/// A result that holds a string, both sides as text.
pub open spec fn text_outcome(r: Result<String, String>) -> Result<Seq<char>, Seq<char>> {
    match r {
        Ok(s) => Ok(s@),
        Err(e) => Err(e@),
    }
}

/// A result that holds a list of strings, both sides as text.
pub open spec fn list_outcome(r: Result<Vec<String>, String>) -> Result<
    Seq<Seq<char>>,
    Seq<char>,
> {
    match r {
        Ok(v) => Ok(texts(v@)),
        Err(e) => Err(e@),
    }
}

/// The number of bytes a text takes in UTF-8.
pub open spec fn byte_len(s: Seq<char>) -> nat {
    encode_utf8(s).len()
}

/// The number of bytes `s` takes.
pub fn byte_length(s: &str) -> (n: usize)
    ensures
        n == byte_len(s@),
{
    s.as_bytes().len()
}

/// The characters of a string, one by one.
pub fn to_chars(s: &str) -> (v: Vec<char>)
    ensures
        v@ == s@,
{
    let mut v: Vec<char> = Vec::new();
    for c in it: s.chars()
        invariant
            v@ =~= s@.take(it.index()),
            it.seq() == s@,
    {
        v.push(c);
    }
    assert(s@.take(s@.len() as int) =~= s@);
    v
}

/// The string that holds exactly the given characters.
pub fn from_chars(v: &[char]) -> (s: String)
    ensures
        s@ == v@,
{
    let mut s = String::new();
    let mut i: usize = 0;
    while i < v.len()
        invariant
            i <= v@.len(),
            s@ =~= v@.take(i as int),
        decreases v.len() - i,
    {
        s.push(v[i]);
        i = i + 1;
    }
    assert(v@.take(v@.len() as int) =~= v@);
    s
}

/// An owned copy of a string.
pub fn owned(s: &str) -> (r: String)
    ensures
        r@ == s@,
{
    s.to_owned()
}

/// Appends one more string to a list.
pub fn push_text(v: &mut Vec<String>, s: &str)
    ensures
        texts(final(v)@) == texts(old(v)@).push(s@),
{
    broadcast use lemma_texts_push;

    v.push(s.to_owned());
}

/// Two pieces one after the other.
pub fn join2(a: &str, b: &str) -> (r: String)
    ensures
        r@ == a@ + b@,
{
    let mut r = a.to_owned();
    r.append(b);
    r
}

/// Three pieces one after the other.
pub fn join3(a: &str, b: &str, c: &str) -> (r: String)
    ensures
        r@ == a@ + b@ + c@,
{
    let mut r = a.to_owned();
    r.append(b);
    r.append(c);
    r
}

/// Puts four texts together.
pub fn join4(a: &str, b: &str, c: &str, d: &str) -> (r: String)
    ensures
        r@ == a@ + b@ + c@ + d@,
{
    let mut r = join3(a, b, c);
    r.append(d);
    r
}

/// Puts five texts together.
pub fn join5(a: &str, b: &str, c: &str, d: &str, e: &str) -> (r: String)
    ensures
        r@ == a@ + b@ + c@ + d@ + e@,
{
    let mut r = join4(a, b, c, d);
    r.append(e);
    r
}

/// A copy of a list of strings.
pub fn copy_texts(v: &[String]) -> (r: Vec<String>)
    ensures
        texts(r@) == texts(v@),
{
    broadcast use lemma_texts_push;

    let mut r: Vec<String> = Vec::new();
    let mut i: usize = 0;
    while i < v.len()
        invariant
            i <= v@.len(),
            texts(r@) =~= texts(v@).take(i as int),
        decreases v.len() - i,
    {
        r.push(owned(v[i].as_str()));
        assert(texts(v@).take(i + 1) =~= texts(v@).take(i as int).push(v@[i as int]@));
        i = i + 1;
    }
    assert(texts(v@).take(v@.len() as int) =~= texts(v@));
    r
}

// ---------- characters ----------

/// The characters with the Unicode property `White_Space`.
pub open spec fn is_space(c: char) -> bool {
    let n = c as u32;
    ||| 9 <= n <= 13
    ||| n == 0x20
    ||| n == 0x85
    ||| n == 0xa0
    ||| n == 0x1680
    ||| 0x2000 <= n <= 0x200a
    ||| n == 0x2028
    ||| n == 0x2029
    ||| n == 0x202f
    ||| n == 0x205f
    ||| n == 0x3000
}

/// Whether `c` is white space.
pub fn space(c: char) -> (r: bool)
    ensures
        r == is_space(c),
{
    let n: u32 = c as u32;
    (9 <= n && n <= 13) || n == 0x20 || n == 0x85 || n == 0xa0 || n == 0x1680 || (0x2000 <= n && n
        <= 0x200a) || n == 0x2028 || n == 0x2029 || n == 0x202f || n == 0x205f || n == 0x3000
}

pub open spec fn is_digit(c: char) -> bool {
    '0' <= c && c <= '9'
}

pub open spec fn is_alpha(c: char) -> bool {
    ('a' <= c && c <= 'z') || ('A' <= c && c <= 'Z')
}

pub open spec fn is_alnum(c: char) -> bool {
    is_digit(c) || is_alpha(c)
}

pub open spec fn is_hex(c: char) -> bool {
    is_digit(c) || ('a' <= c && c <= 'f') || ('A' <= c && c <= 'F')
}

/// Whether `c` is an ASCII digit.
pub fn digit(c: char) -> (r: bool)
    ensures
        r == is_digit(c),
{
    '0' <= c && c <= '9'
}

/// Whether `c` is an ASCII letter.
pub fn alpha(c: char) -> (r: bool)
    ensures
        r == is_alpha(c),
{
    ('a' <= c && c <= 'z') || ('A' <= c && c <= 'Z')
}

/// Whether `c` is an ASCII letter or digit.
pub fn alnum(c: char) -> (r: bool)
    ensures
        r == is_alnum(c),
{
    digit(c) || alpha(c)
}

/// Whether `c` is a hexadecimal digit.
pub fn hex_digit(c: char) -> (r: bool)
    ensures
        r == is_hex(c),
{
    digit(c) || ('a' <= c && c <= 'f') || ('A' <= c && c <= 'F')
}

/// ASCII lower case of one character; other characters stay.
pub open spec fn lower_char(c: char) -> char {
    if 'A' <= c && c <= 'Z' {
        (c as u32 + 32) as char
    } else {
        c
    }
}

/// ASCII lower case of a text, character by character.
pub open spec fn lower(s: Seq<char>) -> Seq<char> {
    Seq::new(s.len(), |i: int| lower_char(s[i]))
}

/// `s` in ASCII lower case.
pub fn to_lower(s: &str) -> (r: String)
    ensures
        r@ == lower(s@),
{
    let v = to_chars(s);
    let mut r = String::new();
    let mut i: usize = 0;
    while i < v.len()
        invariant
            i <= v@.len(),
            v@ == s@,
            r@ =~= lower(s@).take(i as int),
        decreases v.len() - i,
    {
        let c = v[i];
        let d: char = if 'A' <= c && c <= 'Z' {
            ((c as u8) + 32) as char
        } else {
            c
        };
        r.push(d);
        i = i + 1;
    }
    assert(lower(s@).take(s@.len() as int) =~= lower(s@));
    r
}

// ---------- comparing and searching ----------

/// Whether two strings hold the same text.
pub fn same(a: &str, b: &str) -> (r: bool)
    ensures
        r == (a@ == b@),
{
    let x = to_chars(a);
    let y = to_chars(b);
    x.len() == y.len() && chars_start_with(x.as_slice(), y.as_slice())
}

/// Whether `v` begins with `p`.
pub fn chars_start_with(v: &[char], p: &[char]) -> (r: bool)
    ensures
        r == p@.is_prefix_of(v@),
        v@.len() == p@.len() ==> r == (v@ == p@),
{
    if p.len() > v.len() {
        return false;
    }
    let mut i: usize = 0;
    while i < p.len()
        invariant
            i <= p@.len() <= v@.len(),
            p@.take(i as int) =~= v@.take(i as int),
        decreases p.len() - i,
    {
        if p[i] != v[i] {
            assert(p@[i as int] != v@.subrange(0, p@.len() as int)[i as int]);
            return false;
        }
        i = i + 1;
    }
    assert(p@.take(p@.len() as int) =~= p@);
    assert(v@.take(p@.len() as int) =~= v@.subrange(0, p@.len() as int));
    assert(v@.len() == p@.len() ==> v@.take(p@.len() as int) =~= v@);
    true
}

/// Whether `s` begins with `p`.
pub fn starts_with(s: &str, p: &str) -> (r: bool)
    ensures
        r == p@.is_prefix_of(s@),
{
    let v = to_chars(s);
    let q = to_chars(p);
    chars_start_with(v.as_slice(), q.as_slice())
}

/// Whether `s` ends with `p`.
pub fn ends_with(s: &str, p: &str) -> (r: bool)
    ensures
        r == p@.is_suffix_of(s@),
{
    let v = to_chars(s);
    let q = to_chars(p);
    if q.len() > v.len() {
        return false;
    }
    let tail = slice_subrange(v.as_slice(), v.len() - q.len(), v.len());
    chars_start_with(tail, q.as_slice())
}

/// Whether the text begins with the character `c`.
pub open spec fn begins(s: Seq<char>, c: char) -> bool {
    s.len() > 0 && s[0] == c
}

/// Whether `s` begins with the character `c`.
pub fn starts_with_char(s: &str, c: char) -> (r: bool)
    ensures
        r == begins(s@, c),
{
    let v = to_chars(s);
    v.len() > 0 && v[0] == c
}

/// Whether the text ends with the character `c`.
pub open spec fn finishes(s: Seq<char>, c: char) -> bool {
    s.len() > 0 && s.last() == c
}

/// Whether `s` ends with the character `c`.
pub fn ends_with_char(s: &str, c: char) -> (r: bool)
    ensures
        r == finishes(s@, c),
{
    let v = to_chars(s);
    v.len() > 0 && v[v.len() - 1] == c
}

/// Whether the character `c` occurs in `s`.
pub fn contains_char(s: &str, c: char) -> (r: bool)
    ensures
        r == s@.contains(c),
{
    let v = to_chars(s);
    let mut i: usize = 0;
    while i < v.len()
        invariant
            i <= v@.len(),
            v@ == s@,
            forall|j: int| 0 <= j < i ==> v@[j] != c,
        decreases v.len() - i,
    {
        if v[i] == c {
            assert(s@[i as int] == c);
            return true;
        }
        i = i + 1;
    }
    false
}

/// Whether every character is an ASCII letter, an ASCII digit or one of some
/// further characters.
pub open spec fn alnum_or(s: Seq<char>, further: Seq<char>) -> bool {
    forall|i: int| 0 <= i < s.len() ==> is_alnum(#[trigger] s[i]) || further.contains(s[i])
}

/// Tests for letters, digits and some further characters only.
pub fn only_alnum_or(s: &str, further: &str) -> (r: bool)
    ensures
        r == alnum_or(s@, further@),
{
    for c in it: s.chars()
        invariant
            it.seq() == s@,
            forall|i: int| 0 <= i < it.index() ==> is_alnum(#[trigger] s@[i]) || further@.contains(s@[i]),
    {
        if !alnum(c) && !contains_char(further, c) {
            assert(s@[it.index() as int] == c);
            return false;
        }
    }
    true
}

/// What follows a prefix, where the text has it.
pub open spec fn after_prefix(s: Seq<char>, p: Seq<char>) -> Option<Seq<char>> {
    if p.is_prefix_of(s) {
        Some(s.skip(p.len() as int))
    } else {
        None
    }
}

/// Takes a prefix off.
pub fn strip_prefix(s: &str, p: &str) -> (r: Option<String>)
    ensures
        opt_text(r) == after_prefix(s@, p@),
{
    if !starts_with(s, p) {
        return None;
    }
    let v = to_chars(s);
    let w = to_chars(p);
    let rest = slice_subrange(v.as_slice(), w.len(), v.len());
    assert(rest@ =~= s@.skip(p@.len() as int));
    Some(from_chars(rest))
}

/// What is left once a prefix has been taken off as often as it is there.
pub open spec fn strip_all(s: Seq<char>, p: Seq<char>) -> Seq<char>
    decreases s.len(),
{
    if p.len() > 0 && p.is_prefix_of(s) {
        strip_all(s.skip(p.len() as int), p)
    } else {
        s
    }
}

/// Takes a prefix off as often as it is there.
pub fn strip_prefixes(s: &str, p: &str) -> (r: String)
    ensures
        r@ == strip_all(s@, p@),
    decreases s@.len(),
{
    if p.is_empty() {
        return owned(s);
    }
    match strip_prefix(s, p) {
        Some(rest) => strip_prefixes(rest.as_str(), p),
        None => owned(s),
    }
}

/// The two sides of the first separator: all of the text and nothing where
/// there is none.
pub open spec fn halves(s: Seq<char>, sep: char) -> (Seq<char>, Option<Seq<char>>) {
    if s.contains(sep) {
        (s.take(first_at(s, sep) as int), Some(s.skip(first_at(s, sep) as int + 1)))
    } else {
        (s, None)
    }
}

/// Splits at the first separator.
pub fn split_first(s: &str, sep: char) -> (r: (String, Option<String>))
    ensures
        (r.0@, opt_text(r.1)) == halves(s@, sep),
{
    let v = to_chars(s);
    let i = index_of(v.as_slice(), sep);
    proof {
        lemma_first_at(s@, sep);
    }
    if i < v.len() {
        assert(s@[i as int] == sep);
        let head = slice_subrange(v.as_slice(), 0, i);
        let tail = slice_subrange(v.as_slice(), i + 1, v.len());
        assert(head@ =~= s@.take(i as int));
        assert(tail@ =~= s@.skip(i as int + 1));
        (from_chars(head), Some(from_chars(tail)))
    } else {
        (owned(s), None)
    }
}

/// The text after the last separator: all of it where there is none.
pub open spec fn after_last(s: Seq<char>, sep: char) -> Seq<char>
    decreases s.len(),
{
    if s.len() == 0 || s.last() == sep {
        Seq::empty()
    } else {
        after_last(s.drop_last(), sep).push(s.last())
    }
}

/// The text after the last separator.
pub fn last_part(s: &str, sep: char) -> (r: String)
    ensures
        r@ == after_last(s@, sep),
{
    let v = to_chars(s);
    let mut r = String::new();
    let mut i: usize = 0;
    while i < v.len()
        invariant
            i <= v@.len(),
            v@ == s@,
            r@ == after_last(s@.take(i as int), sep),
        decreases v@.len() - i,
    {
        if v[i] == sep {
            r = String::new();
        } else {
            r.push(v[i]);
        }
        i += 1;
        assert(s@.take(i as int).drop_last() =~= s@.take(i - 1));
    }
    assert(s@.take(i as int) =~= s@);
    r
}

/// Takes every trailing occurrence of a character off.
pub fn trim_end_char(s: &str, c: char) -> (r: String)
    ensures
        r@ == strip_back(s@, c),
{
    let v = to_chars(s);
    from_chars(drop_char(v.as_slice(), c))
}

/// Whether two lists of bytes hold the same bytes.
pub fn same_bytes(a: &[u8], b: &[u8]) -> (r: bool)
    ensures
        r == (a@ == b@),
{
    if a.len() != b.len() {
        return false;
    }
    let mut i: usize = 0;
    while i < a.len()
        invariant
            a@.len() == b@.len(),
            i <= a@.len(),
            forall|j: int| 0 <= j < i ==> a@[j] == b@[j],
        decreases a@.len() - i,
    {
        if a[i] != b[i] {
            return false;
        }
        i += 1;
    }
    assert(a@ =~= b@);
    true
}

/// Tests two lists of texts for equality.
pub fn same_texts(a: &[String], b: &[String]) -> (r: bool)
    ensures
        r == (texts(a@) == texts(b@)),
{
    if a.len() != b.len() {
        assert(texts(a@).len() != texts(b@).len());
        return false;
    }
    let mut i: usize = 0;
    while i < a.len()
        invariant
            a@.len() == b@.len(),
            i <= a@.len(),
            forall|j: int| 0 <= j < i ==> texts(a@)[j] == texts(b@)[j],
        decreases a@.len() - i,
    {
        if !same(a[i].as_str(), b[i].as_str()) {
            assert(texts(a@)[i as int] != texts(b@)[i as int]);
            return false;
        }
        i += 1;
    }
    assert(texts(a@) =~= texts(b@));
    true
}

/// Looks for a text in a list.
pub fn listed(v: &[String], s: &str) -> (r: bool)
    ensures
        r == texts(v@).contains(s@),
{
    let mut i: usize = 0;
    while i < v.len()
        invariant
            i <= v@.len(),
            forall|j: int| 0 <= j < i ==> #[trigger] texts(v@)[j] != s@,
        decreases v@.len() - i,
    {
        if same(v[i].as_str(), s) {
            assert(texts(v@)[i as int] == s@);
            return true;
        }
        i += 1;
    }
    false
}

/// Takes leading blanks off.
pub fn trim_start(s: &str) -> (r: String)
    ensures
        r@ == trim_front(s@),
{
    let v = to_chars(s);
    from_chars(skip_space(v.as_slice()))
}

/// Takes every leading occurrence of a character off.
pub fn trim_start_char(s: &str, c: char) -> (r: String)
    ensures
        r@ == strip_front(s@, c),
{
    let v = to_chars(s);
    from_chars(skip_char(v.as_slice(), c))
}

/// Where the first blank is, or the end of the text.
pub open spec fn first_space(s: Seq<char>) -> nat
    decreases s.len(),
{
    if s.len() == 0 || is_space(s[0]) {
        0
    } else {
        1 + first_space(s.skip(1))
    }
}

/// The columns of a line, at most `n` of them, with any amount of white space
/// between them: the last one is the rest, without the white space around it.
pub open spec fn columns(s: Seq<char>, n: nat) -> Seq<Seq<char>>
    decreases n,
{
    let t = trim_front(s);
    if n == 0 || t.len() == 0 {
        Seq::empty()
    } else if n == 1 {
        seq![trimmed(t)]
    } else {
        seq![t.take(first_space(t) as int)] + columns(
            t.skip(first_space(t) as int),
            (n - 1) as nat,
        )
    }
}

/// Splits a line into at most `n` columns.
pub fn split_columns(s: &str, n: usize) -> (r: Vec<String>)
    ensures
        texts(r@) == columns(s@, n as nat),
    decreases n,
{
    let mut r: Vec<String> = Vec::new();
    let t = trim_start(s);
    if n == 0 || t.as_str().is_empty() {
        assert(texts(r@) =~= Seq::empty());
        return r;
    }
    if n == 1 {
        r.push(trim(t.as_str()));
        assert(texts(r@) =~= seq![trimmed(t@)]);
        return r;
    }
    let v = to_chars(t.as_str());
    let mut i: usize = 0;
    assert(v@.skip(0) =~= v@);
    while i < v.len() && !space(v[i])
        invariant
            i <= v@.len(),
            v@ == t@,
            first_space(t@) == i + first_space(v@.skip(i as int)),
        decreases v@.len() - i,
    {
        assert(v@.skip(i as int).skip(1) =~= v@.skip(i + 1));
        i += 1;
    }
    let head = slice_subrange(v.as_slice(), 0, i);
    let tail = slice_subrange(v.as_slice(), i, v.len());
    assert(head@ =~= t@.take(i as int));
    assert(tail@ =~= t@.skip(i as int));
    r.push(from_chars(head));
    assert(texts(r@) =~= seq![t@.take(i as int)]);
    let ghost first = r@;
    let mut rest = split_columns(from_chars(tail).as_str(), n - 1);
    let ghost second = rest@;
    r.append(&mut rest);
    assert(texts(r@) =~= texts(first) + texts(second));
    r
}

/// The first line of some that is not blank.
pub open spec fn first_said(rows: Seq<Seq<char>>) -> Seq<char>
    decreases rows.len(),
{
    if rows.len() == 0 {
        Seq::empty()
    } else if trimmed(rows[0]).len() > 0 {
        rows[0]
    } else {
        first_said(rows.skip(1))
    }
}

/// The first line that is not blank.
pub fn first_said_line(s: &str) -> (r: String)
    ensures
        r@ == first_said(lines(s@)),
{
    let rows = split_lines(s);
    let mut i: usize = 0;
    assert(texts(rows@).skip(0) =~= texts(rows@));
    while i < rows.len()
        invariant
            i <= rows@.len(),
            texts(rows@) == lines(s@),
            first_said(lines(s@)) == first_said(texts(rows@).skip(i as int)),
        decreases rows@.len() - i,
    {
        assert(texts(rows@).skip(i as int)[0] == rows@[i as int]@);
        if !trim(rows[i].as_str()).as_str().is_empty() {
            return owned(rows[i].as_str());
        }
        assert(texts(rows@).skip(i as int).skip(1) =~= texts(rows@).skip(i + 1));
        i += 1;
    }
    let r = String::new();
    assert(r@ =~= Seq::empty());
    r
}

/// One of some texts, or nothing where there are not so many.
pub open spec fn nth(v: Seq<Seq<char>>, i: int) -> Seq<char> {
    if 0 <= i < v.len() {
        v[i]
    } else {
        Seq::empty()
    }
}

/// One of some texts, or nothing where there are not so many.
pub fn field(v: &[String], i: usize) -> (r: String)
    ensures
        r@ == nth(texts(v@), i as int),
{
    if i < v.len() {
        assert(texts(v@)[i as int] == v@[i as int]@);
        owned(v[i].as_str())
    } else {
        let r = String::new();
        assert(r@ =~= Seq::empty());
        r
    }
}

/// At most the first `n` characters of a text.
pub open spec fn shortened(s: Seq<char>, n: nat) -> Seq<char> {
    if s.len() <= n {
        s
    } else {
        s.take(n as int)
    }
}

/// Keeps at most the first `n` characters of a text.
pub fn shorten(s: &str, n: usize) -> (r: String)
    ensures
        r@ == shortened(s@, n as nat),
{
    let v = to_chars(s);
    if v.len() <= n {
        owned(s)
    } else {
        let head = slice_subrange(v.as_slice(), 0, n);
        assert(head@ =~= s@.take(n as int));
        from_chars(head)
    }
}

/// Copies some bytes.
pub fn copy_bytes(v: &[u8]) -> (r: Vec<u8>)
    ensures
        r@ == v@,
{
    let mut r: Vec<u8> = Vec::new();
    let mut i: usize = 0;
    while i < v.len()
        invariant
            i <= v@.len(),
            r@ == v@.take(i as int),
        decreases v@.len() - i,
    {
        r.push(v[i]);
        i += 1;
        assert(v@.take(i as int) =~= v@.take(i - 1).push(v@[i - 1]));
    }
    assert(v@.take(i as int) =~= v@);
    r
}

/// The place of the first `c`, or the length where `c` does not occur.
pub open spec fn first_at(s: Seq<char>, c: char) -> nat
    decreases s.len(),
{
    if s.len() == 0 || s[0] == c {
        0
    } else {
        1 + first_at(s.skip(1), c)
    }
}

pub proof fn lemma_first_at(s: Seq<char>, c: char)
    ensures
        first_at(s, c) <= s.len(),
        first_at(s, c) < s.len() ==> s[first_at(s, c) as int] == c,
        forall|j: int| 0 <= j < first_at(s, c) ==> s[j] != c,
        first_at(s, c) < s.len() <==> s.contains(c),
    decreases s.len(),
{
    if s.len() != 0 && s[0] != c {
        let t = s.skip(1);
        lemma_first_at(t, c);
        assert forall|j: int| 0 <= j < first_at(s, c) implies s[j] != c by {
            if j > 0 {
                assert(t[j - 1] == s[j]);
            }
        }
        if s.contains(c) {
            let k = choose|k: int| 0 <= k < s.len() && s[k] == c;
            assert(t[k - 1] == c);
        }
    }
}

/// The place of the first `c` in `v`, or its length.
pub fn index_of(v: &[char], c: char) -> (i: usize)
    ensures
        i == first_at(v@, c),
        i <= v@.len(),
{
    let mut i: usize = 0;
    assert(v@.skip(0) =~= v@);
    while i < v.len() && v[i] != c
        invariant
            i <= v@.len(),
            first_at(v@, c) == i + first_at(v@.skip(i as int), c),
        decreases v.len() - i,
    {
        assert(v@.skip(i as int).skip(1) =~= v@.skip(i + 1));
        i = i + 1;
    }
    i
}

/// The place where `p` first occurs in `s`, if it does.
pub open spec fn find_at(s: Seq<char>, p: Seq<char>) -> Option<nat>
    decreases s.len(),
{
    if p.is_prefix_of(s) {
        Some(0)
    } else if s.len() == 0 {
        None
    } else {
        match find_at(s.skip(1), p) {
            Some(k) => Some(k + 1),
            None => None,
        }
    }
}

pub proof fn lemma_find_bound(s: Seq<char>, p: Seq<char>)
    ensures
        find_at(s, p) matches Some(k) ==> k + p.len() <= s.len() && p == s.subrange(
            k as int,
            (k + p.len()) as int,
        ),
    decreases s.len(),
{
    if !p.is_prefix_of(s) && s.len() > 0 {
        lemma_find_bound(s.skip(1), p);
        if let Some(k) = find_at(s.skip(1), p) {
            assert(s.skip(1).subrange(k as int, (k + p.len()) as int) =~= s.subrange(
                (k + 1) as int,
                (k + 1 + p.len()) as int,
            ));
        }
    }
}

/// The place where `p` first occurs in `v`.
pub fn find(v: &[char], p: &[char]) -> (r: Option<usize>)
    ensures
        match r {
            Some(k) => find_at(v@, p@) == Some(k as nat) && k + p@.len() <= v@.len(),
            None => find_at(v@, p@) is None,
        },
{
    let mut i: usize = 0;
    assert(v@.skip(0) =~= v@);
    proof {
        lemma_find_bound(v@, p@);
    }
    while i < v.len()
        invariant
            i <= v@.len(),
            find_at(v@, p@) == match find_at(v@.skip(i as int), p@) {
                Some(k) => Some(k + i as nat),
                None => None,
            },
            find_at(v@, p@) matches Some(k) ==> k + p@.len() <= v@.len(),
        decreases v.len() - i,
    {
        let rest = slice_subrange(v, i, v.len());
        assert(rest@ =~= v@.skip(i as int));
        if chars_start_with(rest, p) {
            return Some(i);
        }
        assert(v@.skip(i as int).skip(1) =~= v@.skip(i + 1));
        i = i + 1;
    }
    if p.len() == 0 {
        assert(p@ =~= v@.skip(i as int).subrange(0, 0));
        return Some(i);
    }
    None
}

/// Whether the text `p` occurs in the text `s`.
pub open spec fn occurs(p: Seq<char>, s: Seq<char>) -> bool {
    find_at(s, p) is Some
}

/// Whether `p` occurs in `s`.
pub fn contains_text(s: &str, p: &str) -> (r: bool)
    ensures
        r == occurs(p@, s@),
{
    let v = to_chars(s);
    let q = to_chars(p);
    find(v.as_slice(), q.as_slice()).is_some()
}

// ---------- trimming ----------

/// Without the white space at the front.
pub open spec fn trim_front(s: Seq<char>) -> Seq<char>
    decreases s.len(),
{
    if s.len() == 0 || !is_space(s[0]) {
        s
    } else {
        trim_front(s.skip(1))
    }
}

/// Without the white space at the end.
pub open spec fn trim_back(s: Seq<char>) -> Seq<char>
    decreases s.len(),
{
    if s.len() == 0 || !is_space(s.last()) {
        s
    } else {
        trim_back(s.drop_last())
    }
}

/// Without the white space at both ends.
pub open spec fn trimmed(s: Seq<char>) -> Seq<char> {
    trim_back(trim_front(s))
}

/// Without any `c` at the front.
pub open spec fn strip_front(s: Seq<char>, c: char) -> Seq<char>
    decreases s.len(),
{
    if s.len() == 0 || s[0] != c {
        s
    } else {
        strip_front(s.skip(1), c)
    }
}

/// Without any `c` at the end.
pub open spec fn strip_back(s: Seq<char>, c: char) -> Seq<char>
    decreases s.len(),
{
    if s.len() == 0 || s.last() != c {
        s
    } else {
        strip_back(s.drop_last(), c)
    }
}

/// The part of `v` behind its leading white space.
pub fn skip_space<'a>(v: &'a [char]) -> (r: &'a [char])
    ensures
        r@ == trim_front(v@),
{
    let mut i: usize = 0;
    assert(v@.skip(0) =~= v@);
    while i < v.len() && space(v[i])
        invariant
            i <= v@.len(),
            trim_front(v@) == trim_front(v@.skip(i as int)),
        decreases v.len() - i,
    {
        assert(v@.skip(i as int).skip(1) =~= v@.skip(i + 1));
        i = i + 1;
    }
    assert(v@.skip(i as int) =~= v@.subrange(i as int, v@.len() as int));
    slice_subrange(v, i, v.len())
}

/// The part of `v` before its trailing white space.
pub fn drop_space<'a>(v: &'a [char]) -> (r: &'a [char])
    ensures
        r@ == trim_back(v@),
{
    let mut n: usize = v.len();
    assert(v@.take(n as int) =~= v@);
    while n > 0 && space(v[n - 1])
        invariant
            n <= v@.len(),
            trim_back(v@) == trim_back(v@.take(n as int)),
        decreases n,
    {
        assert(v@.take(n as int).drop_last() =~= v@.take(n - 1));
        n = n - 1;
    }
    assert(v@.take(n as int) =~= v@.subrange(0, n as int));
    slice_subrange(v, 0, n)
}

/// The part of `v` behind its leading `c`s.
pub fn skip_char<'a>(v: &'a [char], c: char) -> (r: &'a [char])
    ensures
        r@ == strip_front(v@, c),
{
    let mut i: usize = 0;
    assert(v@.skip(0) =~= v@);
    while i < v.len() && v[i] == c
        invariant
            i <= v@.len(),
            strip_front(v@, c) == strip_front(v@.skip(i as int), c),
        decreases v.len() - i,
    {
        assert(v@.skip(i as int).skip(1) =~= v@.skip(i + 1));
        i = i + 1;
    }
    assert(v@.skip(i as int) =~= v@.subrange(i as int, v@.len() as int));
    slice_subrange(v, i, v.len())
}

/// The part of `v` before its trailing `c`s.
pub fn drop_char<'a>(v: &'a [char], c: char) -> (r: &'a [char])
    ensures
        r@ == strip_back(v@, c),
{
    let mut n: usize = v.len();
    assert(v@.take(n as int) =~= v@);
    while n > 0 && v[n - 1] == c
        invariant
            n <= v@.len(),
            strip_back(v@, c) == strip_back(v@.take(n as int), c),
        decreases n,
    {
        assert(v@.take(n as int).drop_last() =~= v@.take(n - 1));
        n = n - 1;
    }
    assert(v@.take(n as int) =~= v@.subrange(0, n as int));
    slice_subrange(v, 0, n)
}

/// `s` without the white space at both ends.
pub fn trim(s: &str) -> (r: String)
    ensures
        r@ == trimmed(s@),
{
    let v = to_chars(s);
    from_chars(drop_space(skip_space(v.as_slice())))
}

proof fn lemma_trim_front(s: Seq<char>)
    ensures
        trim_front(s).len() > 0 ==> !is_space(trim_front(s)[0]),
        trim_front(s).len() <= s.len(),
    decreases s.len(),
{
    if s.len() > 0 && is_space(s[0]) {
        lemma_trim_front(s.skip(1));
    }
}

proof fn lemma_trim_back(s: Seq<char>)
    ensures
        trim_back(s).len() > 0 ==> !is_space(trim_back(s).last()) && trim_back(s)[0] == s[0],
        trim_back(s).len() <= s.len(),
    decreases s.len(),
{
    if s.len() > 0 && is_space(s.last()) {
        lemma_trim_back(s.drop_last());
    }
}

// ---------- splitting and joining ----------

/// The pieces of a text between its separators. A separator at the end of
/// the text opens a new, empty piece; any other character extends the last.
pub open spec fn split(s: Seq<char>, sep: char) -> Seq<Seq<char>>
    decreases s.len(),
{
    if s.len() == 0 {
        seq![Seq::empty()]
    } else {
        let init = split(s.drop_last(), sep);
        if s.last() == sep {
            init.push(Seq::empty())
        } else {
            init.drop_last().push(init.last().push(s.last()))
        }
    }
}

pub proof fn lemma_split_some(s: Seq<char>, sep: char)
    ensures
        split(s, sep).len() >= 1,
    decreases s.len(),
{
    if s.len() > 0 {
        lemma_split_some(s.drop_last(), sep);
    }
}

/// No piece holds the separator.
pub proof fn lemma_split_free(s: Seq<char>, sep: char)
    ensures
        forall|i: int|
            0 <= i < split(s, sep).len() ==> !(#[trigger] split(s, sep)[i]).contains(sep),
    decreases s.len(),
{
    lemma_split_some(s, sep);
    if s.len() > 0 {
        lemma_split_some(s.drop_last(), sep);
        lemma_split_free(s.drop_last(), sep);
        let init = split(s.drop_last(), sep);
        assert forall|i: int| 0 <= i < split(s, sep).len() implies !(#[trigger] split(
            s,
            sep,
        )[i]).contains(sep) by {
            if s.last() != sep && i == init.len() - 1 {
                let p = init.last();
                assert(!init[init.len() - 1].contains(sep));
                assert(split(s, sep)[i] == p.push(s.last()));
                assert forall|k: int| 0 <= k < p.push(s.last()).len() implies p.push(s.last())[k]
                    != sep by {
                    if k < p.len() {
                        assert(p[k] == p.push(s.last())[k]);
                    }
                }
            } else if i < init.len() {
                assert(split(s, sep)[i] == init[i]);
            }
        }
    }
}

/// Every character of a piece is a character of the text.
pub proof fn lemma_split_subset(s: Seq<char>, sep: char)
    ensures
        forall|i: int, c: char|
            0 <= i < split(s, sep).len() && (#[trigger] split(s, sep)[i]).contains(c)
                ==> #[trigger] s.contains(c),
    decreases s.len(),
{
    if s.len() > 0 {
        let t = s.drop_last();
        lemma_split_some(t, sep);
        lemma_split_subset(t, sep);
        let init = split(t, sep);
        assert forall|i: int, c: char|
            0 <= i < split(s, sep).len() && (#[trigger] split(s, sep)[i]).contains(
                c,
            ) implies #[trigger] s.contains(c) by {
            let piece = split(s, sep)[i];
            let k = choose|k: int| 0 <= k < piece.len() && piece[k] == c;
            if s.last() != sep && i == init.len() - 1 {
                assert(piece == init.last().push(s.last()));
                if k == init.last().len() {
                    assert(s[s.len() - 1] == c);
                } else {
                    assert(init[i][k] == c);
                    assert(init[i].contains(c));
                    assert(t.contains(c));
                    let j = choose|j: int| 0 <= j < t.len() && t[j] == c;
                    assert(s[j] == c);
                }
            } else {
                assert(i < init.len());
                assert(piece == init[i]);
                assert(init[i].contains(c));
                assert(t.contains(c));
                let j = choose|j: int| 0 <= j < t.len() && t[j] == c;
                assert(s[j] == c);
            }
        }
    }
}

/// Text without a separator only lengthens the last piece.
pub proof fn lemma_split_extend(s: Seq<char>, t: Seq<char>, sep: char)
    requires
        !t.contains(sep),
    ensures
        split(s + t, sep) == split(s, sep).drop_last().push(split(s, sep).last() + t),
    decreases t.len(),
{
    lemma_split_some(s, sep);
    let p = split(s, sep);
    if t.len() == 0 {
        assert(s + t =~= s);
        assert(p.last() + t =~= p.last());
        assert(p.drop_last().push(p.last()) =~= p);
    } else {
        let u = t.drop_last();
        assert forall|k: int| 0 <= k < u.len() implies u[k] != sep by {
            assert(t[k] == u[k]);
        }
        lemma_split_extend(s, u, sep);
        assert((s + t).drop_last() =~= s + u);
        assert((s + t).last() == t.last());
        assert(t.last() == t[t.len() - 1]);
        assert(p.drop_last().push(p.last() + u).drop_last() =~= p.drop_last());
        assert((p.last() + u).push(t.last()) =~= p.last() + t);
    }
}

/// Joining pieces and splitting again gives the pieces back.
pub proof fn lemma_split_joined(parts: Seq<Seq<char>>, sep: char)
    requires
        parts.len() > 0,
        forall|i: int| 0 <= i < parts.len() ==> !(#[trigger] parts[i]).contains(sep),
    ensures
        split(joined(parts, seq![sep]), sep) == parts,
    decreases parts.len(),
{
    let last = parts.last();
    assert(last == parts[parts.len() - 1]);
    if parts.len() == 1 {
        lemma_split_extend(Seq::empty(), last, sep);
        assert(Seq::<char>::empty() + last =~= last);
        assert(split(last, sep) =~= parts);
    } else {
        let init = parts.drop_last();
        assert forall|i: int| 0 <= i < init.len() implies !(#[trigger] init[i]).contains(sep) by {
            assert(init[i] == parts[i]);
        }
        lemma_split_joined(init, sep);
        let head = joined(init, seq![sep]);
        let opened = head + seq![sep];
        assert(opened.drop_last() =~= head);
        assert(opened.last() == sep);
        assert(split(opened, sep) == init.push(Seq::empty()));
        lemma_split_extend(opened, last, sep);
        assert(init.push(Seq::<char>::empty()).drop_last() =~= init);
        assert(Seq::<char>::empty() + last =~= last);
        assert(init.push(last) =~= parts);
    }
}

/// A separator between two texts keeps their pieces apart.
pub proof fn lemma_split_between(s: Seq<char>, t: Seq<char>, sep: char)
    ensures
        split(s + seq![sep] + t, sep) == split(s, sep) + split(t, sep),
    decreases t.len(),
{
    let head = s + seq![sep];
    let p = split(s, sep);
    if t.len() == 0 {
        assert(head + t =~= head);
        assert(head.drop_last() =~= s);
        assert(head.last() == sep);
        assert(p.push(Seq::<char>::empty()) =~= p + split(t, sep));
    } else {
        let u = t.drop_last();
        let q = split(u, sep);
        lemma_split_between(s, u, sep);
        lemma_split_some(u, sep);
        assert((head + t).drop_last() =~= head + u);
        assert((head + t).last() == t.last());
        assert((p + q).last() == q.last());
        assert((p + q).drop_last() =~= p + q.drop_last());
        if t.last() == sep {
            assert((p + q).push(Seq::<char>::empty()) =~= p + q.push(Seq::<char>::empty()));
        } else {
            let last = q.last().push(t.last());
            assert((p + q.drop_last()).push(last) =~= p + q.drop_last().push(last));
        }
    }
}

/// A separator in front opens one more, empty piece there.
pub proof fn lemma_split_leading(s: Seq<char>, sep: char)
    ensures
        split(seq![sep] + s, sep) == seq![Seq::<char>::empty()] + split(s, sep),
    decreases s.len(),
{
    let e = seq![Seq::<char>::empty()];
    let w = seq![sep] + s;
    if s.len() == 0 {
        assert(w.drop_last() =~= Seq::<char>::empty());
        assert(s =~= Seq::<char>::empty());
        assert(split(Seq::<char>::empty(), sep) == e);
        assert(w.last() == sep);
        assert(e.push(Seq::<char>::empty()) =~= e + e);
    } else {
        lemma_split_leading(s.drop_last(), sep);
        lemma_split_some(s.drop_last(), sep);
        let init = split(s.drop_last(), sep);
        assert(w.drop_last() =~= seq![sep] + s.drop_last());
        assert(w.last() == s.last());
        if s.last() == sep {
            assert((e + init).push(Seq::empty()) =~= e + init.push(Seq::empty()));
        } else {
            assert((e + init).drop_last() =~= e + init.drop_last());
            assert(split(w, sep) =~= e + split(s, sep));
        }
    }
}

/// The pieces of `v` between the separators `sep`.
pub fn split_chars(v: &[char], sep: char) -> (r: Vec<String>)
    ensures
        texts(r@) == split(v@, sep),
        r@.len() >= 1,
{
    broadcast use lemma_texts_push;

    let mut done: Vec<String> = Vec::new();
    let mut cur = String::new();
    let mut i: usize = 0;
    assert(v@.take(0) =~= Seq::empty());
    assert(texts(done@).push(cur@) =~= seq![Seq::<char>::empty()]);
    while i < v.len()
        invariant
            i <= v@.len(),
            texts(done@).push(cur@) == split(v@.take(i as int), sep),
        decreases v.len() - i,
    {
        assert(v@.take(i + 1).drop_last() =~= v@.take(i as int));
        let ghost before = texts(done@).push(cur@);
        assert(before.drop_last() =~= texts(done@));
        let c = v[i];
        if c == sep {
            done.push(cur);
            cur = String::new();
        } else {
            cur.push(c);
        }
        i = i + 1;
    }
    assert(v@.take(v@.len() as int) =~= v@);
    done.push(cur);
    done
}

/// The pieces of `s` between the separators `sep`.
pub fn split_text(s: &str, sep: char) -> (r: Vec<String>)
    ensures
        texts(r@) == split(s@, sep),
        r@.len() >= 1,
{
    let v = to_chars(s);
    split_chars(v.as_slice(), sep)
}

/// A line without the carriage return that belongs to its line break.
pub open spec fn without_return(s: Seq<char>) -> Seq<char> {
    if finishes(s, '\r') {
        s.drop_last()
    } else {
        s
    }
}

/// The lines of a text. A line break is a line feed, with or without a
/// carriage return before it; a break at the very end opens no further line.
pub open spec fn lines(s: Seq<char>) -> Seq<Seq<char>> {
    let p = split(s, '\n');
    let body = Seq::new((p.len() - 1) as nat, |i: int| without_return(p[i]));
    if p.last().len() == 0 {
        body
    } else {
        body.push(p.last())
    }
}

/// The lines of `s`.
pub fn split_lines(s: &str) -> (r: Vec<String>)
    ensures
        texts(r@) == lines(s@),
{
    broadcast use lemma_texts_push;

    let p = split_text(s, '\n');
    let mut r: Vec<String> = Vec::new();
    let ghost whole = split(s@, '\n');
    let ghost body = Seq::new((whole.len() - 1) as nat, |i: int| without_return(whole[i]));
    let mut i: usize = 0;
    let last: usize = p.len() - 1;
    while i < last
        invariant
            i <= last,
            last + 1 == p@.len(),
            texts(p@) == whole,
            body == Seq::new((whole.len() - 1) as nat, |i: int| without_return(whole[i])),
            texts(r@) =~= body.take(i as int),
        decreases last - i,
    {
        let line = to_chars(p[i].as_str());
        assert(line@ == whole[i as int]);
        let n = line.len();
        if n > 0 && line[n - 1] == '\r' {
            let head = slice_subrange(line.as_slice(), 0, n - 1);
            assert(head@ =~= line@.drop_last());
            r.push(from_chars(head));
        } else {
            r.push(owned(p[i].as_str()));
        }
        assert(body.take(i + 1) =~= body.take(i as int).push(without_return(line@)));
        i = i + 1;
    }
    assert(body.take(body.len() as int) =~= body);
    assert(whole.last() == p@[p@.len() - 1]@);
    if !p[last].as_str().is_empty() {
        r.push(owned(p[last].as_str()));
    }
    r
}

/// The pieces of a text between its white space characters.
pub open spec fn space_pieces(s: Seq<char>) -> Seq<Seq<char>>
    decreases s.len(),
{
    if s.len() == 0 {
        seq![Seq::empty()]
    } else {
        let init = space_pieces(s.drop_last());
        if is_space(s.last()) {
            init.push(Seq::empty())
        } else {
            init.drop_last().push(init.last().push(s.last()))
        }
    }
}

pub proof fn lemma_space_pieces_some(s: Seq<char>)
    ensures
        space_pieces(s).len() >= 1,
    decreases s.len(),
{
    if s.len() > 0 {
        lemma_space_pieces_some(s.drop_last());
    }
}

/// The pieces that are not empty, in order.
pub open spec fn nonempty(p: Seq<Seq<char>>) -> Seq<Seq<char>>
    decreases p.len(),
{
    if p.len() == 0 {
        Seq::empty()
    } else if p.last().len() == 0 {
        nonempty(p.drop_last())
    } else {
        nonempty(p.drop_last()).push(p.last())
    }
}

/// The words of a text: its pieces between white space, without the empty ones.
pub open spec fn words(s: Seq<char>) -> Seq<Seq<char>> {
    nonempty(space_pieces(s))
}

/// The words of `s`.
pub fn split_words(s: &str) -> (r: Vec<String>)
    ensures
        texts(r@) == words(s@),
{
    broadcast use lemma_texts_push;

    let v = to_chars(s);
    let mut done: Vec<String> = Vec::new();
    let mut cur = String::new();
    let mut i: usize = 0;
    let ghost mut pieces: Seq<Seq<char>> = Seq::empty();
    assert(v@.take(0) =~= Seq::empty());
    assert(pieces.push(cur@) =~= seq![Seq::<char>::empty()]);
    assert(texts(done@) =~= Seq::empty());
    while i < v.len()
        invariant
            i <= v@.len(),
            v@ == s@,
            pieces.push(cur@) == space_pieces(v@.take(i as int)),
            texts(done@) == nonempty(pieces),
        decreases v.len() - i,
    {
        assert(v@.take(i + 1).drop_last() =~= v@.take(i as int));
        assert(pieces.push(cur@).drop_last() =~= pieces);
        let c = v[i];
        if space(c) {
            proof {
                pieces = pieces.push(cur@);
            }
            if !cur.as_str().is_empty() {
                done.push(cur);
            }
            cur = String::new();
        } else {
            cur.push(c);
        }
        i = i + 1;
    }
    assert(v@.take(v@.len() as int) =~= v@);
    assert(pieces.push(cur@).drop_last() =~= pieces);
    if !cur.as_str().is_empty() {
        done.push(cur);
    }
    done
}

/// Parts with a separator between each two.
pub open spec fn joined(parts: Seq<Seq<char>>, sep: Seq<char>) -> Seq<char>
    decreases parts.len(),
{
    if parts.len() == 0 {
        Seq::empty()
    } else if parts.len() == 1 {
        parts[0]
    } else {
        joined(parts.drop_last(), sep) + sep + parts.last()
    }
}

/// A joined text holds only characters of its parts and of the separator.
pub proof fn lemma_joined_chars(parts: Seq<Seq<char>>, sep: Seq<char>)
    ensures
        forall|c: char| #[trigger]
            joined(parts, sep).contains(c) ==> sep.contains(c) || exists|i: int|
                0 <= i < parts.len() && (#[trigger] parts[i]).contains(c),
    decreases parts.len(),
{
    if parts.len() > 0 {
        let init = parts.drop_last();
        lemma_joined_chars(init, sep);
        assert forall|c: char| #[trigger] joined(parts, sep).contains(c) implies sep.contains(c)
            || exists|i: int| 0 <= i < parts.len() && (#[trigger] parts[i]).contains(c) by {
            let whole = joined(parts, sep);
            let k = choose|k: int| 0 <= k < whole.len() && whole[k] == c;
            if parts.len() == 1 {
                assert(parts[0].contains(c));
            } else {
                let head = joined(init, sep);
                if k < head.len() {
                    assert(head[k] == c);
                    assert(head.contains(c));
                    if !sep.contains(c) {
                        let i = choose|i: int|
                            0 <= i < init.len() && (#[trigger] init[i]).contains(c);
                        assert(parts[i].contains(c));
                    }
                } else if k < head.len() + sep.len() {
                    assert(sep[k - head.len()] == c);
                } else {
                    assert(parts[parts.len() - 1][k - head.len() - sep.len()] == c);
                    assert(parts[parts.len() - 1].contains(c));
                }
            }
        }
    }
}

/// A joined text ends as its last part does.
pub proof fn lemma_joined_last(parts: Seq<Seq<char>>, sep: Seq<char>)
    requires
        parts.len() > 0,
        parts.last().len() > 0,
    ensures
        joined(parts, sep).len() > 0,
        joined(parts, sep).last() == parts.last().last(),
{
}

/// The parts with `sep` between each two.
pub fn join(parts: &[String], sep: &str) -> (r: String)
    ensures
        r@ == joined(texts(parts@), sep@),
{
    let mut r = String::new();
    let mut i: usize = 0;
    assert(texts(parts@).take(0) =~= Seq::empty());
    while i < parts.len()
        invariant
            i <= parts@.len(),
            r@ == joined(texts(parts@).take(i as int), sep@),
        decreases parts.len() - i,
    {
        let ghost t = texts(parts@).take(i + 1);
        assert(t.drop_last() =~= texts(parts@).take(i as int));
        assert(t.last() == parts@[i as int]@);
        if i > 0 {
            r.append(sep);
        }
        r.append(parts[i].as_str());
        if i == 0 {
            assert(r@ =~= t[0]);
        }
        i = i + 1;
    }
    assert(texts(parts@).take(parts@.len() as int) =~= texts(parts@));
    r
}

// ---------- numbers ----------

pub open spec fn digit_char(d: int) -> char {
    (('0' as u32) + d) as char
}

/// A natural number in decimal.
pub open spec fn decimal(n: nat) -> Seq<char>
    decreases n,
{
    if n < 10 {
        seq![digit_char(n as int)]
    } else {
        decimal(n / 10).push(digit_char((n % 10) as int))
    }
}

/// An integer in decimal, with a minus sign where it is negative.
pub open spec fn signed_decimal(n: int) -> Seq<char> {
    if n < 0 {
        seq!['-'] + decimal((-n) as nat)
    } else {
        decimal(n as nat)
    }
}

/// `n` in decimal.
pub fn decimal_text(n: u64) -> (r: String)
    ensures
        r@ == decimal(n as nat),
    decreases n,
{
    let d: u8 = (n % 10) as u8;
    let c = (48u8 + d) as char;
    if n < 10 {
        let mut r = String::new();
        r.push(c);
        assert(r@ =~= seq![digit_char(n as int)]);
        r
    } else {
        let mut r = decimal_text(n / 10);
        r.push(c);
        r
    }
}

/// `n` in decimal, with its sign.
pub fn signed_text(n: i64) -> (r: String)
    ensures
        r@ == signed_decimal(n as int),
{
    if n < 0 {
        let m: u64 = if n == i64::MIN {
            0x8000_0000_0000_0000
        } else {
            (-n) as u64
        };
        let mut r = String::new();
        r.push('-');
        assert(r@ =~= seq!['-']);
        r.append(decimal_text(m).as_str());
        r
    } else {
        decimal_text(n as u64)
    }
}

/// An exit code as the operator sees it: the number, or its absence.
pub open spec fn code_words(code: Option<i32>) -> Seq<char> {
    match code {
        Some(c) => "Some("@ + signed_decimal(c as int) + ")"@,
        None => "None"@,
    }
}

/// The words for an exit code.
pub fn code_text(code: Option<i32>) -> (r: String)
    ensures
        r@ == code_words(code),
{
    match code {
        Some(c) => join3("Some(", signed_text(c as i64).as_str(), ")"),
        None => owned("None"),
    }
}

pub open spec fn all_digits(s: Seq<char>) -> bool {
    forall|i: int| 0 <= i < s.len() ==> is_digit(#[trigger] s[i])
}

/// The number that a row of decimal digits stands for.
pub open spec fn digits_value(s: Seq<char>) -> nat
    decreases s.len(),
{
    if s.len() == 0 {
        0
    } else {
        (10 * digits_value(s.drop_last()) + (s.last() as u32 - '0' as u32)) as nat
    }
}

/// Reads a row of digits whose value is at most `max`.
pub open spec fn read_digits(s: Seq<char>, max: nat) -> Option<nat> {
    if s.len() > 0 && all_digits(s) && digits_value(s) <= max {
        Some(digits_value(s))
    } else {
        None
    }
}

/// Reads an unsigned number of at most `max`: digits, with or without a plus
/// sign in front.
pub open spec fn read_unsigned(s: Seq<char>, max: nat) -> Option<nat> {
    if s.len() > 1 && s[0] == '+' {
        read_digits(s.skip(1), max)
    } else {
        read_digits(s, max)
    }
}

/// Reads a signed 64-bit number.
pub open spec fn read_signed(s: Seq<char>) -> Option<int> {
    if s.len() > 1 && s[0] == '-' {
        match read_digits(s.skip(1), 0x8000_0000_0000_0000) {
            Some(n) => Some(-(n as int)),
            None => None,
        }
    } else {
        match read_unsigned(s, i64::MAX as nat) {
            Some(n) => Some(n as int),
            None => None,
        }
    }
}

proof fn lemma_digits_grow(s: Seq<char>, i: int)
    requires
        0 <= i <= s.len(),
        all_digits(s),
    ensures
        digits_value(s.take(i)) <= digits_value(s),
    decreases s.len() - i,
{
    if i < s.len() {
        let t = s.take(i + 1);
        assert(t.drop_last() =~= s.take(i));
        assert(is_digit(s[i]));
        assert(t.last() == s[i]);
        lemma_digits_grow(s, i + 1);
    } else {
        assert(s.take(i) =~= s);
    }
}

fn digits_number(v: &[char], max: u64) -> (r: Option<u64>)
    ensures
        match r {
            Some(n) => read_digits(v@, max as nat) == Some(n as nat),
            None => read_digits(v@, max as nat) is None,
        },
{
    if v.len() == 0 {
        return None;
    }
    let mut n: u64 = 0;
    let mut i: usize = 0;
    assert(v@.take(0) =~= Seq::empty());
    while i < v.len()
        invariant
            i <= v@.len(),
            n == digits_value(v@.take(i as int)),
            n <= max,
            forall|j: int| 0 <= j < i ==> is_digit(#[trigger] v@[j]),
        decreases v.len() - i,
    {
        let c = v[i];
        if !digit(c) {
            assert(!is_digit(v@[i as int]));
            return None;
        }
        let d: u64 = (c as u32 - 48) as u64;
        proof {
            assert(v@.take(i + 1).drop_last() =~= v@.take(i as int));
            if all_digits(v@) {
                lemma_digits_grow(v@, i + 1);
            }
        }
        if d > max || n > (max - d) / 10 {
            assert(10 * n + d > max);
            return None;
        }
        n = 10 * n + d;
        i = i + 1;
    }
    assert(v@.take(v@.len() as int) =~= v@);
    Some(n)
}

fn unsigned_number(v: &[char], max: u64) -> (r: Option<u64>)
    ensures
        match r {
            Some(n) => read_unsigned(v@, max as nat) == Some(n as nat) && n <= max,
            None => read_unsigned(v@, max as nat) is None,
        },
{
    if v.len() > 1 && v[0] == '+' {
        assert(v@.skip(1) =~= v@.subrange(1, v@.len() as int));
        digits_number(slice_subrange(v, 1, v.len()), max)
    } else {
        digits_number(v, max)
    }
}

/// Reads an unsigned 64-bit number.
pub fn parse_u64(s: &str) -> (r: Option<u64>)
    ensures
        match r {
            Some(n) => read_unsigned(s@, u64::MAX as nat) == Some(n as nat),
            None => read_unsigned(s@, u64::MAX as nat) is None,
        },
{
    let v = to_chars(s);
    unsigned_number(v.as_slice(), u64::MAX)
}

/// Reads an unsigned 32-bit number.
pub fn parse_u32(s: &str) -> (r: Option<u32>)
    ensures
        match r {
            Some(n) => read_unsigned(s@, u32::MAX as nat) == Some(n as nat),
            None => read_unsigned(s@, u32::MAX as nat) is None,
        },
{
    let v = to_chars(s);
    match unsigned_number(v.as_slice(), u32::MAX as u64) {
        Some(n) => Some(n as u32),
        None => None,
    }
}

/// Reads a signed 64-bit number.
pub fn parse_i64(s: &str) -> (r: Option<i64>)
    ensures
        match r {
            Some(n) => read_signed(s@) == Some(n as int),
            None => read_signed(s@) is None,
        },
{
    let v = to_chars(s);
    if v.len() > 1 && v[0] == '-' {
        assert(v@.skip(1) =~= v@.subrange(1, v@.len() as int));
        match digits_number(slice_subrange(v.as_slice(), 1, v.len()), 0x8000_0000_0000_0000) {
            Some(n) => if n == 0x8000_0000_0000_0000 {
                Some(i64::MIN)
            } else {
                Some(-(n as i64))
            },
            None => None,
        }
    } else {
        match unsigned_number(v.as_slice(), i64::MAX as u64) {
            Some(n) => Some(n as i64),
            None => None,
        }
    }
}

// ---------- laws ----------

/// The pieces of a text put together again, with the separator between each
/// two, are the text.
pub proof fn law_split_loses_nothing(s: Seq<char>, sep: char)
    ensures
        joined(split(s, sep), seq![sep]) == s,
        forall|i: int|
            0 <= i < split(s, sep).len() ==> !(#[trigger] split(s, sep)[i]).contains(sep),
    decreases s.len(),
{
    lemma_split_free(s, sep);
    lemma_split_some(s, sep);
    let p = split(s, sep);
    if s.len() == 0 {
        assert(joined(p, seq![sep]) =~= s);
    } else {
        let t = s.drop_last();
        let q = split(t, sep);
        law_split_loses_nothing(t, sep);
        lemma_split_some(t, sep);
        if s.last() == sep {
            assert(p.drop_last() =~= q);
            assert(joined(p, seq![sep]) =~= s);
        } else {
            assert(p.drop_last() =~= q.drop_last());
            if q.len() == 1 {
                assert(p.len() == 1);
                assert(p[0] == q[0].push(s.last()));
                assert(joined(q, seq![sep]) == q[0]);
                assert(p[0] =~= s);
            } else {
                assert(joined(q, seq![sep]) == joined(q.drop_last(), seq![sep]) + seq![sep]
                    + q.last());
                assert(p.last() == q.last().push(s.last()));
                assert(joined(p, seq![sep]) == joined(p.drop_last(), seq![sep]) + seq![sep]
                    + p.last());
                assert(joined(p, seq![sep]) =~= t.push(s.last()));
                assert(t.push(s.last()) =~= s);
            }
        }
    }
}

/// A separator at either end of a text, or two in a row, makes empty pieces;
/// text without the separator is one piece.
pub proof fn law_text_without_separator_is_one_piece(s: Seq<char>, sep: char)
    requires
        !s.contains(sep),
    ensures
        split(s, sep) == seq![s],
{
    let none = Seq::<char>::empty();
    lemma_split_extend(none, s, sep);
    assert(none + s =~= s);
    assert(seq![none].drop_last() =~= Seq::<Seq<char>>::empty());
    assert(split(s, sep) =~= seq![s]);
}

/// Trimming takes white space off both ends, all of it, and nothing else.
pub proof fn law_trimming(s: Seq<char>)
    ensures
        trimmed(s).len() > 0 ==> !is_space(trimmed(s)[0]) && !is_space(trimmed(s).last()),
        exists|i: int, j: int|
            #![trigger s.subrange(i, j)]
            0 <= i <= j <= s.len() && trimmed(s) == s.subrange(i, j) && (forall|k: int|
                0 <= k < s.len() && (k < i || k >= j) ==> is_space(#[trigger] s[k])),
{
    lemma_front_off(s);
    let t = trim_front(s);
    let i = choose|i: int| 0 <= i <= s.len() && t == #[trigger] s.skip(i) && (forall|k: int| 0 <= k < i ==> is_space(#[trigger] s[k]));
    lemma_back_off(t);
    let n = choose|n: int| 0 <= n <= t.len() && trim_back(t) == #[trigger] t.take(n) && (forall|k: int| n <= k < t.len() ==> is_space(#[trigger] t[k]));
    assert(t.take(n) =~= s.subrange(i, i + n));
    if trimmed(s).len() > 0 {
        assert(trimmed(s)[0] == t[0]);
    }
    assert forall|k: int| 0 <= k < s.len() && (k < i || k >= i + n) implies is_space(
        #[trigger] s[k],
    ) by {
        if k >= i + n {
            assert(t[k - i] == s[k]);
        }
    }
}

proof fn lemma_front_off(s: Seq<char>)
    ensures
        trim_front(s).len() > 0 ==> !is_space(trim_front(s)[0]),
        exists|i: int|
            0 <= i <= s.len() && trim_front(s) == #[trigger] s.skip(i) && (forall|k: int|
                0 <= k < i ==> is_space(#[trigger] s[k])),
    decreases s.len(),
{
    if s.len() == 0 || !is_space(s[0]) {
        assert(s.skip(0) =~= s);
    } else {
        let u = s.skip(1);
        lemma_front_off(u);
        let i = choose|i: int|
            0 <= i <= u.len() && trim_front(u) == #[trigger] u.skip(i) && (forall|k: int|
                0 <= k < i ==> is_space(#[trigger] u[k]));
        assert(u.skip(i) =~= s.skip(i + 1));
        assert forall|k: int| 0 <= k < i + 1 implies is_space(#[trigger] s[k]) by {
            if k > 0 {
                assert(u[k - 1] == s[k]);
            }
        }
    }
}

proof fn lemma_back_off(s: Seq<char>)
    ensures
        trim_back(s).len() > 0 ==> !is_space(trim_back(s).last()),
        exists|n: int|
            0 <= n <= s.len() && trim_back(s) == #[trigger] s.take(n) && (forall|k: int|
                n <= k < s.len() ==> is_space(#[trigger] s[k])),
    decreases s.len(),
{
    if s.len() == 0 || !is_space(s.last()) {
        assert(s.take(s.len() as int) =~= s);
    } else {
        let u = s.drop_last();
        lemma_back_off(u);
        let n = choose|n: int|
            0 <= n <= u.len() && trim_back(u) == #[trigger] u.take(n) && (forall|k: int|
                n <= k < u.len() ==> is_space(#[trigger] u[k]));
        assert(u.take(n) =~= s.take(n));
        assert forall|k: int| n <= k < s.len() implies is_space(#[trigger] s[k]) by {
            if k < u.len() {
                assert(u[k] == s[k]);
            }
        }
    }
}

/// Blanks, tabs and line breaks are white space; no letter, digit or other
/// visible ASCII character is.
pub proof fn law_white_space(c: char)
    ensures
        is_space(' ') && is_space('\t') && is_space('\n') && is_space('\r'),
        0x21 <= c as u32 <= 0x7e ==> !is_space(c),
{
}

/// Letters and digits are the ASCII ones, all of them and no others.
pub proof fn law_letters_and_digits(c: char)
    ensures
        is_digit(c) <==> 48 <= c as u32 <= 57,
        is_alpha(c) <==> 65 <= c as u32 <= 90 || 97 <= c as u32 <= 122,
        is_alnum(c) <==> is_digit(c) || is_alpha(c),
        is_hex(c) <==> is_digit(c) || 65 <= c as u32 <= 70 || 97 <= c as u32 <= 102,
{
}

/// Lower case leaves no capital letter, changes only capital letters, and gives
/// two spellings that differ in case alone the same text.
pub proof fn law_lower_case(s: Seq<char>, i: int)
    requires
        0 <= i < s.len(),
    ensures
        lower(s).len() == s.len(),
        !(65 <= lower(s)[i] as u32 <= 90),
        !(65 <= s[i] as u32 <= 90) ==> lower(s)[i] == s[i],
        65 <= s[i] as u32 <= 90 ==> lower(s)[i] as u32 == s[i] as u32 + 32,
{
}

/// A number that is written in decimal reads back as that number, and is
/// written without a leading zero.
pub proof fn law_decimal_reads_back(n: nat, max: nat)
    requires
        n <= max,
    ensures
        read_unsigned(decimal(n), max) == Some(n),
        decimal(n).len() > 0,
        all_digits(decimal(n)),
        n > 0 ==> decimal(n)[0] != '0',
{
    lemma_decimal(n);
}

proof fn lemma_decimal(n: nat)
    ensures
        decimal(n).len() > 0,
        all_digits(decimal(n)),
        digits_value(decimal(n)) == n,
        n > 0 ==> decimal(n)[0] != '0',
        decimal(n)[0] != '+' && decimal(n)[0] != '-',
    decreases n,
{
    if n < 10 {
        assert(decimal(n).drop_last() =~= Seq::empty());
        assert(digits_value(decimal(n).drop_last()) == 0);
    } else {
        lemma_decimal(n / 10);
        assert(decimal(n).drop_last() =~= decimal(n / 10));
        assert(decimal(n)[0] == decimal(n / 10)[0]);
    }
}

/// Two numbers are never written alike.
pub proof fn law_decimal_tells_numbers_apart(a: int, b: int)
    ensures
        signed_decimal(a) == signed_decimal(b) ==> a == b,
{
    if signed_decimal(a) == signed_decimal(b) {
        let x = if a < 0 { (-a) as nat } else { a as nat };
        let y = if b < 0 { (-b) as nat } else { b as nat };
        lemma_decimal(x);
        lemma_decimal(y);
        let u = signed_decimal(a);
        let v = signed_decimal(b);
        if a < 0 {
            assert(u[0] == '-');
            if b < 0 {
                assert(u.skip(1) =~= decimal(x));
                assert(v.skip(1) =~= decimal(y));
            }
        } else if b < 0 {
            assert(v[0] == '-');
        }
    }
}

/// A minus sign negates: a number in decimal, with its sign, reads back.
pub proof fn law_signed_decimal_reads_back(n: i64)
    ensures
        read_signed(signed_decimal(n as int)) == Some(n as int),
{
    let x = if n < 0 { (-n) as nat } else { n as nat };
    lemma_decimal(x);
    if n < 0 {
        assert(signed_decimal(n as int).skip(1) =~= decimal(x));
    }
}

/// No two exits are worded alike, and every one says whether there was a code.
pub proof fn law_exit_codes_are_told_apart(a: Option<i32>, b: Option<i32>)
    ensures
        code_words(a) == code_words(b) ==> a == b,
        code_words(None) == "None"@,
        a matches Some(c) ==> code_words(a) == "Some("@ + signed_decimal(c as int) + ")"@,
{
    reveal_strlit("Some(");
    reveal_strlit("None");
    reveal_strlit(")");
    if code_words(a) == code_words(b) {
        match (a, b) {
            (Some(x), Some(y)) => {
                let u = code_words(a);
                let v = code_words(b);
                let p = signed_decimal(x as int);
                let q = signed_decimal(y as int);
                assert(u.subrange(5, u.len() - 1) =~= p);
                assert(v.subrange(5, v.len() - 1) =~= q);
                law_decimal_tells_numbers_apart(x as int, y as int);
            },
            (Some(x), None) => {
                assert(code_words(a)[0] == 'S');
                assert(code_words(b)[0] == 'N');
            },
            (None, Some(y)) => {
                assert(code_words(b)[0] == 'S');
                assert(code_words(a)[0] == 'N');
            },
            (None, None) => {},
        }
    }
}

/// A text is found where it first stands, and only where it stands.
pub proof fn law_finding(s: Seq<char>, p: Seq<char>, at: int)
    requires
        0 <= at,
        at + p.len() <= s.len(),
        s.subrange(at, at + p.len()) == p,
    ensures
        occurs(p, s),
        find_at(s, p)->0 <= at,
        s.subrange(find_at(s, p)->0 as int, (find_at(s, p)->0 + p.len()) as int) == p,
    decreases s.len(),
{
    lemma_find_bound(s, p);
    if p.is_prefix_of(s) {
    } else {
        if at == 0 {
            assert(p =~= s.subrange(0, p.len() as int));
        }
        let u = s.skip(1);
        assert(u.subrange(at - 1, at - 1 + p.len()) =~= s.subrange(at, at + p.len()));
        law_finding(u, p, at - 1);
    }
}

/// What follows the last separator holds none, and ends the text.
pub proof fn law_last_part(s: Seq<char>, sep: char)
    ensures
        !after_last(s, sep).contains(sep),
        after_last(s, sep).is_suffix_of(s),
        after_last(s, sep).len() < s.len() ==> s[s.len() - after_last(s, sep).len() - 1] == sep,
    decreases s.len(),
{
    if s.len() > 0 && s.last() != sep {
        let t = s.drop_last();
        law_last_part(t, sep);
        let a = after_last(t, sep);
        let b = after_last(s, sep);
        assert(b =~= a.push(s.last()));
        assert forall|k: int| 0 <= k < b.len() implies b[k] != sep by {
            if k < a.len() {
                assert(a.contains(a[k]));
            }
        }
        assert(b =~= s.subrange(s.len() - b.len(), s.len() as int));
    } else {
        assert(after_last(s, sep) =~= s.subrange(s.len() as int, s.len() as int));
    }
}

/// A text is cut at the first separator: nothing before it holds one.
pub proof fn law_first_separator(head: Seq<char>, sep: char, rest: Seq<char>)
    requires
        !head.contains(sep),
    ensures
        halves(head + seq![sep] + rest, sep) == (head, Some(rest)),
        halves(head, sep) == (head, None::<Seq<char>>),
{
    let s = head + seq![sep] + rest;
    lemma_first_at(s, sep);
    assert(s[head.len() as int] == sep);
    let n = first_at(s, sep);
    assert(n == head.len()) by {
        if n < head.len() {
            assert(head[n as int] == s[n as int]);
            assert(head.contains(head[n as int]));
        }
    }
    assert(s.take(n as int) =~= head);
    assert(s.skip(n as int + 1) =~= rest);
}

/// A line ends at a line break: what stands before the first one is the first
/// line, and what follows are the lines of the rest. A carriage return before
/// the break belongs to it.
pub proof fn law_lines(line: Seq<char>, rest: Seq<char>)
    requires
        !line.contains('\n'),
    ensures
        !finishes(line, '\r') ==> lines(line + seq!['\n'] + rest) == seq![line] + lines(rest),
        lines(line + seq!['\r'] + seq!['\n'] + rest) == seq![line] + lines(rest),
        line.len() > 0 ==> lines(line) == seq![line],
        lines(Seq::<char>::empty()).len() == 0,
{
    law_text_without_separator_is_one_piece(line, '\n');
    let wide = line + seq!['\r'];
    assert(!wide.contains('\n')) by {
        if wide.contains('\n') {
            let k = choose|k: int| 0 <= k < wide.len() && wide[k] == '\n';
            assert(line[k] == '\n');
        }
    }
    law_text_without_separator_is_one_piece(wide, '\n');
    lemma_split_between(line, rest, '\n');
    lemma_split_between(wide, rest, '\n');
    lemma_split_some(rest, '\n');
    let q = split(rest, '\n');
    assert((seq![line] + q).last() == q.last());
    assert((seq![wide] + q).last() == q.last());
    assert(wide.drop_last() =~= line);
    if !finishes(line, '\r') {
        assert(lines(line + seq!['\n'] + rest) =~= seq![line] + lines(rest));
    }
    assert(lines(wide + seq!['\n'] + rest) =~= seq![line] + lines(rest));
    if line.len() > 0 {
        assert(lines(line) =~= seq![line]);
    }
    assert(lines(Seq::<char>::empty()) =~= Seq::empty());
}

proof fn lemma_space_between(s: Seq<char>, c: char, t: Seq<char>)
    requires
        is_space(c),
    ensures
        space_pieces(s + seq![c] + t) == space_pieces(s) + space_pieces(t),
    decreases t.len(),
{
    let head = s + seq![c];
    let p = space_pieces(s);
    if t.len() == 0 {
        assert(head + t =~= head);
        assert(head.drop_last() =~= s);
        assert(p.push(Seq::<char>::empty()) =~= p + space_pieces(t));
    } else {
        let u = t.drop_last();
        let q = space_pieces(u);
        lemma_space_between(s, c, u);
        lemma_space_pieces_some(u);
        assert((head + t).drop_last() =~= head + u);
        assert((p + q).last() == q.last());
        assert((p + q).drop_last() =~= p + q.drop_last());
        if is_space(t.last()) {
            assert((p + q).push(Seq::<char>::empty()) =~= p + q.push(Seq::<char>::empty()));
        } else {
            let last = q.last().push(t.last());
            assert((p + q.drop_last()).push(last) =~= p + q.drop_last().push(last));
        }
    }
}

proof fn lemma_nonempty_add(a: Seq<Seq<char>>, b: Seq<Seq<char>>)
    ensures
        nonempty(a + b) == nonempty(a) + nonempty(b),
    decreases b.len(),
{
    if b.len() == 0 {
        assert(a + b =~= a);
        assert(nonempty(a) + nonempty(b) =~= nonempty(a));
    } else {
        assert((a + b).drop_last() =~= a + b.drop_last());
        lemma_nonempty_add(a, b.drop_last());
        if b.last().len() > 0 {
            assert((nonempty(a) + nonempty(b.drop_last())).push(b.last()) =~= nonempty(a)
                + nonempty(b));
        }
    }
}

/// Words are what stands between white space, however much of it there is: a
/// text of two parts with white space between them has the words of both, and
/// a text without any is one word.
pub proof fn law_words(a: Seq<char>, c: char, b: Seq<char>)
    requires
        is_space(c),
    ensures
        words(a + seq![c] + b) == words(a) + words(b),
        words(Seq::<char>::empty()).len() == 0,
        a.len() > 0 && (forall|i: int| 0 <= i < a.len() ==> !is_space(#[trigger] a[i])) ==> words(
            a,
        ) == seq![a],
{
    lemma_space_between(a, c, b);
    lemma_nonempty_add(space_pieces(a), space_pieces(b));
    reveal_with_fuel(nonempty, 3);
    if a.len() > 0 && (forall|i: int| 0 <= i < a.len() ==> !is_space(#[trigger] a[i])) {
        lemma_one_word(a);
        assert(seq![a].drop_last() =~= Seq::empty());
        assert(words(a) =~= seq![a]);
    }
    assert(seq![Seq::<char>::empty()].drop_last() =~= Seq::<Seq<char>>::empty());
    assert(words(Seq::<char>::empty()) =~= Seq::empty());
}

proof fn lemma_one_word(a: Seq<char>)
    requires
        forall|i: int| 0 <= i < a.len() ==> !is_space(#[trigger] a[i]),
    ensures
        space_pieces(a) == seq![a],
    decreases a.len(),
{
    if a.len() > 0 {
        let b = a.drop_last();
        assert forall|i: int| 0 <= i < b.len() implies !is_space(#[trigger] b[i]) by {
            assert(b[i] == a[i]);
        }
        lemma_one_word(b);
        assert(!is_space(a[a.len() - 1]));
        assert(b.push(a.last()) =~= a);
        assert(space_pieces(a) =~= seq![a]);
    } else {
        assert(a =~= Seq::empty());
        assert(space_pieces(a) =~= seq![a]);
    }
}

/// The first column of a line is its first word, and the columns after it are
/// those of the rest; the last column is all that is left, trimmed.
pub proof fn law_columns(word: Seq<char>, c: char, rest: Seq<char>, n: nat)
    requires
        word.len() > 0,
        forall|i: int| 0 <= i < word.len() ==> !is_space(#[trigger] word[i]),
        is_space(c),
    ensures
        n > 1 ==> columns(word + seq![c] + rest, n) == seq![word] + columns(rest, (n - 1) as nat),
        trimmed(rest).len() > 0 ==> columns(rest, 1) == seq![trimmed(rest)],
{
    let s = word + seq![c] + rest;
    assert(s[0] == word[0]);
    assert(trim_front(s) == s);
    lemma_first_space(word, c, rest);
    assert(s.take(word.len() as int) =~= word);
    let tail = s.skip(word.len() as int);
    assert(tail =~= seq![c] + rest);
    assert(tail.skip(1) =~= rest);
    assert(trim_front(tail) == trim_front(rest));
    if n > 1 {
        lemma_columns_front(tail, rest, (n - 1) as nat);
    }
    lemma_front_off(rest);
    let t = trim_front(rest);
    assert(trim_front(t) == t);
    if trimmed(rest).len() > 0 && t.len() == 0 {
        assert(trim_back(t) == t);
    }
}

proof fn lemma_columns_front(a: Seq<char>, b: Seq<char>, n: nat)
    requires
        trim_front(a) == trim_front(b),
    ensures
        columns(a, n) == columns(b, n),
{
}

proof fn lemma_first_space(word: Seq<char>, c: char, rest: Seq<char>)
    requires
        forall|i: int| 0 <= i < word.len() ==> !is_space(#[trigger] word[i]),
        is_space(c),
    ensures
        first_space(word + seq![c] + rest) == word.len(),
    decreases word.len(),
{
    let s = word + seq![c] + rest;
    if word.len() > 0 {
        let w = word.skip(1);
        assert forall|i: int| 0 <= i < w.len() implies !is_space(#[trigger] w[i]) by {
            assert(w[i] == word[i + 1]);
        }
        lemma_first_space(w, c, rest);
        assert(s.skip(1) =~= w + seq![c] + rest);
        assert(s[0] == word[0]);
    } else {
        assert(s[0] == c);
    }
}

/// A shortened text is the front of the text, as much of it as there is room.
pub proof fn law_shortening(s: Seq<char>, n: nat)
    ensures
        shortened(s, n).len() <= n,
        s.len() <= n ==> shortened(s, n) == s,
        s.len() > n ==> shortened(s, n).len() == n,
        forall|i: int| 0 <= i < shortened(s, n).len() ==> shortened(s, n)[i] == s[i],
{
}

/// Only the empty text takes no bytes.
pub proof fn lemma_no_bytes(s: Seq<char>)
    ensures
        byte_len(s) == 0 <==> s.len() == 0,
{
    if s.len() > 0 {
        assert(vstd::utf8::encode_scalar(s[0] as u32).len() > 0);
    }
}

/// Stripping a character takes all of it off that end, and nothing else.
pub proof fn law_stripping_a_character(s: Seq<char>, c: char, n: nat)
    requires
        !begins(s, c),
        !finishes(s, c),
    ensures
        strip_back(s + Seq::new(n, |i: int| c), c) == s,
        strip_front(Seq::new(n, |i: int| c) + s, c) == s,
    decreases n,
{
    let run = Seq::new(n, |i: int| c);
    if n == 0 {
        assert(s + run =~= s);
        assert(run + s =~= s);
    } else {
        let less = Seq::new((n - 1) as nat, |i: int| c);
        law_stripping_a_character(s, c, (n - 1) as nat);
        assert((s + run).drop_last() =~= s + less);
        assert((s + run).last() == c);
        assert((run + s).skip(1) =~= less + s);
        assert((run + s)[0] == c);
    }
}

/// A number is a row of digits, with a plus before it or not, that is within
/// the bound; nothing else is one.
pub proof fn law_only_digits_are_numbers(s: Seq<char>, max: nat)
    ensures
        read_unsigned(s, max) is Some ==> ({
            let d = if s.len() > 1 && s[0] == '+' {
                s.skip(1)
            } else {
                s
            };
            d.len() > 0 && forall|i: int| 0 <= i < d.len() ==> 48 <= (#[trigger] d[i]) as u32 <= 57
        }),
        read_unsigned(s, max) matches Some(n) ==> n <= max,
{
}

/// One more digit makes a number ten times as large, and adds itself.
pub proof fn law_digits_count_by_tens(s: Seq<char>, c: char)
    requires
        is_digit(c),
    ensures
        digits_value(s.push(c)) == 10 * digits_value(s) + (c as u32 - 48),
        digits_value(Seq::<char>::empty()) == 0,
{
    assert(s.push(c).drop_last() =~= s);
}

/// Numbers are written and read in decimal.
pub proof fn law_numbers_are_written_and_read(n: u64, written: String, s: &str, r: Option<u64>)
    requires
        call_ensures(decimal_text, (n,), written),
        s@ == written@,
        call_ensures(parse_u64, (s,), r),
    ensures
        r == Some(n),
{
    law_decimal_reads_back(n as nat, u64::MAX as nat);
}

/// Texts are put together in their order, with nothing between them.
pub proof fn law_texts_are_put_together(
    a: &str,
    b: &str,
    c: &str,
    d: &str,
    e: &str,
    two: String,
    three: String,
    four: String,
    five: String,
)
    requires
        call_ensures(join2, (a, b), two),
        call_ensures(join3, (a, b, c), three),
        call_ensures(join4, (a, b, c, d), four),
        call_ensures(join5, (a, b, c, d, e), five),
    ensures
        two@ == a@ + b@,
        three@ == a@ + b@ + c@,
        four@ == a@ + b@ + c@ + d@,
        five@ == a@ + b@ + c@ + d@ + e@,
{
}

/// A prefix is taken off once, or as often as it is there.
pub proof fn law_prefixes_are_taken_off(p: Seq<char>, s: Seq<char>)
    requires
        p.len() > 0,
    ensures
        after_prefix(p + s, p) == Some(s),
        strip_all(p + s, p) == strip_all(s, p),
        !p.is_prefix_of(s) ==> after_prefix(s, p) is None && strip_all(s, p) == s,
{
    let t = p + s;
    assert(t.subrange(0, p.len() as int) =~= p);
    assert(t.skip(p.len() as int) =~= s);
}

/// A text is found where its first character first stands, if it stands there
/// whole; and it is not found where that character does not occur.
pub proof fn law_found_at_its_first_character(s: Seq<char>, p: Seq<char>, at: nat)
    requires
        p.len() > 0,
        at <= s.len(),
        forall|j: int| 0 <= j < at ==> s[j] != p[0],
    ensures
        p.is_prefix_of(s.skip(at as int)) ==> find_at(s, p) == Some(at),
        at == s.len() ==> find_at(s, p) is None,
    decreases at,
{
    if at == 0 {
        assert(s.skip(0) =~= s);
    } else {
        assert(!p.is_prefix_of(s)) by {
            if p.is_prefix_of(s) {
                assert(p == s.subrange(0, p.len() as int));
                assert(p[0] == s[0]);
            }
        }
        let rest = s.skip(1);
        assert(rest.skip(at - 1) =~= s.skip(at as int));
        assert forall|j: int| 0 <= j < at - 1 implies rest[j] != p[0] by {
            assert(rest[j] == s[j + 1]);
        }
        law_found_at_its_first_character(rest, p, (at - 1) as nat);
    }
}

}
