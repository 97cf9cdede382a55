//! Guard for the config-file read and write surface.
//!
//! A path is accepted only where it lies under one of a few operator-config
//! locations and outside the deny-list, whatever its spelling. There are two
//! layers: a lexical check of the `..`-resolved spelling ([`check`]), and the
//! same match once more on the location that the filesystem resolved it to
//! ([`check_read`], [`check_write`]).

use crate::text;
use vstd::prelude::*;

verus! {

/// Why a path was refused.
#[derive(Debug)]
pub enum PathError {
    NotAbsolute,
    BlockedByDenyList(String),
    OutsideAllowList,
    InvalidUtf8,
    Empty,
    /// The path, or for a write its parent, does not resolve on this host.
    /// Kept apart so that the operator can tell "denied" from "not found".
    ResolveFailed(String),
}

/// A refusal with its text spelled out.
pub enum PathFault {
    NotAbsolute,
    BlockedByDenyList(Seq<char>),
    OutsideAllowList,
    InvalidUtf8,
    Empty,
    ResolveFailed(Seq<char>),
}

impl View for PathError {
    type V = PathFault;

    open spec fn view(&self) -> PathFault {
        match self {
            PathError::NotAbsolute => PathFault::NotAbsolute,
            PathError::BlockedByDenyList(p) => PathFault::BlockedByDenyList(p@),
            PathError::OutsideAllowList => PathFault::OutsideAllowList,
            PathError::InvalidUtf8 => PathFault::InvalidUtf8,
            PathError::Empty => PathFault::Empty,
            PathError::ResolveFailed(e) => PathFault::ResolveFailed(e@),
        }
    }
}

/// What the filesystem made of a path.
pub enum Resolution {
    Failed(String),
    NotUtf8,
    Found(String),
}

pub open spec fn path_outcome(r: Result<String, PathError>) -> Result<Seq<char>, PathFault> {
    match r {
        Ok(p) => Ok(p@),
        Err(e) => Err(e@),
    }
}

pub open spec fn target_outcome(r: Result<(String, String), PathError>) -> Result<
    (Seq<char>, Seq<char>),
    PathFault,
> {
    match r {
        Ok(p) => Ok((p.0@, p.1@)),
        Err(e) => Err(e@),
    }
}

impl PathError {
    /// What the operator is told.
    pub open spec fn message(self) -> Seq<char> {
        match self {
            PathError::NotAbsolute => "path must be absolute"@,
            PathError::BlockedByDenyList(p) => "path matches deny-list: "@ + p@,
            PathError::OutsideAllowList => "path is outside the allowed config-file locations (/etc, /opt, /usr/local/etc, /srv, /home, /var/log)"@,
            PathError::InvalidUtf8 => "path is not valid UTF-8"@,
            PathError::Empty => "path is empty"@,
            PathError::ResolveFailed(e) => "path resolve failed: "@ + e@,
        }
    }

    /// The message for the operator.
    pub fn to_text(&self) -> (r: String)
        ensures
            r@ == self.message(),
    {
        match self {
            PathError::NotAbsolute => text::owned("path must be absolute"),
            PathError::BlockedByDenyList(p) => text::join2("path matches deny-list: ", p.as_str()),
            PathError::OutsideAllowList => text::owned(
                "path is outside the allowed config-file locations (/etc, /opt, /usr/local/etc, /srv, /home, /var/log)",
            ),
            PathError::InvalidUtf8 => text::owned("path is not valid UTF-8"),
            PathError::Empty => text::owned("path is empty"),
            PathError::ResolveFailed(e) => text::join2("path resolve failed: ", e.as_str()),
        }
    }
}

// ---------- the two lists ----------

/// The operator-config locations. `/tmp/` is left out on purpose: any local
/// user can place a symlink there.
pub open spec fn allow_list() -> Seq<Seq<char>> {
    seq!["/etc/"@, "/opt/"@, "/usr/local/etc/"@, "/srv/"@, "/home/"@, "/var/log/"@]
}

/// What is never read or written, even under an allowed location. Each entry
/// blocks everything that begins with it.
pub open spec fn deny_list() -> Seq<Seq<char>> {
    seq![
        "/etc/shadow"@,
        "/etc/gshadow"@,
        "/etc/sudoers"@,
        "/etc/ssh/"@,
        "/etc/shellfleet/agent-token"@,
        "/root/"@,
        "/home/.ssh/"@,
        "/proc/"@,
        "/sys/"@,
        "/dev/"@,
    ]
}

fn allow_prefixes() -> (r: Vec<String>)
    ensures
        text::texts(r@) == allow_list(),
{
    let mut r: Vec<String> = Vec::new();
    text::push_text(&mut r, "/etc/");
    text::push_text(&mut r, "/opt/");
    text::push_text(&mut r, "/usr/local/etc/");
    text::push_text(&mut r, "/srv/");
    text::push_text(&mut r, "/home/");
    text::push_text(&mut r, "/var/log/");
    assert(text::texts(r@) =~= allow_list());
    r
}

fn deny_prefixes() -> (r: Vec<String>)
    ensures
        text::texts(r@) == deny_list(),
{
    let mut r: Vec<String> = Vec::new();
    text::push_text(&mut r, "/etc/shadow");
    text::push_text(&mut r, "/etc/gshadow");
    text::push_text(&mut r, "/etc/sudoers");
    text::push_text(&mut r, "/etc/ssh/");
    text::push_text(&mut r, "/etc/shellfleet/agent-token");
    text::push_text(&mut r, "/root/");
    text::push_text(&mut r, "/home/.ssh/");
    text::push_text(&mut r, "/proc/");
    text::push_text(&mut r, "/sys/");
    text::push_text(&mut r, "/dev/");
    assert(text::texts(r@) =~= deny_list());
    r
}

/// The first entry of the list that the text begins with.
pub open spec fn first_prefix(list: Seq<Seq<char>>, s: Seq<char>) -> Option<Seq<char>>
    decreases list.len(),
{
    if list.len() == 0 {
        None
    } else {
        match first_prefix(list.drop_last(), s) {
            Some(p) => Some(p),
            None => if list.last().is_prefix_of(s) {
                Some(list.last())
            } else {
                None
            },
        }
    }
}

proof fn lemma_first_prefix(list: Seq<Seq<char>>, s: Seq<char>)
    ensures
        first_prefix(list, s) is None <==> (forall|i: int|
            0 <= i < list.len() ==> !(#[trigger] list[i]).is_prefix_of(s)),
        first_prefix(list, s) matches Some(p) ==> list.contains(p) && p.is_prefix_of(s),
    decreases list.len(),
{
    if list.len() > 0 {
        let init = list.drop_last();
        lemma_first_prefix(init, s);
        assert forall|i: int| 0 <= i < init.len() implies #[trigger] init[i] == list[i] by {}
        if first_prefix(list, s) is None {
            assert forall|i: int| 0 <= i < list.len() implies !(#[trigger] list[i]).is_prefix_of(
                s,
            ) by {
                if i < init.len() {
                    assert(!init[i].is_prefix_of(s));
                }
            }
        } else if first_prefix(init, s) is None {
            assert(list[list.len() - 1] == list.last());
        } else {
            let k = choose|k: int| 0 <= k < init.len() && init[k] == first_prefix(init, s)->0;
            assert(list[k] == init[k]);
        }
    }
}

fn find_prefix(list: &[String], s: &str) -> (r: Option<String>)
    ensures
        text::opt_text(r) == first_prefix(text::texts(list@), s@),
{
    let mut i: usize = 0;
    assert(text::texts(list@).take(0) =~= Seq::empty());
    while i < list.len()
        invariant
            i <= list@.len(),
            first_prefix(text::texts(list@).take(i as int), s@) is None,
        decreases list.len() - i,
    {
        let ghost t = text::texts(list@).take(i + 1);
        assert(t.drop_last() =~= text::texts(list@).take(i as int));
        assert(t.last() == list@[i as int]@);
        if text::starts_with(s, list[i].as_str()) {
            proof {
                lemma_prefix_stays(text::texts(list@), i + 1, s@);
            }
            return Some(text::owned(list[i].as_str()));
        }
        i = i + 1;
    }
    assert(text::texts(list@).take(list@.len() as int) =~= text::texts(list@));
    None
}

proof fn lemma_prefix_stays(list: Seq<Seq<char>>, n: int, s: Seq<char>)
    requires
        0 <= n <= list.len(),
        first_prefix(list.take(n), s) is Some,
    ensures
        first_prefix(list, s) == first_prefix(list.take(n), s),
    decreases list.len() - n,
{
    if n < list.len() {
        assert(list.take(n + 1).drop_last() =~= list.take(n));
        lemma_prefix_stays(list, n + 1, s);
    } else {
        assert(list.take(n) =~= list);
    }
}

/// Whether a location, in lower case, passes: the deny-list comes first.
pub open spec fn judged(location: Seq<char>) -> Result<(), PathFault> {
    match first_prefix(deny_list(), location) {
        Some(d) => Err(PathFault::BlockedByDenyList(d)),
        None => if first_prefix(allow_list(), location) is None {
            Err(PathFault::OutsideAllowList)
        } else {
            Ok(())
        },
    }
}

fn judge(location: &str) -> (r: Result<(), PathError>)
    ensures
        match r {
            Ok(_) => judged(location@) is Ok,
            Err(e) => judged(location@) == Err::<(), PathFault>(e@),
        },
{
    let deny = deny_prefixes();
    match find_prefix(deny.as_slice(), location) {
        Some(d) => Err(PathError::BlockedByDenyList(d)),
        None => {
            let allow = allow_prefixes();
            if find_prefix(allow.as_slice(), location).is_none() {
                Err(PathError::OutsideAllowList)
            } else {
                Ok(())
            }
        },
    }
}

// ---------- lexical normalisation ----------

/// Path segments with `.` dropped and `..` resolved; at the root, `..` stays
/// at the root.
pub open spec fn resolve(segs: Seq<Seq<char>>) -> Seq<Seq<char>>
    decreases segs.len(),
{
    if segs.len() == 0 {
        Seq::empty()
    } else {
        let init = resolve(segs.drop_last());
        let seg = segs.last();
        if seg.len() == 0 || seg == "."@ {
            init
        } else if seg == ".."@ {
            if init.len() > 0 {
                init.drop_last()
            } else {
                init
            }
        } else {
            init.push(seg)
        }
    }
}

/// The segments that a path comes down to.
pub open spec fn segments(path: Seq<char>) -> Seq<Seq<char>> {
    resolve(text::split(path, '/'))
}

/// A path from the root with the given segments.
pub open spec fn rooted(segs: Seq<Seq<char>>) -> Seq<char> {
    "/"@ + text::joined(segs, "/"@)
}

/// The normal spelling of a path: resolved, with a slash at the end where the
/// given spelling had one.
pub open spec fn normal(path: Seq<char>) -> Seq<char> {
    if text::finishes(path, '/') && segments(path).len() > 0 {
        rooted(segments(path)) + "/"@
    } else {
        rooted(segments(path))
    }
}

/// The segments of `path`, resolved.
fn resolve_segments(path: &str) -> (r: Vec<String>)
    ensures
        text::texts(r@) == segments(path@),
{
    broadcast use text::lemma_texts_push;

    let parts = text::split_text(path, '/');
    let mut stack: Vec<String> = Vec::new();
    let mut i: usize = 0;
    assert(text::texts(parts@).take(0) =~= Seq::empty());
    assert(text::texts(stack@) =~= Seq::empty());
    while i < parts.len()
        invariant
            i <= parts@.len(),
            text::texts(stack@) == resolve(text::texts(parts@).take(i as int)),
        decreases parts.len() - i,
    {
        let ghost t = text::texts(parts@).take(i + 1);
        assert(t.drop_last() =~= text::texts(parts@).take(i as int));
        assert(t.last() == parts@[i as int]@);
        let seg = parts[i].as_str();
        if seg.is_empty() || text::same(seg, ".") {
        } else if text::same(seg, "..") {
            proof {
                lemma_dots_differ();
            }
            let ghost before = stack@;
            let top = stack.pop();
            if top.is_some() {
                assert(text::texts(stack@) =~= text::texts(before).drop_last());
            }
        } else {
            stack.push(text::owned(seg));
        }
        i = i + 1;
    }
    assert(text::texts(parts@).take(parts@.len() as int) =~= text::texts(parts@));
    stack
}

proof fn lemma_dots_differ()
    ensures
        "."@ != ".."@,
        "."@.len() == 1,
        ".."@.len() == 2,
        "."@[0] == '.',
        ".."@[0] == '.',
        "/"@ =~= seq!['/'],
{
    reveal_strlit(".");
    reveal_strlit("..");
    reveal_strlit("/");
    assert("."@.len() != ".."@.len());
}

/// The outcome of the lexical check.
pub open spec fn checked(path: Seq<char>) -> Result<Seq<char>, PathFault> {
    if path.len() == 0 {
        Err(PathFault::Empty)
    } else if path[0] != '/' {
        Err(PathFault::NotAbsolute)
    } else if path.contains('\0') {
        Err(PathFault::InvalidUtf8)
    } else {
        match judged(text::lower(normal(path))) {
            Ok(_) => Ok(normal(path)),
            Err(e) => Err(e),
        }
    }
}

/// Lexical check: the `..`-resolved spelling of `path`, where it passes both
/// lists. It does not see through symlinks; [`check_read`] and
/// [`check_write`] do.
pub fn check(path: &str) -> (r: Result<String, PathError>)
    ensures
        path_outcome(r) == checked(path@),
{
    if path.is_empty() {
        return Err(PathError::Empty);
    }
    if !text::starts_with_char(path, '/') {
        return Err(PathError::NotAbsolute);
    }
    if text::contains_char(path, '\0') {
        return Err(PathError::InvalidUtf8);
    }
    let stack = resolve_segments(path);
    let mut s = text::owned("/");
    s.append(text::join(stack.as_slice(), "/").as_str());
    if text::ends_with_char(path, '/') && stack.len() > 0 {
        s.append("/");
    }
    assert(stack@.len() == segments(path@).len());
    let low = text::to_lower(s.as_str());
    match judge(low.as_str()) {
        Ok(_) => Ok(s),
        Err(e) => Err(e),
    }
}

/// The outcome of the check for a read of `path`, which the filesystem
/// resolved as `found`.
pub open spec fn read_checked(path: Seq<char>, found: Resolution) -> Result<Seq<char>, PathFault> {
    match checked(path) {
        Err(e) => Err(e),
        Ok(_) => match found {
            Resolution::Failed(e) => Err(PathFault::ResolveFailed(e@)),
            Resolution::NotUtf8 => Err(PathFault::InvalidUtf8),
            Resolution::Found(c) => match judged(text::lower(c@)) {
                Ok(_) => Ok(c@),
                Err(PathFault::BlockedByDenyList(d)) => Err(
                    PathFault::BlockedByDenyList(d + " (resolved from "@ + path + ")"@),
                ),
                Err(e) => Err(e),
            },
        },
    }
}

/// Validates `path` for a read: the lexical check, then both lists again on
/// the location that the lexical path resolves to on this host.
pub fn check_read(path: &str, found: &Resolution) -> (r: Result<String, PathError>)
    ensures
        path_outcome(r) == read_checked(path@, *found),
{
    match check(path) {
        Err(e) => Err(e),
        Ok(_) => match found {
            Resolution::Failed(e) => Err(PathError::ResolveFailed(text::owned(e.as_str()))),
            Resolution::NotUtf8 => Err(PathError::InvalidUtf8),
            Resolution::Found(c) => {
                let low = text::to_lower(c.as_str());
                match judge(low.as_str()) {
                    Ok(_) => Ok(text::owned(c.as_str())),
                    Err(PathError::BlockedByDenyList(d)) => {
                        let mut m = d;
                        m.append(" (resolved from ");
                        m.append(path);
                        m.append(")");
                        Err(PathError::BlockedByDenyList(m))
                    },
                    Err(e) => Err(e),
                }
            },
        },
    }
}

/// The directory and the file name that a checked path splits into.
pub open spec fn parted(path: Seq<char>) -> Result<(Seq<char>, Seq<char>), PathFault> {
    match checked(path) {
        Err(e) => Err(e),
        Ok(_) => {
            let segs = segments(path);
            if segs.len() == 0 {
                Err(PathFault::OutsideAllowList)
            } else {
                Ok((rooted(segs.drop_last()), segs.last()))
            }
        },
    }
}

/// The directory to resolve before a write of `path`, and the file name in it.
pub fn write_target(path: &str) -> (r: Result<(String, String), PathError>)
    ensures
        target_outcome(r) == parted(path@),
{
    match check(path) {
        Err(e) => Err(e),
        Ok(_) => {
            let mut stack = resolve_segments(path);
            let ghost segs = segments(path@);
            match stack.pop() {
                None => Err(PathError::OutsideAllowList),
                Some(name) => {
                    assert(text::texts(stack@) =~= segs.drop_last());
                    assert(name@ == segs.last());
                    let parent = text::join2("/", text::join(stack.as_slice(), "/").as_str());
                    Ok((parent, name))
                },
            }
        },
    }
}

/// A directory in lower case, with a slash at its end.
pub open spec fn as_directory(p: Seq<char>) -> Seq<char> {
    if text::finishes(text::lower(p), '/') {
        text::lower(p)
    } else {
        text::lower(p) + "/"@
    }
}

/// The outcome of the match of a file in a resolved directory: of the
/// directory first, then of the file in it.
pub open spec fn landed(dir: Seq<char>, name: Seq<char>) -> Result<(), PathFault> {
    match judged(as_directory(dir)) {
        Err(e) => Err(e),
        Ok(_) => judged(as_directory(dir) + text::lower(name)),
    }
}

fn land(dir: &str, name: &str) -> (r: Result<(), PathError>)
    ensures
        match r {
            Ok(_) => landed(dir@, name@) is Ok,
            Err(e) => landed(dir@, name@) == Err::<(), PathFault>(e@),
        },
{
    let mut low = text::to_lower(dir);
    if !text::ends_with_char(low.as_str(), '/') {
        low.append("/");
    }
    match judge(low.as_str()) {
        Err(e) => Err(e),
        Ok(_) => {
            low.append(text::to_lower(name).as_str());
            judge(low.as_str())
        },
    }
}

/// The outcome of the check for a write of `path`, whose directory the
/// filesystem resolved as `found`.
pub open spec fn write_checked(path: Seq<char>, found: Resolution) -> Result<
    (Seq<char>, Seq<char>),
    PathFault,
> {
    match parted(path) {
        Err(e) => Err(e),
        Ok(target) => match found {
            Resolution::Failed(e) => Err(PathFault::ResolveFailed(e@)),
            Resolution::NotUtf8 => Err(PathFault::InvalidUtf8),
            Resolution::Found(c) => match landed(c@, target.1) {
                Ok(_) => Ok((c@, target.1)),
                Err(PathFault::BlockedByDenyList(d)) => Err(
                    PathFault::BlockedByDenyList(d + " (parent resolved from "@ + path + ")"@),
                ),
                Err(e) => Err(e),
            },
        },
    }
}

/// Validates `path` for a write. The file may not exist yet, so it is the
/// directory of the lexical path that is resolved; it and the file in it are
/// matched again. Gives the resolved directory and the file name.
pub fn check_write(path: &str, found: &Resolution) -> (r: Result<(String, String), PathError>)
    ensures
        target_outcome(r) == write_checked(path@, *found),
{
    match write_target(path) {
        Err(e) => Err(e),
        Ok(target) => match found {
            Resolution::Failed(e) => Err(PathError::ResolveFailed(text::owned(e.as_str()))),
            Resolution::NotUtf8 => Err(PathError::InvalidUtf8),
            Resolution::Found(c) => match land(c.as_str(), target.1.as_str()) {
                Ok(_) => Ok((text::owned(c.as_str()), target.1)),
                Err(PathError::BlockedByDenyList(d)) => {
                    let mut m = d;
                    m.append(" (parent resolved from ");
                    m.append(path);
                    m.append(")");
                    Err(PathError::BlockedByDenyList(m))
                },
                Err(e) => Err(e),
            },
        },
    }
}

// ---------- laws ----------

/// A segment that stands for itself.
pub open spec fn is_plain(seg: Seq<char>) -> bool {
    seg.len() > 0 && seg != "."@ && seg != ".."@
}

proof fn lemma_resolve_plain(segs: Seq<Seq<char>>)
    ensures
        forall|i: int|
            0 <= i < resolve(segs).len() ==> is_plain(#[trigger] resolve(segs)[i])
                && segs.contains(resolve(segs)[i]),
    decreases segs.len(),
{
    if segs.len() > 0 {
        let init = segs.drop_last();
        lemma_resolve_plain(init);
        assert forall|i: int| 0 <= i < resolve(segs).len() implies is_plain(
            #[trigger] resolve(segs)[i],
        ) && segs.contains(resolve(segs)[i]) by {
            if i < resolve(init).len() {
                assert(resolve(segs)[i] == resolve(init)[i]);
                let k = choose|k: int| 0 <= k < init.len() && init[k] == resolve(init)[i];
                assert(segs[k] == init[k]);
            } else {
                assert(resolve(segs)[i] == segs[segs.len() - 1]);
            }
        }
    }
}

proof fn lemma_resolve_identity(segs: Seq<Seq<char>>)
    requires
        forall|i: int| 0 <= i < segs.len() ==> is_plain(#[trigger] segs[i]),
    ensures
        resolve(segs) == segs,
    decreases segs.len(),
{
    if segs.len() > 0 {
        let init = segs.drop_last();
        assert forall|i: int| 0 <= i < init.len() implies is_plain(#[trigger] init[i]) by {
            assert(segs[i] == init[i]);
        }
        lemma_resolve_identity(init);
        assert(is_plain(segs[segs.len() - 1]));
        assert(init.push(segs.last()) =~= segs);
    } else {
        assert(resolve(segs) =~= segs);
    }
}

proof fn lemma_resolve_leading_empty(segs: Seq<Seq<char>>)
    ensures
        resolve(seq![Seq::<char>::empty()] + segs) == resolve(segs),
    decreases segs.len(),
{
    let e = seq![Seq::<char>::empty()];
    if segs.len() > 0 {
        assert((e + segs).drop_last() =~= e + segs.drop_last());
        assert((e + segs).last() == segs.last());
        lemma_resolve_leading_empty(segs.drop_last());
    } else {
        assert(e + segs =~= e);
        assert(e.drop_last() =~= Seq::<Seq<char>>::empty());
        assert(resolve(e) == resolve(e.drop_last()));
    }
}

proof fn lemma_segments_plain(path: Seq<char>)
    ensures
        forall|i: int|
            0 <= i < segments(path).len() ==> is_plain(#[trigger] segments(path)[i])
                && !segments(path)[i].contains('/') && (forall|c: char|
                segments(path)[i].contains(c) ==> path.contains(c)),
{
    let parts = text::split(path, '/');
    lemma_resolve_plain(parts);
    text::lemma_split_free(path, '/');
    text::lemma_split_subset(path, '/');
    assert forall|i: int| 0 <= i < segments(path).len() implies is_plain(
        #[trigger] segments(path)[i],
    ) && !segments(path)[i].contains('/') && (forall|c: char|
        segments(path)[i].contains(c) ==> path.contains(c)) by {
        let k = choose|k: int| 0 <= k < parts.len() && parts[k] == segments(path)[i];
        assert(!parts[k].contains('/'));
    }
}

/// A path that was normalised once has the same segments again.
proof fn lemma_normal_segments(path: Seq<char>)
    ensures
        segments(normal(path)) == segments(path),
        normal(normal(path)) == normal(path),
        normal(path).len() > 0,
        normal(path)[0] == '/',
        forall|c: char| normal(path).contains(c) ==> c == '/' || path.contains(c),
{
    let segs = segments(path);
    let sep = "/"@;
    lemma_dots_differ();
    lemma_segments_plain(path);
    let body = text::joined(segs, sep);
    let root = sep + body;
    text::lemma_joined_chars(segs, sep);
    assert forall|c: char| normal(path).contains(c) implies c == '/' || path.contains(c) by {
        let k = choose|k: int| 0 <= k < normal(path).len() && normal(path)[k] == c;
        if 0 < k < root.len() {
            assert(root[k] == body[k - 1]);
            assert(body.contains(c));
            if !sep.contains(c) {
                let i = choose|i: int| 0 <= i < segs.len() && (#[trigger] segs[i]).contains(c);
                assert(segments(path)[i].contains(c));
            } else {
                let j = choose|j: int| 0 <= j < sep.len() && sep[j] == c;
            }
        }
    }
    text::lemma_split_leading(body, '/');
    assert(root =~= seq!['/'] + body);
    if segs.len() > 0 {
        text::lemma_split_joined(segs, '/');
        assert(sep =~= seq!['/']);
        lemma_resolve_identity(segs);
        lemma_resolve_leading_empty(segs);
        let e = seq![Seq::<char>::empty()];
        assert(text::split(root, '/') == e + segs);
        assert(segs.last() == segs[segs.len() - 1]);
        if text::finishes(path, '/') {
            let q = root + sep;
            assert(q =~= root.push('/'));
            assert(q.drop_last() =~= root);
            assert(text::split(q, '/') == (e + segs).push(Seq::empty()));
            assert((e + segs).push(Seq::<char>::empty()).drop_last() =~= e + segs);
            assert(q.last() == '/');
        } else {
            text::lemma_joined_last(segs, sep);
            assert(root.last() == segs.last().last());
            assert(segs.last().contains(segs.last().last()));
        }
    } else {
        assert(body =~= Seq::<char>::empty());
        let e = seq![Seq::<char>::empty()];
        assert(text::split(body, '/') == e);
        lemma_resolve_leading_empty(e);
        assert(e.drop_last() =~= Seq::<Seq<char>>::empty());
        assert(resolve(e) == resolve(e.drop_last()));
        assert(segs =~= Seq::<Seq<char>>::empty());
    }
}

/// Checking what a check gave back gives the same path: the accepted
/// spelling is a fixed point.
pub proof fn law_check_is_idempotent(path: Seq<char>)
    requires
        checked(path) is Ok,
    ensures
        checked(checked(path)->Ok_0) == checked(path),
{
    lemma_normal_segments(path);
    assert(path[0] == '/');
}

proof fn lemma_resolve_same(a: Seq<Seq<char>>, b: Seq<Seq<char>>, rest: Seq<Seq<char>>)
    requires
        resolve(a) == resolve(b),
    ensures
        resolve(a + rest) == resolve(b + rest),
    decreases rest.len(),
{
    if rest.len() == 0 {
        assert(a + rest =~= a);
        assert(b + rest =~= b);
    } else {
        assert((a + rest).drop_last() =~= a + rest.drop_last());
        assert((b + rest).drop_last() =~= b + rest.drop_last());
        lemma_resolve_same(a, b, rest.drop_last());
    }
}

/// Between two slashes, text that resolves to nothing changes no segments.
proof fn lemma_detour(head: Seq<char>, detour: Seq<char>, rest: Seq<char>)
    requires
        resolve(text::split(head, '/') + text::split(detour, '/')) == resolve(
            text::split(head, '/'),
        ),
    ensures
        segments(head + seq!['/'] + detour + seq!['/'] + rest) == segments(
            head + seq!['/'] + rest,
        ),
{
    let a = text::split(head, '/');
    let b = text::split(detour, '/');
    let c = text::split(rest, '/');
    text::lemma_split_between(head, detour, '/');
    text::lemma_split_between(head + seq!['/'] + detour, rest, '/');
    text::lemma_split_between(head, rest, '/');
    lemma_resolve_same(a + b, a, c);
}

/// Two spellings of one place are checked to the same path, and a write of
/// either goes to the same file.
pub open spec fn same_place(a: Seq<char>, b: Seq<char>) -> bool {
    checked(a) == checked(b) && parted(a) == parted(b)
}

proof fn lemma_same_place(head: Seq<char>, detour: Seq<char>, rest: Seq<char>)
    requires
        resolve(text::split(head, '/') + text::split(detour, '/')) == resolve(
            text::split(head, '/'),
        ),
        !detour.contains('\0'),
    ensures
        same_place(head + seq!['/'] + detour + seq!['/'] + rest, head + seq!['/'] + rest),
{
    let long = head + seq!['/'] + detour + seq!['/'] + rest;
    let short = head + seq!['/'] + rest;
    lemma_detour(head, detour, rest);
    assert(long.contains('\0') <==> short.contains('\0')) by {
        if long.contains('\0') {
            let k = choose|k: int| 0 <= k < long.len() && long[k] == '\0';
            if k < head.len() {
                assert(short[k] == '\0');
            } else if k < head.len() + 1 + detour.len() {
                assert(detour[k - head.len() - 1] == '\0' || k == head.len());
            } else {
                assert(short[k - detour.len() - 1] == '\0');
            }
        }
        if short.contains('\0') {
            let k = choose|k: int| 0 <= k < short.len() && short[k] == '\0';
            if k < head.len() {
                assert(long[k] == '\0');
            } else {
                assert(long[k + detour.len() + 1] == '\0');
            }
        }
    }
    assert(long[0] == short[0]);
    assert(long.last() == short.last());
    assert(text::finishes(long, '/') == text::finishes(short, '/'));
}

/// It does not matter how a path is spelled: a doubled slash, a `./`, and a
/// step into a directory and out of it again, anywhere in the path, are checked
/// to the same path, or refused for the same reason. (A NUL in the directory's
/// name is refused wherever it stands, so it is left out.)
pub proof fn law_spelling_does_not_matter(head: Seq<char>, name: Seq<char>, rest: Seq<char>)
    requires
        is_plain(name),
        !name.contains('/'),
        !name.contains('\0'),
    ensures
        same_place(head + "//"@ + rest, head + "/"@ + rest),
        same_place(head + "/./"@ + rest, head + "/"@ + rest),
        same_place(head + "/"@ + name + "/../"@ + rest, head + "/"@ + rest),
{
    let a = text::split(head, '/');
    let slash = seq!['/'];
    reveal_strlit("/");
    reveal_strlit("//");
    reveal_strlit("/./");
    reveal_strlit("/../");
    reveal_strlit("..");
    lemma_dots_differ();
    assert(".."@ =~= seq!['.', '.']);
    assert(head + "/"@ + rest =~= head + slash + rest);

    let none = Seq::<char>::empty();
    assert(text::split(none, '/') == seq![none]);
    assert((a + seq![none]).drop_last() =~= a);
    lemma_same_place(head, none, rest);
    assert(head + "//"@ + rest =~= head + slash + none + slash + rest);

    lemma_one_piece("."@);
    assert((a + seq!["."@]).drop_last() =~= a);
    lemma_same_place(head, "."@, rest);
    assert(head + "/./"@ + rest =~= head + slash + "."@ + slash + rest);

    let detour = name + slash + ".."@;
    lemma_one_piece(name);
    lemma_one_piece(".."@);
    text::lemma_split_between(name, ".."@, '/');
    let b = a + seq![name];
    assert(b.drop_last() =~= a);
    assert(a + (seq![name] + seq![".."@]) =~= b + seq![".."@]);
    assert((b + seq![".."@]).drop_last() =~= b);
    assert(resolve(b) == resolve(a).push(name));
    assert(resolve(a).push(name).drop_last() =~= resolve(a));
    assert(!detour.contains('\0')) by {
        if detour.contains('\0') {
            let k = choose|k: int| 0 <= k < detour.len() && detour[k] == '\0';
            if k < name.len() {
                assert(name[k] == '\0');
            } else if k > name.len() {
                assert(".."@[k - name.len() - 1] == '\0');
            }
        }
    }
    lemma_same_place(head, detour, rest);
    assert(head + "/"@ + name + "/../"@ + rest =~= head + slash + detour + slash + rest);
}

proof fn lemma_one_piece(s: Seq<char>)
    requires
        !s.contains('/'),
    ensures
        text::split(s, '/') == seq![s],
{
    let none = Seq::<char>::empty();
    text::lemma_split_extend(none, s, '/');
    assert(none + s =~= s);
    assert(seq![none].drop_last() =~= Seq::<Seq<char>>::empty());
    assert(seq![none].last() == none);
    assert(text::split(s, '/') =~= seq![s]);
}

/// An accepted path is absolute, begins (in lower case) with an allowed
/// location and with no denied one, and climbs nowhere.
pub proof fn law_checked_path_is_confined(path: Seq<char>)
    requires
        checked(path) is Ok,
    ensures
        ({
            let p = checked(path)->Ok_0;
            &&& text::begins(p, '/')
            &&& forall|i: int|
                0 <= i < deny_list().len() ==> !(#[trigger] deny_list()[i]).is_prefix_of(
                    text::lower(p),
                )
            &&& exists|i: int|
                0 <= i < allow_list().len() && (#[trigger] allow_list()[i]).is_prefix_of(
                    text::lower(p),
                )
            &&& forall|i: int|
                0 <= i < segments(p).len() ==> is_plain(#[trigger] segments(p)[i])
            &&& p == normal(p)
        }),
{
    lemma_normal_segments(path);
    lemma_segments_plain(normal(path));
    lemma_first_prefix(deny_list(), text::lower(normal(path)));
    lemma_first_prefix(allow_list(), text::lower(normal(path)));
}

/// A read is accepted only where the location it resolves to passes both
/// lists: a symlink under an allowed location that points at a denied one, or
/// out of the allowed ones, is refused.
pub proof fn law_read_follows_no_link_out(path: Seq<char>, found: Resolution)
    requires
        read_checked(path, found) is Ok,
    ensures
        found is Found,
        read_checked(path, found)->Ok_0 == found->Found_0@,
        checked(path) is Ok,
        forall|i: int|
            0 <= i < deny_list().len() ==> !(#[trigger] deny_list()[i]).is_prefix_of(
                text::lower(found->Found_0@),
            ),
        exists|i: int|
            0 <= i < allow_list().len() && (#[trigger] allow_list()[i]).is_prefix_of(
                text::lower(found->Found_0@),
            ),
{
    lemma_first_prefix(deny_list(), text::lower(found->Found_0@));
    lemma_first_prefix(allow_list(), text::lower(found->Found_0@));
}

/// A write is accepted only where the directory it resolves to passes both
/// lists; the file name is one plain segment, so it names nothing outside it;
/// and the file in the directory is none of the denied ones, however the
/// directory was spelled.
pub proof fn law_write_stays_in_directory(path: Seq<char>, found: Resolution)
    requires
        write_checked(path, found) is Ok,
    ensures
        found is Found,
        write_checked(path, found)->Ok_0.0 == found->Found_0@,
        is_plain(write_checked(path, found)->Ok_0.1),
        !write_checked(path, found)->Ok_0.1.contains('/'),
        forall|i: int|
            0 <= i < deny_list().len() ==> !(#[trigger] deny_list()[i]).is_prefix_of(
                as_directory(found->Found_0@) + text::lower(
                    write_checked(path, found)->Ok_0.1,
                ),
            ),
        exists|i: int|
            0 <= i < allow_list().len() && (#[trigger] allow_list()[i]).is_prefix_of(
                as_directory(found->Found_0@),
            ),
{
    lemma_first_prefix(
        deny_list(),
        as_directory(found->Found_0@) + text::lower(write_checked(path, found)->Ok_0.1),
    );
    lemma_first_prefix(allow_list(), as_directory(found->Found_0@));
    lemma_segments_plain(path);
    let segs = segments(path);
    assert(segs.last() == segs[segs.len() - 1]);
}

/// No check accepts a path to what is never read or written, whatever its case.
pub proof fn law_denied_places_are_refused(path: &str, r: Result<String, PathError>)
    requires
        call_ensures(check, (path,), r),
        path@.len() > 0,
        path@[0] == '/',
        !path@.contains('\0'),
    ensures
        "/etc/shadow"@.is_prefix_of(text::lower(normal(path@))) || "/etc/gshadow"@.is_prefix_of(
            text::lower(normal(path@)),
        ) || "/etc/sudoers"@.is_prefix_of(text::lower(normal(path@))) || "/etc/ssh/"@.is_prefix_of(
            text::lower(normal(path@)),
        ) || "/etc/shellfleet/agent-token"@.is_prefix_of(text::lower(normal(path@)))
            || "/root/"@.is_prefix_of(text::lower(normal(path@))) || "/home/.ssh/"@.is_prefix_of(
            text::lower(normal(path@)),
        ) || "/proc/"@.is_prefix_of(text::lower(normal(path@))) || "/sys/"@.is_prefix_of(
            text::lower(normal(path@)),
        ) || "/dev/"@.is_prefix_of(text::lower(normal(path@))) <==> r is Err && r->Err_0
            is BlockedByDenyList,
{
    let low = text::lower(normal(path@));
    let list = deny_list();
    lemma_first_prefix(list, low);
    assert(list[0] == "/etc/shadow"@ && list[1] == "/etc/gshadow"@ && list[2] == "/etc/sudoers"@
        && list[3] == "/etc/ssh/"@ && list[4] == "/etc/shellfleet/agent-token"@ && list[5]
        == "/root/"@ && list[6] == "/home/.ssh/"@ && list[7] == "/proc/"@ && list[8] == "/sys/"@
        && list[9] == "/dev/"@ && list.len() == 10);
    if let Some(d) = first_prefix(list, low) {
        let k = choose|k: int| 0 <= k < list.len() && list[k] == d;
        assert(list[k].is_prefix_of(low));
    } else {
        assert(!list[0].is_prefix_of(low) && !list[1].is_prefix_of(low) && !list[2].is_prefix_of(
            low,
        ) && !list[3].is_prefix_of(low) && !list[4].is_prefix_of(low) && !list[5].is_prefix_of(low)
            && !list[6].is_prefix_of(low) && !list[7].is_prefix_of(low) && !list[8].is_prefix_of(
            low,
        ) && !list[9].is_prefix_of(low));
    }
    if r is Err {
        assert(path_outcome(r) == Err::<Seq<char>, PathFault>(r->Err_0@));
        assert(r->Err_0@ is BlockedByDenyList <==> r->Err_0 is BlockedByDenyList);
    }
}

/// What is not denied is accepted below the config locations and nowhere else,
/// in its normal spelling.
pub proof fn law_config_places_are_accepted(path: &str, r: Result<String, PathError>)
    requires
        call_ensures(check, (path,), r),
        path@.len() > 0,
        path@[0] == '/',
        !path@.contains('\0'),
        !(r is Err && r->Err_0 is BlockedByDenyList),
    ensures
        r is Ok <==> "/etc/"@.is_prefix_of(text::lower(normal(path@))) || "/opt/"@.is_prefix_of(
            text::lower(normal(path@)),
        ) || "/usr/local/etc/"@.is_prefix_of(text::lower(normal(path@))) || "/srv/"@.is_prefix_of(
            text::lower(normal(path@)),
        ) || "/home/"@.is_prefix_of(text::lower(normal(path@))) || "/var/log/"@.is_prefix_of(
            text::lower(normal(path@)),
        ),
        r is Ok ==> r->Ok_0@ == normal(path@),
        r is Err ==> r->Err_0 is OutsideAllowList,
{
    let low = text::lower(normal(path@));
    let list = allow_list();
    lemma_first_prefix(list, low);
    assert(list[0] == "/etc/"@ && list[1] == "/opt/"@ && list[2] == "/usr/local/etc/"@ && list[3]
        == "/srv/"@ && list[4] == "/home/"@ && list[5] == "/var/log/"@ && list.len() == 6);
    if let Some(d) = first_prefix(list, low) {
        let k = choose|k: int| 0 <= k < list.len() && list[k] == d;
        assert(list[k].is_prefix_of(low));
    } else {
        assert(!list[0].is_prefix_of(low) && !list[1].is_prefix_of(low) && !list[2].is_prefix_of(
            low,
        ) && !list[3].is_prefix_of(low) && !list[4].is_prefix_of(low) && !list[5].is_prefix_of(
            low,
        ));
    }
    if r is Err {
        assert(path_outcome(r) == Err::<Seq<char>, PathFault>(r->Err_0@));
        assert(r->Err_0@ is BlockedByDenyList <==> r->Err_0 is BlockedByDenyList);
        assert(r->Err_0@ is OutsideAllowList <==> r->Err_0 is OutsideAllowList);
    }
}

/// What is no absolute path is refused for what it lacks.
pub proof fn law_unfit_paths_are_refused(path: &str, r: Result<String, PathError>)
    requires
        call_ensures(check, (path,), r),
    ensures
        path@.len() == 0 <==> r is Err && r->Err_0 is Empty,
        path@.len() > 0 && path@[0] != '/' <==> r is Err && r->Err_0 is NotAbsolute,
        path@.len() > 0 && path@[0] == '/' && path@.contains('\0') <==> r is Err && r->Err_0
            is InvalidUtf8,
{
    if r is Err {
        assert(path_outcome(r) == Err::<Seq<char>, PathFault>(r->Err_0@));
        assert(r->Err_0@ is Empty <==> r->Err_0 is Empty);
        assert(r->Err_0@ is NotAbsolute <==> r->Err_0 is NotAbsolute);
        assert(r->Err_0@ is InvalidUtf8 <==> r->Err_0 is InvalidUtf8);
    }
}

/// A path of plain names is its own normal spelling, with or without a slash at
/// its end.
pub proof fn law_plain_paths_are_normal(names: Seq<Seq<char>>)
    requires
        names.len() > 0,
        forall|i: int|
            0 <= i < names.len() ==> (#[trigger] names[i]).len() > 0 && names[i] != "."@ && names[i]
                != ".."@ && !names[i].contains('/'),
    ensures
        normal("/"@ + text::joined(names, "/"@)) == "/"@ + text::joined(names, "/"@),
        normal("/"@ + text::joined(names, "/"@) + "/"@) == "/"@ + text::joined(names, "/"@) + "/"@,
        segments("/"@ + text::joined(names, "/"@)) == names,
{
    let sep = "/"@;
    lemma_dots_differ();
    let body = text::joined(names, sep);
    let root = sep + body;
    let e = seq![Seq::<char>::empty()];
    text::lemma_split_leading(body, '/');
    assert(root =~= seq!['/'] + body);
    assert(sep =~= seq!['/']);
    text::lemma_split_joined(names, '/');
    assert forall|i: int| 0 <= i < names.len() implies is_plain(#[trigger] names[i]) by {
        assert(names[i].len() > 0);
    }
    lemma_resolve_identity(names);
    lemma_resolve_leading_empty(names);
    let q = root + sep;
    assert(q =~= root.push('/'));
    assert(q.drop_last() =~= root);
    assert(text::split(q, '/') == (e + names).push(Seq::empty()));
    assert((e + names).push(Seq::<char>::empty()).drop_last() =~= e + names);
    assert(q.last() == '/');
    text::lemma_joined_last(names, sep);
    assert(names.last() == names[names.len() - 1]);
    assert(root.last() == names.last().last());
    assert(names.last().contains(names.last().last()));
}

/// A write goes to the directory and the file that the normal spelling of the
/// path is made of.
pub proof fn law_targets_are_the_path(path: &str, r: Result<(String, String), PathError>)
    requires
        call_ensures(write_target, (path,), r),
        r is Ok,
    ensures
        r->Ok_0.1@.len() > 0,
        !r->Ok_0.1@.contains('/'),
        ({
            let dir = r->Ok_0.0@;
            let whole = if dir == "/"@ {
                dir + r->Ok_0.1@
            } else {
                dir + "/"@ + r->Ok_0.1@
            };
            normal(path@) == whole || normal(path@) == whole + "/"@
        }),
{
    let segs = segments(path@);
    lemma_segments_plain(path@);
    lemma_dots_differ();
    assert(segs.last() == segs[segs.len() - 1]);
    let front = segs.drop_last();
    let dir = rooted(front);
    assert(r->Ok_0.0@ == dir && r->Ok_0.1@ == segs.last());
    if segs.len() == 1 {
        assert(text::joined(front, "/"@) =~= Seq::empty());
        assert(dir =~= "/"@);
        assert(rooted(segs) =~= dir + segs.last());
    } else {
        assert(rooted(segs) =~= dir + "/"@ + segs.last());
        assert(front[0] == segs[0]);
        assert(is_plain(segs[0]));
        lemma_joined_long(front, "/"@);
        assert(dir.len() > 1);
    }
}

proof fn lemma_joined_long(parts: Seq<Seq<char>>, sep: Seq<char>)
    requires
        parts.len() > 0,
        parts[0].len() > 0,
    ensures
        text::joined(parts, sep).len() > 0,
    decreases parts.len(),
{
    if parts.len() > 1 {
        assert(parts.drop_last()[0] == parts[0]);
        lemma_joined_long(parts.drop_last(), sep);
    }
}

/// A read is accepted at the place it resolves to where both spellings pass,
/// and else it is refused.
pub proof fn law_reads_are_judged_twice(
    path: &str,
    found: &Resolution,
    place: &str,
    r: Result<String, PathError>,
    lexical: Result<String, PathError>,
    resolved: Result<String, PathError>,
)
    requires
        call_ensures(check_read, (path, found), r),
        call_ensures(check, (path,), lexical),
        call_ensures(check, (place,), resolved),
        *found is Found,
        (*found)->Found_0@ == place@,
        place@.len() > 0,
        place@[0] == '/',
        !place@.contains('\0'),
        normal(place@) == place@,
    ensures
        r is Ok <==> lexical is Ok && resolved is Ok,
        r is Ok ==> r->Ok_0@ == place@,
{
}

/// What does not resolve is refused, with the reason.
pub proof fn law_unresolved_reads_are_refused(
    path: &str,
    found: &Resolution,
    r: Result<String, PathError>,
)
    requires
        call_ensures(check_read, (path, found), r),
    ensures
        *found !is Found ==> r is Err,
        *found matches Resolution::Failed(e) ==> (checked(path@) is Ok ==> (r
            matches Err(PathError::ResolveFailed(m)) && m@ == e@)),
{
    if r is Err {
        assert(path_outcome(r) == Err::<Seq<char>, PathFault>(r->Err_0@));
    }
}

/// A write is accepted into the directory it resolves to, under its own name,
/// where the lists let the directory and the file in it pass.
pub proof fn law_fit_writes_are_accepted(
    path: &str,
    found: &Resolution,
    r: Result<(String, String), PathError>,
    target: Result<(String, String), PathError>,
)
    requires
        call_ensures(check_write, (path, found), r),
        call_ensures(write_target, (path,), target),
    ensures
        r is Ok ==> target is Ok && *found is Found && r->Ok_0.0@ == (*found)->Found_0@
            && r->Ok_0.1@ == target->Ok_0.1@,
        target is Ok && *found is Found && judged(as_directory((*found)->Found_0@)) is Ok && judged(
            as_directory((*found)->Found_0@) + text::lower(target->Ok_0.1@),
        ) is Ok ==> r is Ok,
        target is Err ==> r is Err,
{
}

/// Each refusal tells the operator what is wrong.
pub proof fn law_refusals_are_worded(e: &PathError, r: String)
    requires
        call_ensures(PathError::to_text, (e,), r),
    ensures
        *e is NotAbsolute ==> r@ == "path must be absolute"@,
        *e matches PathError::BlockedByDenyList(p) ==> r@ == "path matches deny-list: "@ + p@,
        *e is OutsideAllowList ==> r@
            == "path is outside the allowed config-file locations (/etc, /opt, /usr/local/etc, /srv, /home, /var/log)"@,
        *e is InvalidUtf8 ==> r@ == "path is not valid UTF-8"@,
        *e is Empty ==> r@ == "path is empty"@,
        *e matches PathError::ResolveFailed(x) ==> r@ == "path resolve failed: "@ + x@,
{
}

/// A place that a path leads to and that is on the deny-list is told with the
/// path that led there.
pub proof fn law_denied_links_are_told(
    path: &str,
    found: &Resolution,
    read: Result<String, PathError>,
    lexical: Result<String, PathError>,
    written: Result<(String, String), PathError>,
    target: Result<(String, String), PathError>,
)
    requires
        call_ensures(check_read, (path, found), read),
        call_ensures(check, (path,), lexical),
        call_ensures(check_write, (path, found), written),
        call_ensures(write_target, (path,), target),
    ensures
        lexical is Ok && read is Err && read->Err_0 is BlockedByDenyList ==> exists|place: Seq<char>|
            read->Err_0->BlockedByDenyList_0@ == #[trigger] (place + " (resolved from "@) + path@
                + ")"@,
        target is Ok && written is Err && written->Err_0 is BlockedByDenyList ==> exists|
            place: Seq<char>,
        |
            written->Err_0->BlockedByDenyList_0@ == #[trigger] (place
                + " (parent resolved from "@) + path@ + ")"@,
{
    if read is Err {
        assert(path_outcome(read) == Err::<Seq<char>, PathFault>(read->Err_0@));
    }
    if lexical is Ok && read is Err && read->Err_0 is BlockedByDenyList {
        let place = judged(text::lower((*found)->Found_0@))->Err_0->BlockedByDenyList_0;
        assert(read->Err_0->BlockedByDenyList_0@ == (place + " (resolved from "@) + path@ + ")"@);
    }
    if written is Err {
        assert(target_outcome(written) == Err::<(Seq<char>, Seq<char>), PathFault>(
            written->Err_0@,
        ));
    }
    if target is Ok && written is Err && written->Err_0 is BlockedByDenyList {
        let place = landed((*found)->Found_0@, target->Ok_0.1@)->Err_0->BlockedByDenyList_0;
        assert(written->Err_0->BlockedByDenyList_0@ == (place + " (parent resolved from "@) + path@
            + ")"@);
    }
}

}
