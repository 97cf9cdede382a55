//! Paths as bytes: lexical resolution of `.` and `..`, and whether one path
//! lies under another, component by component.

use crate::text;
use vstd::prelude::*;
use vstd::slice::slice_subrange;

verus! {

/// The separator of path components, which also stands for the root.
pub const SLASH: u8 = 47;

const DOT: u8 = 46;

pub open spec fn names(v: Seq<Vec<u8>>) -> Seq<Seq<u8>> {
    v.map_values(|b: Vec<u8>| b@)
}

/// The component that stands for the root.
pub open spec fn root_name() -> Seq<u8> {
    seq![47u8]
}

pub open spec fn is_dot(name: Seq<u8>) -> bool {
    name == seq![46u8]
}

pub open spec fn is_dot_dot(name: Seq<u8>) -> bool {
    name == seq![46u8, 46u8]
}

/// One more component: `..` goes up, but never above the root; `.` and an
/// empty name change nothing.
pub open spec fn step(at: Seq<Seq<u8>>, name: Seq<u8>) -> Seq<Seq<u8>> {
    if name.len() == 0 || is_dot(name) {
        at
    } else if is_dot_dot(name) {
        if at.len() > 0 && at.last() != root_name() {
            at.drop_last()
        } else {
            at
        }
    } else {
        at.push(name)
    }
}

/// Where a path leads from a place: its bytes are read one by one, with the
/// name that is being read kept apart.
pub open spec fn walk(at: Seq<Seq<u8>>, name: Seq<u8>, rest: Seq<u8>) -> Seq<Seq<u8>>
    decreases rest.len(),
{
    if rest.len() == 0 {
        step(at, name)
    } else if rest[0] == SLASH {
        walk(step(at, name), Seq::empty(), rest.skip(1))
    } else {
        walk(at, name.push(rest[0]), rest.skip(1))
    }
}

/// Where a path starts: at the root, or nowhere in particular.
pub open spec fn start(path: Seq<u8>) -> Seq<Seq<u8>> {
    if path.len() > 0 && path[0] == SLASH {
        seq![root_name()]
    } else {
        Seq::empty()
    }
}

/// The components that a path comes to once `.` and `..` are resolved.
pub open spec fn normal(path: Seq<u8>) -> Seq<Seq<u8>> {
    walk(start(path), Seq::empty(), path)
}

/// Components written out as a path.
pub open spec fn spelled(at: Seq<Seq<u8>>) -> Seq<u8>
    decreases at.len(),
{
    if at.len() == 0 {
        Seq::empty()
    } else {
        let front = spelled(at.drop_last());
        if front.len() == 0 || front.last() == SLASH {
            front + at.last()
        } else {
            front.push(SLASH) + at.last()
        }
    }
}

/// Whether a path lies at or under another one, `.` and `..` resolved.
pub open spec fn under(path: Seq<u8>, root: Seq<u8>) -> bool {
    normal(root).is_prefix_of(normal(path))
}

fn take_step(at: &mut Vec<Vec<u8>>, name: Vec<u8>)
    ensures
        names(final(at)@) == step(names(old(at)@), name@),
{
    let ghost before = names(at@);
    if name.len() == 0 {
        return;
    }
    if name.len() == 1 && name[0] == DOT {
        assert(name@ =~= seq![46u8]);
        return;
    }
    assert(!is_dot(name@)) by {
        if is_dot(name@) {
            assert(name@[0] == 46u8);
        }
    }
    if name.len() == 2 && name[0] == DOT && name[1] == DOT {
        assert(name@ =~= seq![46u8, 46u8]);
        let n = at.len();
        if n > 0 {
            let last_len = at[n - 1].len();
            let is_root = last_len == 1 && at[n - 1][0] == SLASH;
            proof {
                let last = at@[n - 1]@;
                assert(before.last() == last);
                if is_root {
                    assert(last =~= root_name());
                } else {
                    if last == root_name() {
                        assert(last[0] == 47u8);
                    }
                }
            }
            if !is_root {
                at.pop();
                assert(names(at@) =~= before.drop_last());
            }
        }
        return;
    }
    assert(!is_dot_dot(name@)) by {
        if is_dot_dot(name@) {
            assert(name@[0] == 46u8 && name@[1] == 46u8);
        }
    }
    at.push(name);
    assert(names(at@) =~= before.push(name@));
}

/// Resolves a path into its components.
pub fn components(path: &[u8]) -> (r: Vec<Vec<u8>>)
    ensures
        names(r@) == normal(path@),
{
    let mut at: Vec<Vec<u8>> = Vec::new();
    if path.len() > 0 && path[0] == SLASH {
        let mut root: Vec<u8> = Vec::new();
        root.push(SLASH);
        assert(root@ =~= root_name());
        at.push(root);
    }
    assert(names(at@) =~= start(path@));
    let mut name: Vec<u8> = Vec::new();
    let mut i: usize = 0;
    assert(path@.skip(0) =~= path@);
    assert(name@ =~= Seq::empty());
    while i < path.len()
        invariant
            i <= path@.len(),
            normal(path@) == walk(names(at@), name@, path@.skip(i as int)),
        decreases path@.len() - i,
    {
        let ghost rest = path@.skip(i as int);
        assert(rest.skip(1) =~= path@.skip(i as int + 1));
        if path[i] == SLASH {
            take_step(&mut at, name);
            name = Vec::new();
            assert(name@ =~= Seq::empty());
        } else {
            name.push(path[i]);
        }
        i += 1;
    }
    take_step(&mut at, name);
    at
}

/// Writes components out as a path.
pub fn spell(at: &[Vec<u8>]) -> (r: Vec<u8>)
    ensures
        r@ == spelled(names(at@)),
{
    let mut r: Vec<u8> = Vec::new();
    let mut i: usize = 0;
    assert(r@ =~= spelled(names(at@).take(0)));
    while i < at.len()
        invariant
            i <= at@.len(),
            r@ == spelled(names(at@).take(i as int)),
        decreases at@.len() - i,
    {
        let n = r.len();
        if n > 0 && r[n - 1] != SLASH {
            r.push(SLASH);
        }
        let mut copy = text::copy_bytes(at[i].as_slice());
        r.append(&mut copy);
        i += 1;
        assert(names(at@).take(i as int).drop_last() =~= names(at@).take(i - 1));
        assert(names(at@).take(i as int).last() == at@[i - 1]@);
    }
    assert(names(at@).take(i as int) =~= names(at@));
    r
}

/// Resolves `.` and `..` without asking the filesystem.
pub fn normalize_lexical(path: &[u8]) -> (r: Vec<u8>)
    ensures
        r@ == spelled(normal(path@)),
{
    let at = components(path);
    spell(at.as_slice())
}

/// Tests whether a path lies at or under another one.
pub fn is_under(path: &[u8], root: &[u8]) -> (r: bool)
    ensures
        r == under(path@, root@),
{
    let a = components(path);
    let b = components(root);
    if b.len() > a.len() {
        return false;
    }
    let mut i: usize = 0;
    while i < b.len()
        invariant
            i <= b@.len() <= a@.len(),
            names(a@) == normal(path@),
            names(b@) == normal(root@),
            forall|j: int| 0 <= j < i ==> names(a@)[j] == names(b@)[j],
        decreases b@.len() - i,
    {
        if !text::same_bytes(a[i].as_slice(), b[i].as_slice()) {
            assert(names(a@).subrange(0, b@.len() as int)[i as int] != names(b@)[i as int]);
            return false;
        }
        i += 1;
    }
    assert(names(b@) =~= names(a@).subrange(0, b@.len() as int));
    true
}

// ---------- laws ----------

/// Whether components are resolved: names without separators, neither empty
/// nor `.` nor `..`, with the root in front or not at all.
pub open spec fn resolved(at: Seq<Seq<u8>>) -> bool {
    forall|i: int|
        0 <= i < at.len() ==> (i == 0 && #[trigger] at[i] == root_name()) || proper(at[i])
}

/// A name as it stands in a directory.
pub open spec fn proper(name: Seq<u8>) -> bool {
    &&& name.len() > 0
    &&& !is_dot(name)
    &&& !is_dot_dot(name)
    &&& !name.contains(SLASH)
}

proof fn lemma_walk_resolved(at: Seq<Seq<u8>>, name: Seq<u8>, rest: Seq<u8>)
    requires
        resolved(at),
        !name.contains(SLASH),
    ensures
        resolved(walk(at, name, rest)),
    decreases rest.len(),
{
    let next = step(at, name);
    assert(resolved(next));
    if rest.len() > 0 {
        if rest[0] == SLASH {
            lemma_walk_resolved(next, Seq::empty(), rest.skip(1));
        } else {
            assert forall|i: int| 0 <= i < name.push(rest[0]).len() implies name.push(rest[0])[i]
                != SLASH by {
                if i < name.len() {
                    assert(name.contains(name[i]));
                }
            }
            lemma_walk_resolved(at, name.push(rest[0]), rest.skip(1));
        }
    }
}

/// Resolving leaves no `.`, no `..` and no empty name behind.
pub proof fn law_normal_is_resolved(path: Seq<u8>)
    ensures
        resolved(normal(path)),
{
    assert(resolved(start(path)));
    lemma_walk_resolved(start(path), Seq::empty(), path);
}

/// A path under a root that is under another root is under the other root too.
pub proof fn law_under_is_transitive(a: Seq<u8>, b: Seq<u8>, c: Seq<u8>)
    requires
        under(a, b),
        under(b, c),
    ensures
        under(a, c),
{
    let x = normal(a);
    let y = normal(b);
    let z = normal(c);
    assert(z =~= x.subrange(0, z.len() as int)) by {
        assert forall|i: int| 0 <= i < z.len() implies z[i] == x[i] by {
            assert(y.subrange(0, z.len() as int)[i] == y[i]);
            assert(x.subrange(0, y.len() as int)[i] == x[i]);
        }
    }
}

proof fn lemma_walk_name(at: Seq<Seq<u8>>, name: Seq<u8>, more: Seq<u8>, rest: Seq<u8>)
    requires
        !more.contains(SLASH),
    ensures
        walk(at, name, more + rest) == walk(at, name + more, rest),
    decreases more.len(),
{
    if more.len() == 0 {
        assert(more + rest =~= rest);
        assert(name + more =~= name);
    } else {
        assert(more.contains(more[0]));
        assert((more + rest).skip(1) =~= more.skip(1) + rest);
        assert(name.push(more[0]) + more.skip(1) =~= name + more);
        assert forall|i: int| 0 <= i < more.skip(1).len() implies more.skip(1)[i] != SLASH by {
            assert(more.contains(more[i + 1]));
        }
        lemma_walk_name(at, name.push(more[0]), more.skip(1), rest);
    }
}

proof fn lemma_spelled_last(at: Seq<Seq<u8>>)
    requires
        resolved(at),
        at.len() > 0,
    ensures
        spelled(at).len() > 0,
        spelled(at).last() == SLASH <==> at.last() == root_name(),
        spelled(at)[0] == SLASH <==> at[0] == root_name(),
    decreases at.len(),
{
    let front = spelled(at.drop_last());
    let last = at.last();
    if at.len() > 1 {
        assert(at.drop_last().last() == at[at.len() - 2]);
        assert(at.drop_last()[0] == at[0]);
        assert(resolved(at.drop_last()));
        lemma_spelled_last(at.drop_last());
        assert(proper(at[at.len() - 1]));
        assert(last.contains(last.last()));
        assert(last != root_name()) by {
            if last == root_name() {
                assert(last[0] == SLASH);
            }
        }
    } else {
        assert(at.drop_last() =~= Seq::empty());
        assert(front + last =~= last);
        if last != root_name() {
            assert(proper(at[0]));
            assert(last.contains(last.last()));
            assert(last.contains(last[0]));
        }
    }
}

/// Reading resolved components back from their spelling, with more to come.
proof fn lemma_walk_spelled(at: Seq<Seq<u8>>, from: Seq<Seq<u8>>, rest: Seq<u8>)
    requires
        resolved(at),
        from == (if at.len() > 0 && at[0] == root_name() {
            seq![root_name()]
        } else {
            Seq::<Seq<u8>>::empty()
        }),
        rest.len() == 0 || rest[0] == SLASH,
    ensures
        walk(from, Seq::empty(), spelled(at) + rest) == (if rest.len() == 0 {
            at
        } else {
            walk(at, Seq::empty(), rest.skip(1))
        }),
    decreases at.len(),
{
    let e = Seq::<u8>::empty();
    let whole = spelled(at) + rest;
    if at.len() == 0 {
        assert(whole =~= rest);
        assert(from =~= at);
    } else {
        let front = at.drop_last();
        let last = at.last();
        assert(resolved(front));
        if at.len() == 1 {
            assert(front =~= Seq::empty());
            assert(spelled(at) =~= last);
            if last == root_name() {
                assert(from =~= at);
                assert(whole[0] == SLASH);
                assert(whole.skip(1) =~= rest);
                assert(step(at, e) == at);
                assert(walk(from, e, whole) == walk(at, e, rest));
            } else {
                assert(proper(at[0]));
                lemma_walk_name(from, e, last, rest);
                assert(e + last =~= last);
                assert(step(from, last) =~= at);
            }
        } else {
            assert(proper(at[at.len() - 1]));
            assert(front[0] == at[0]);
            lemma_spelled_last(front);
            if spelled(front).last() == SLASH {
                // The front is the root alone.
                assert(front.last() == root_name());
                if front.len() > 1 {
                    assert(proper(front[front.len() - 1]));
                    assert(front.last()[0] == SLASH);
                    assert(front.last().contains(front.last()[0]));
                }
                assert(front =~= seq![root_name()]);
                assert(spelled(front.drop_last()) =~= e);
                assert(spelled(front) =~= root_name());
                assert(whole =~= seq![SLASH] + (last + rest));
                assert(whole.skip(1) =~= last + rest);
                assert(step(from, e) == from);
                lemma_walk_name(from, e, last, rest);
                assert(e + last =~= last);
                assert(step(from, last) =~= at);
            } else {
                let tail = seq![SLASH] + (last + rest);
                assert(whole =~= spelled(front) + tail);
                lemma_walk_spelled(front, from, tail);
                assert(tail.skip(1) =~= last + rest);
                lemma_walk_name(front, e, last, rest);
                assert(e + last =~= last);
                assert(step(front, last) =~= at);
            }
        }
        assert(step(at, e) == at);
        assert(walk(from, e, whole) == walk(at, e, rest) || walk(from, e, whole) == walk(
            front,
            last,
            rest,
        ));
    }
}

/// Resolving a resolved path changes nothing: what was spelled out reads back
/// as the same components.
pub proof fn law_normalize_is_idempotent(path: Seq<u8>)
    ensures
        normal(spelled(normal(path))) == normal(path),
        spelled(normal(spelled(normal(path)))) == spelled(normal(path)),
{
    law_normal_is_resolved(path);
    let at = normal(path);
    let s = spelled(at);
    if at.len() == 0 {
        assert(s =~= Seq::empty());
    } else {
        lemma_spelled_last(at);
    }
    lemma_walk_spelled(at, start(s), Seq::empty());
    assert(s + Seq::<u8>::empty() =~= s);
}

proof fn lemma_walks_on(at: Seq<Seq<u8>>, name: Seq<u8>, rest: Seq<u8>, tail: Seq<u8>)
    ensures
        walk(at, name, rest + seq![SLASH] + tail) == walk(
            walk(at, name, rest),
            Seq::empty(),
            tail,
        ),
    decreases rest.len(),
{
    let all = rest + seq![SLASH] + tail;
    if rest.len() == 0 {
        assert(all[0] == SLASH);
        assert(all.skip(1) =~= tail);
    } else {
        assert(all[0] == rest[0]);
        assert(all.skip(1) =~= rest.skip(1) + seq![SLASH] + tail);
        if rest[0] == SLASH {
            lemma_walks_on(step(at, name), Seq::empty(), rest.skip(1), tail);
        } else {
            lemma_walks_on(at, name.push(rest[0]), rest.skip(1), tail);
        }
    }
}

proof fn lemma_one_step(at: Seq<Seq<u8>>, read: Seq<u8>, name: Seq<u8>)
    requires
        !name.contains(SLASH),
    ensures
        walk(at, read, name) == step(at, read + name),
    decreases name.len(),
{
    if name.len() == 0 {
        assert(read + name =~= read);
    } else {
        assert(name.contains(name[0]));
        let rest = name.skip(1);
        assert forall|k: int| 0 <= k < rest.len() implies rest[k] != SLASH by {
            assert(name.contains(name[k + 1]));
        }
        lemma_one_step(at, read.push(name[0]), rest);
        assert(read.push(name[0]) + rest =~= read + name);
    }
}

/// A name below a path is one component more; `.` stays where it is, and `..`
/// goes one up, but not above the root.
pub proof fn law_one_name_is_one_component(path: Seq<u8>, name: Seq<u8>)
    requires
        path.len() > 0,
        !name.contains(47u8),
    ensures
        name.len() > 0 && name != seq![46u8] && name != seq![46u8, 46u8] ==> normal(
            path + seq![47u8] + name,
        ) == normal(path).push(name),
        normal(path + seq![47u8] + seq![46u8]) == normal(path),
        normal(path + seq![47u8]) == normal(path),
        normal(path).len() > 0 && normal(path).last() != seq![47u8] ==> normal(
            path + seq![47u8] + seq![46u8, 46u8],
        ) == normal(path).drop_last(),
        normal(path) == seq![seq![47u8]] ==> normal(path + seq![47u8] + seq![46u8, 46u8])
            == normal(path),
{
    let none = Seq::<u8>::empty();
    let dot = seq![46u8];
    let up = seq![46u8, 46u8];
    assert(start(path + seq![47u8] + name) == start(path));
    lemma_walks_on(start(path), none, path, name);
    lemma_one_step(normal(path), none, name);
    assert(none + name =~= name);
    assert(start(path + seq![47u8] + dot) == start(path));
    lemma_walks_on(start(path), none, path, dot);
    lemma_one_step(normal(path), none, dot);
    assert(none + dot =~= dot);
    assert(start(path + seq![47u8] + up) == start(path));
    lemma_walks_on(start(path), none, path, up);
    lemma_one_step(normal(path), none, up);
    assert(none + up =~= up);
    assert(path + seq![47u8] + none =~= path + seq![47u8]);
    assert(start(path + seq![47u8] + none) == start(path));
    lemma_walks_on(start(path), none, path, none);
    if normal(path) == seq![seq![47u8]] {
        assert(normal(path).last() == seq![47u8]);
    }
}

/// What is below a root is under it, the root itself too; what only begins
/// with the same letters is not.
pub proof fn law_under_goes_by_components(root: Seq<u8>, name: Seq<u8>, other: Seq<u8>)
    requires
        root.len() > 0,
        !name.contains(47u8),
        name.len() > 0,
        name != seq![46u8],
        name != seq![46u8, 46u8],
        !other.contains(47u8),
        other.len() > 0,
        other != seq![46u8],
        other != seq![46u8, 46u8],
    ensures
        under(root, root),
        under(root + seq![47u8] + name, root),
        !under(root, root + seq![47u8] + name),
        under(root + seq![47u8] + name, root + seq![47u8] + other) <==> name == other,
{
    law_one_name_is_one_component(root, name);
    law_one_name_is_one_component(root, other);
    let r = normal(root);
    assert(r =~= r.subrange(0, r.len() as int));
    assert(r =~= r.push(name).subrange(0, r.len() as int));
    let a = r.push(name);
    let b = r.push(other);
    if under(root + seq![47u8] + name, root + seq![47u8] + other) {
        assert(b == a.subrange(0, b.len() as int));
        assert(b[r.len() as int] == a[r.len() as int]);
    }
    if name == other {
        assert(a =~= a.subrange(0, a.len() as int));
    }
}

/// A path is spelled with a slash between its components, and a single one at
/// its front where it begins at the root.
pub proof fn law_components_are_spelled(at: Seq<Seq<u8>>, name: Seq<u8>)
    requires
        at.len() > 0,
        spelled(at).len() > 0,
    ensures
        spelled(at).last() != 47u8 ==> spelled(at.push(name)) == spelled(at) + seq![47u8] + name,
        spelled(at).last() == 47u8 ==> spelled(at.push(name)) == spelled(at) + name,
        spelled(seq![name]) == name,
        spelled(Seq::<Seq<u8>>::empty()).len() == 0,
{
    assert(at.push(name).drop_last() =~= at);
    assert(seq![name].drop_last() =~= Seq::<Seq<u8>>::empty());
    let none = spelled(Seq::<Seq<u8>>::empty());
    assert(none + name =~= name);
    assert(spelled(seq![name]) == none + name);
    assert(spelled(at).push(47u8) =~= spelled(at) + seq![47u8]);
}

/// A path is under a root where the components of the root stand at the front
/// of its own; and it is normalised to the spelling of its components.
pub proof fn law_paths_are_compared_by_components(
    path: &[u8],
    root: &[u8],
    inside: bool,
    normalized: Vec<u8>,
)
    requires
        call_ensures(is_under, (path, root), inside),
        call_ensures(normalize_lexical, (path,), normalized),
    ensures
        inside <==> normal(root@).len() <= normal(path@).len() && forall|i: int|
            0 <= i < normal(root@).len() ==> #[trigger] normal(root@)[i] == normal(path@)[i],
        normalized@ == spelled(normal(path@)),
{
    let r = normal(root@);
    let p = normal(path@);
    if r.len() <= p.len() && forall|i: int| 0 <= i < r.len() ==> #[trigger] r[i] == p[i] {
        assert(r =~= p.subrange(0, r.len() as int));
    }
    if inside {
        assert(r == p.subrange(0, r.len() as int));
    }
}

}
