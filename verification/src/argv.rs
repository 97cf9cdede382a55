//! Arguments for child processes. Nothing that comes from outside reaches an
//! argument list before it has been checked, and nothing passes for an option.

use crate::text;
use vstd::prelude::*;

verus! {

/// Whether a text is a bounded token of letters, digits and some further
/// characters that does not look like an option.
pub open spec fn token_ok(s: Seq<char>, further: Seq<char>, max: nat) -> bool {
    0 < text::byte_len(s) <= max && !text::begins(s, '-') && text::alnum_or(s, further)
}

/// Checks a token.
pub fn is_token(s: &str, further: &str, max: usize) -> (r: bool)
    ensures
        r == token_ok(s@, further@, max as nat),
{
    let n = text::byte_length(s);
    n > 0 && n <= max && !text::starts_with_char(s, '-') && text::only_alnum_or(s, further)
}

/// The name of a systemd unit, or an identifier in the journal.
pub open spec fn unit_ok(s: Seq<char>) -> bool {
    token_ok(s, "._-@:\\"@, 256)
}

/// Checks the name of a systemd unit.
pub fn is_unit(s: &str) -> (r: bool)
    ensures
        r == unit_ok(s@),
{
    is_token(s, "._-@:\\", 256)
}

/// The name or the id of a container.
pub open spec fn container_ok(s: Seq<char>) -> bool {
    token_ok(s, "_.-"@, 256)
}

/// Checks the name or the id of a container.
pub fn is_container(s: &str) -> (r: bool)
    ensures
        r == container_ok(s@),
{
    is_token(s, "_.-", 256)
}

/// How many lines of backlog a stream may start with.
pub const MAX_BACKLOG: u32 = 10000;

/// A number of lines, held to the backlog.
pub open spec fn backlog(lines: u32) -> nat {
    if lines > MAX_BACKLOG {
        MAX_BACKLOG as nat
    } else {
        lines as nat
    }
}

/// An option with a number of lines, held to the backlog.
pub fn backlog_arg(option: &str, lines: u32) -> (r: String)
    ensures
        r@ == option@ + text::decimal(backlog(lines)),
{
    let n: u32 = if lines > MAX_BACKLOG {
        MAX_BACKLOG
    } else {
        lines
    };
    text::join2(option, text::decimal_text(n as u64).as_str())
}

/// Adds an option to an argument list where it applies.
pub open spec fn with_option(args: Seq<Seq<char>>, applies: bool, option: Seq<char>) -> Seq<
    Seq<char>,
> {
    if applies {
        args.push(option)
    } else {
        args
    }
}

/// Adds an option to an argument list where it applies.
pub fn push_option(args: &mut Vec<String>, applies: bool, option: &str)
    ensures
        text::texts(final(args)@) == with_option(text::texts(old(args)@), applies, option@),
{
    broadcast use text::lemma_texts_push;

    if applies {
        args.push(text::owned(option));
    }
}

/// Adds an option and its value to an argument list.
pub fn push_pair(args: &mut Vec<String>, option: &str, value: &str)
    ensures
        text::texts(final(args)@) == text::texts(old(args)@).push(option@).push(value@),
{
    broadcast use text::lemma_texts_push;

    args.push(text::owned(option));
    args.push(text::owned(value));
}

/// Adds an option with a trimmed value to an argument list, unless the value
/// is blank.
pub open spec fn with_value(args: Seq<Seq<char>>, option: Seq<char>, value: Seq<char>) -> Seq<
    Seq<char>,
> {
    if text::trimmed(value).len() == 0 {
        args
    } else {
        args.push(option).push(text::trimmed(value))
    }
}

/// Adds an option with a trimmed value to an argument list, unless the value
/// is blank.
pub fn push_value(args: &mut Vec<String>, option: &str, value: &str)
    ensures
        text::texts(final(args)@) == with_value(text::texts(old(args)@), option@, value@),
{
    let value = text::trim(value);
    if !value.as_str().is_empty() {
        push_pair(args, option, value.as_str());
    }
}

/// Adds an option with an optional value to an argument list.
pub open spec fn with_optional(
    args: Seq<Seq<char>>,
    option: Seq<char>,
    value: Option<Seq<char>>,
) -> Seq<Seq<char>> {
    match value {
        Some(value) => with_value(args, option, value),
        None => args,
    }
}

/// Adds an option with an optional value to an argument list.
pub fn push_optional(args: &mut Vec<String>, option: &str, value: &Option<String>)
    ensures
        text::texts(final(args)@) == with_optional(text::texts(old(args)@), option@, text::opt_text(*value)),
{
    if let Some(value) = value {
        push_value(args, option, value.as_str());
    }
}

/// Adds an option with each of some values to an argument list.
pub open spec fn with_values(
    args: Seq<Seq<char>>,
    option: Seq<char>,
    values: Seq<Seq<char>>,
) -> Seq<Seq<char>>
    decreases values.len(),
{
    if values.len() == 0 {
        args
    } else {
        with_value(with_values(args, option, values.drop_last()), option, values.last())
    }
}

/// Adds an option with each of some values to an argument list.
pub fn push_values(args: &mut Vec<String>, option: &str, values: &[String])
    ensures
        text::texts(final(args)@) == with_values(text::texts(old(args)@), option@, text::texts(values@)),
{
    let ghost first = text::texts(args@);
    let mut i: usize = 0;
    assert(with_values(first, option@, text::texts(values@).take(0)) =~= first);
    while i < values.len()
        invariant
            i <= values@.len(),
            text::texts(args@) == with_values(first, option@, text::texts(values@).take(i as int)),
        decreases values@.len() - i,
    {
        push_value(args, option, values[i].as_str());
        i += 1;
        assert(text::texts(values@).take(i as int).drop_last() =~= text::texts(values@).take(i - 1));
        assert(text::texts(values@).take(i as int).last() == values@[i - 1]@);
    }
    assert(text::texts(values@).take(i as int) =~= text::texts(values@));
}

/// Adds texts to an argument list as they are.
pub fn push_all(args: &mut Vec<String>, values: &[String])
    ensures
        text::texts(final(args)@) == text::texts(old(args)@) + text::texts(values@),
{
    let ghost first = args@;
    let mut copy = text::copy_texts(values);
    let ghost tail = copy@;
    args.append(&mut copy);
    assert(text::texts(args@) =~= text::texts(first) + text::texts(tail));
}

/// An argument list of one.
pub fn list1(a: &str) -> (r: Vec<String>)
    ensures
        text::texts(r@) == seq![a@],
{
    let mut r: Vec<String> = Vec::new();
    r.push(text::owned(a));
    assert(text::texts(r@) =~= seq![a@]);
    r
}

/// An argument list of two.
pub fn list2(a: &str, b: &str) -> (r: Vec<String>)
    ensures
        text::texts(r@) == seq![a@, b@],
{
    let mut r = list1(a);
    let ghost before = text::texts(r@);
    r.push(text::owned(b));
    assert(text::texts(r@) =~= before.push(b@));
    assert(text::texts(r@) =~= seq![a@, b@]);
    r
}

/// An argument list of three.
pub fn list3(a: &str, b: &str, c: &str) -> (r: Vec<String>)
    ensures
        text::texts(r@) == seq![a@, b@, c@],
{
    let mut r = list2(a, b);
    let ghost before = text::texts(r@);
    r.push(text::owned(c));
    assert(text::texts(r@) =~= before.push(c@));
    assert(text::texts(r@) =~= seq![a@, b@, c@]);
    r
}

/// An argument list of four.
pub fn list4(a: &str, b: &str, c: &str, d: &str) -> (r: Vec<String>)
    ensures
        text::texts(r@) == seq![a@, b@, c@, d@],
{
    let mut r = list3(a, b, c);
    let ghost before = text::texts(r@);
    r.push(text::owned(d));
    assert(text::texts(r@) =~= before.push(d@));
    assert(text::texts(r@) =~= seq![a@, b@, c@, d@]);
    r
}

/// An option is added where it applies, behind what is there.
pub proof fn law_options_are_added(args: &mut Vec<String>, applies: bool, option: &str)
    requires
        call_ensures(push_option, (args, applies, option), ()),
    ensures
        applies ==> text::texts(final(args)@) == text::texts(old(args)@).push(option@),
        !applies ==> text::texts(final(args)@) == text::texts(old(args)@),
{
}

/// A name of a unit or of a container is not empty, not too long, begins with
/// no dash, and is made of letters, digits and a few signs.
pub proof fn law_names_are_checked(s: &str, unit: bool, container: bool)
    requires
        call_ensures(is_unit, (s,), unit),
        call_ensures(is_container, (s,), container),
    ensures
        unit <==> s@.len() > 0 && text::byte_len(s@) <= 256 && s@[0] != '-' && forall|i: int|
            0 <= i < s@.len() ==> text::is_alnum(#[trigger] s@[i]) || s@[i] == '.' || s@[i] == '_'
                || s@[i] == '-' || s@[i] == '@' || s@[i] == ':' || s@[i] == '\\',
        container <==> s@.len() > 0 && text::byte_len(s@) <= 256 && s@[0] != '-' && forall|i: int|
            0 <= i < s@.len() ==> text::is_alnum(#[trigger] s@[i]) || s@[i] == '.' || s@[i] == '_'
                || s@[i] == '-',
{
    reveal_strlit("._-@:\\");
    reveal_strlit("_.-");
    let u = "._-@:\\"@;
    let c = "_.-"@;
    assert(u[0] == '.' && u[1] == '_' && u[2] == '-' && u[3] == '@' && u[4] == ':' && u[5]
        == '\\' && u.len() == 6);
    assert(c[0] == '_' && c[1] == '.' && c[2] == '-' && c.len() == 3);
    text::lemma_no_bytes(s@);
}

/// A backlog is as long as it was asked for, up to ten thousand lines.
pub proof fn law_backlogs_are_bounded(option: &str, lines: u32, r: String)
    requires
        call_ensures(backlog_arg, (option, lines), r),
    ensures
        lines <= 10000 ==> r@ == option@ + text::decimal(lines as nat),
        lines > 10000 ==> r@ == option@ + text::decimal(10000),
{
}

/// A value is added trimmed, behind its option; a blank one is not added.
pub proof fn law_values_are_added(args: &mut Vec<String>, option: &str, value: &str)
    requires
        call_ensures(push_value, (args, option, value), ()),
    ensures
        text::trimmed(value@).len() > 0 ==> text::texts(final(args)@) == text::texts(
            old(args)@,
        ).push(option@).push(text::trimmed(value@)),
        text::trimmed(value@).len() == 0 ==> text::texts(final(args)@) == text::texts(old(args)@),
{
}

/// An optional value is added like any other; without one nothing is added.
pub proof fn law_optional_values_are_added(
    args: &mut Vec<String>,
    option: &str,
    value: &Option<String>,
)
    requires
        call_ensures(push_optional, (args, option, value), ()),
    ensures
        *value is None ==> text::texts(final(args)@) == text::texts(old(args)@),
        *value matches Some(v) ==> (text::trimmed(v@).len() > 0 ==> text::texts(final(args)@)
            == text::texts(old(args)@).push(option@).push(text::trimmed(v@))),
        *value matches Some(v) ==> (text::trimmed(v@).len() == 0 ==> text::texts(final(args)@)
            == text::texts(old(args)@)),
{
}

/// What some values come to as arguments: the option before each that is not
/// blank.
pub open spec fn spelled(option: Seq<char>, values: Seq<Seq<char>>) -> Seq<Seq<char>> {
    values.map_values(|v: Seq<char>| text::trimmed(v)).filter(
        |v: Seq<char>| v.len() > 0,
    ).map_values(|v: Seq<char>| seq![option, v]).flatten()
}

proof fn lemma_spelled(args: Seq<Seq<char>>, option: Seq<char>, values: Seq<Seq<char>>)
    ensures
        with_values(args, option, values) == args + spelled(option, values),
    decreases values.len(),
{
    reveal(Seq::filter);
    let trim = |v: Seq<char>| text::trimmed(v);
    let full = |v: Seq<char>| v.len() > 0;
    let pair = |v: Seq<char>| seq![option, v];
    let all = values.map_values(trim);
    if values.len() == 0 {
        let none = all.filter(full).map_values(pair);
        assert(none =~= Seq::empty());
        assert(none.flatten() =~= Seq::<Seq<char>>::empty());
        assert(with_values(args, option, values) =~= args + spelled(option, values));
    } else {
        let front = values.drop_last();
        lemma_spelled(args, option, front);
        assert(all.drop_last() =~= front.map_values(trim));
        let last = text::trimmed(values.last());
        assert(all.last() == last);
        let kept = front.map_values(trim).filter(full);
        if last.len() > 0 {
            assert(all.filter(full) =~= kept.push(last));
            assert(kept.push(last).map_values(pair) =~= kept.map_values(pair).push(
                seq![option, last],
            ));
            kept.map_values(pair).lemma_flatten_push(seq![option, last]);
            assert(spelled(option, values) =~= spelled(option, front) + seq![option, last]);
        } else {
            assert(all.filter(full) =~= kept);
        }
        assert(with_values(args, option, values) =~= args + spelled(option, values));
    }
}

/// Every value that is not blank is added, in order, each behind the option.
pub proof fn law_all_values_are_added(args: &mut Vec<String>, option: &str, values: &[String])
    requires
        call_ensures(push_values, (args, option, values), ()),
    ensures
        text::texts(final(args)@) == text::texts(old(args)@) + text::texts(values@).map_values(
            |v: Seq<char>| text::trimmed(v),
        ).filter(|v: Seq<char>| v.len() > 0).map_values(|v: Seq<char>| seq![option@, v]).flatten(),
{
    lemma_spelled(text::texts(old(args)@), option@, text::texts(values@));
}

/// What some values add to some arguments.
pub proof fn law_values_are_spelled(
    args: Seq<Seq<char>>,
    option: Seq<char>,
    values: Seq<Seq<char>>,
)
    ensures
        with_values(args, option, values) == args + values.map_values(
            |v: Seq<char>| text::trimmed(v),
        ).filter(|v: Seq<char>| v.len() > 0).map_values(|v: Seq<char>| seq![option, v]).flatten(),
{
    lemma_spelled(args, option, values);
}

/// Texts are added as they are, all of them.
pub proof fn law_texts_are_added(args: &mut Vec<String>, values: &[String])
    requires
        call_ensures(push_all, (args, values), ()),
    ensures
        text::texts(final(args)@) == text::texts(old(args)@) + text::texts(values@),
{
}

/// What an optional value comes to as arguments: its option and itself, unless
/// it is blank.
pub open spec fn given(option: Seq<char>, value: Option<Seq<char>>) -> Seq<Seq<char>> {
    if value is Some && text::trimmed(value->0).len() > 0 {
        seq![option, text::trimmed(value->0)]
    } else {
        Seq::empty()
    }
}

/// What an optional value adds to some arguments.
pub proof fn law_given_values_are_spelled(
    args: Seq<Seq<char>>,
    option: Seq<char>,
    value: Option<Seq<char>>,
)
    ensures
        with_optional(args, option, value) == args + given(option, value),
{
    assert(with_optional(args, option, value) =~= args + given(option, value));
}

}
