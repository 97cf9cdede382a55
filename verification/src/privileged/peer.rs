//! Which user the approval gate talks to.

use crate::text;
use vstd::prelude::*;

verus! {

/// The user id that a line of the password file gives the service user.
pub open spec fn line_uid(line: Seq<char>) -> Option<nat> {
    let fields = text::split(line, ':');
    if fields[0] == "shellfleet"@ && fields.len() > 2 {
        text::read_unsigned(fields[2], u32::MAX as nat)
    } else {
        None
    }
}

/// The first user id that a list of lines gives the service user.
pub open spec fn first_uid(rows: Seq<Seq<char>>) -> Option<nat>
    decreases rows.len(),
{
    if rows.len() == 0 {
        None
    } else {
        match line_uid(rows[0]) {
            Some(uid) => Some(uid),
            None => first_uid(rows.skip(1)),
        }
    }
}

/// The user id of the agent: what was configured, else what the password file
/// says.
pub open spec fn agent_uid(
    configured: Option<Seq<char>>,
    passwd: Result<Seq<char>, Seq<char>>,
) -> Result<nat, Seq<char>> {
    match configured {
        Some(raw) => match text::read_unsigned(raw, u32::MAX as nat) {
            Some(uid) => Ok(uid),
            None => Err("invalid SHELLFLEET_AGENT_UID"@),
        },
        None => match passwd {
            Err(e) => Err(e),
            Ok(rows) => match first_uid(text::lines(rows)) {
                Some(uid) => Ok(uid),
                None => Err("shellfleet service user does not exist"@),
            },
        },
    }
}

pub open spec fn uid_outcome(r: Result<u32, String>) -> Result<nat, Seq<char>> {
    match r {
        Ok(uid) => Ok(uid as nat),
        Err(e) => Err(e@),
    }
}

fn uid_of_line(line: &str) -> (r: Option<u32>)
    ensures
        line_uid(line@) == (match r {
            Some(n) => Some(n as nat),
            None => None,
        }),
{
    let fields = text::split_text(line, ':');
    proof {
        text::lemma_split_some(line@, ':');
        assert(text::texts(fields@)[0] == fields@[0]@);
    }
    if text::same(fields[0].as_str(), "shellfleet") && fields.len() > 2 {
        assert(text::texts(fields@)[2] == fields@[2]@);
        text::parse_u32(fields[2].as_str())
    } else {
        None
    }
}

/// The user id that the agent runs under, from the configured value and from
/// what reading the password file gave.
pub fn configured_agent_uid(configured: Option<&str>, passwd: &Result<String, String>) -> (r: Result<
    u32,
    String,
>)
    ensures
        uid_outcome(r) == agent_uid(
            match configured {
                Some(raw) => Some(raw@),
                None => None,
            },
            text::text_outcome(*passwd),
        ),
{
    match configured {
        Some(raw) => match text::parse_u32(raw) {
            Some(uid) => Ok(uid),
            None => Err(text::owned("invalid SHELLFLEET_AGENT_UID")),
        },
        None => match passwd {
            Err(e) => Err(text::owned(e.as_str())),
            Ok(listing) => {
                let rows = text::split_lines(listing.as_str());
                let mut i: usize = 0;
                assert(text::texts(rows@).skip(0) =~= text::texts(rows@));
                while i < rows.len()
                    invariant
                        i <= rows@.len(),
                        configured is None,
                        *passwd == Ok::<String, String>(*listing),
                        text::texts(rows@) == text::lines(listing@),
                        first_uid(text::lines(listing@)) == first_uid(text::texts(rows@).skip(i as int)),
                    decreases rows@.len() - i,
                {
                    assert(text::texts(rows@).skip(i as int)[0] == rows@[i as int]@);
                    if let Some(uid) = uid_of_line(rows[i].as_str()) {
                        return Ok(uid);
                    }
                    assert(text::texts(rows@).skip(i as int).skip(1) =~= text::texts(rows@).skip(i + 1));
                    i += 1;
                }
                Err(text::owned("shellfleet service user does not exist"))
            },
        },
    }
}

/// Admits a peer that runs as the agent's user, and no other.
pub fn accept_peer(uid: u32, expected: u32) -> (r: Result<(), String>)
    ensures
        text::outcome(r) == (if uid == expected {
            Ok(())
        } else {
            Err(
                "approval-gate peer uid "@ + text::decimal(uid as nat) + " is not agent uid "@ + text::decimal(
                    expected as nat,
                ),
            )
        }),
{
    if uid == expected {
        Ok(())
    } else {
        let a = text::join2("approval-gate peer uid ", text::decimal_text(uid as u64).as_str());
        let b = text::join3(a.as_str(), " is not agent uid ", text::decimal_text(expected as u64).as_str());
        Err(b)
    }
}

// ---------- laws ----------

/// Only the agent's own user is admitted.
pub proof fn law_only_the_agent_is_admitted(uid: u32, expected: u32, r: Result<(), String>)
    requires
        call_ensures(accept_peer, (uid, expected), r),
    ensures
        r is Ok <==> uid == expected,
        r matches Err(e) ==> e@ == "approval-gate peer uid "@ + text::decimal(uid as nat)
            + " is not agent uid "@ + text::decimal(expected as nat),
{
}

/// A line of the password file gives the service user its id in the third
/// field, and gives no other user's.
pub proof fn law_lines_give_the_id(
    name: Seq<char>,
    secret: Seq<char>,
    uid: u32,
    rest: Seq<char>,
)
    requires
        !name.contains(':'),
        !secret.contains(':'),
    ensures
        ({
            let line = name + seq![':'] + (secret + seq![':'] + (text::decimal(uid as nat) + seq![
                ':',
            ] + rest));
            &&& name == "shellfleet"@ ==> line_uid(line) == Some(uid as nat)
            &&& name != "shellfleet"@ ==> line_uid(line) is None
        }),
{
    let number = text::decimal(uid as nat);
    text::law_decimal_reads_back(uid as nat, u32::MAX as nat);
    assert(!number.contains(':')) by {
        if number.contains(':') {
            let k = choose|k: int| 0 <= k < number.len() && number[k] == ':';
            assert(text::is_digit(number[k]));
        }
    }
    let c = number + seq![':'] + rest;
    let b = secret + seq![':'] + c;
    let line = name + seq![':'] + b;
    text::lemma_split_between(name, b, ':');
    text::lemma_split_between(secret, c, ':');
    text::lemma_split_between(number, rest, ':');
    text::law_text_without_separator_is_one_piece(name, ':');
    text::law_text_without_separator_is_one_piece(secret, ':');
    text::law_text_without_separator_is_one_piece(number, ':');
    let fields = text::split(line, ':');
    assert(fields =~= seq![name] + (seq![secret] + (seq![number] + text::split(rest, ':'))));
    assert(fields[0] == name && fields[2] == number && fields.len() > 2);
}

/// The id is the configured one where there is one; else it is that of the
/// first line that gives one, and without such a line there is none.
pub proof fn law_the_agent_id_is_found(
    configured: Option<&str>,
    passwd: &Result<String, String>,
    r: Result<u32, String>,
    n: u32,
    k: int,
)
    requires
        call_ensures(configured_agent_uid, (configured, passwd), r),
    ensures
        configured is Some && configured->0@ == text::decimal(n as nat) ==> r is Ok && r->Ok_0 == n,
        configured is Some && text::read_unsigned(configured->0@, u32::MAX as nat) is None ==> r
            is Err && r->Err_0@ == "invalid SHELLFLEET_AGENT_UID"@,
        configured is None ==> (*passwd matches Err(e) ==> r is Err && r->Err_0@ == e@),
        configured is None ==> (*passwd matches Ok(listing) ==> ({
            let rows = text::lines(listing@);
            &&& 0 <= k < rows.len() && line_uid(rows[k]) == Some(n as nat) && (forall|i: int|
                0 <= i < k ==> line_uid(#[trigger] rows[i]) is None) ==> r is Ok && r->Ok_0 == n
            &&& (forall|i: int| 0 <= i < rows.len() ==> line_uid(#[trigger] rows[i]) is None)
                ==> r is Err && r->Err_0@ == "shellfleet service user does not exist"@
        })),
{
    text::law_decimal_reads_back(n as nat, u32::MAX as nat);
    if configured is None {
        if let Ok(listing) = *passwd {
            let rows = text::lines(listing@);
            if 0 <= k < rows.len() && (forall|i: int|
                0 <= i < k ==> line_uid(#[trigger] rows[i]) is None) {
                lemma_first_uid(rows, k);
            }
            if forall|i: int| 0 <= i < rows.len() ==> line_uid(#[trigger] rows[i]) is None {
                lemma_first_uid(rows, rows.len() as int);
            }
        }
    }
}

proof fn lemma_first_uid(rows: Seq<Seq<char>>, k: int)
    requires
        0 <= k <= rows.len(),
        forall|i: int| 0 <= i < k ==> line_uid(#[trigger] rows[i]) is None,
    ensures
        k < rows.len() && line_uid(rows[k]) is Some ==> first_uid(rows) == line_uid(rows[k]),
        k == rows.len() ==> first_uid(rows) is None,
    decreases rows.len(),
{
    if k > 0 {
        let rest = rows.skip(1);
        assert(line_uid(rows[0]) is None);
        assert forall|i: int| 0 <= i < k - 1 implies line_uid(#[trigger] rest[i]) is None by {
            assert(line_uid(rows[i + 1]) is None);
        }
        lemma_first_uid(rest, k - 1);
    }
}

}
