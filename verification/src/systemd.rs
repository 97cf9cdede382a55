//! Services: reading the list of units, and controlling one.

use crate::argv;
use crate::output::CommandOutput;
use crate::text;
use vstd::prelude::*;

verus! {

/// A service as it is reported.
#[derive(Debug)]
pub struct ServiceInfo {
    pub name: String,
    pub description: String,
    pub status: String,
    pub active_state: String,
}

/// A service with its texts spelled out.
#[verifier::ext_equal]
pub struct ServiceView {
    pub name: Seq<char>,
    pub description: Seq<char>,
    pub status: Seq<char>,
    pub active_state: Seq<char>,
}

impl View for ServiceInfo {
    type V = ServiceView;

    open spec fn view(&self) -> ServiceView {
        ServiceView {
            name: self.name@,
            description: self.description@,
            status: self.status@,
            active_state: self.active_state@,
        }
    }
}

pub open spec fn services(v: Seq<ServiceInfo>) -> Seq<ServiceView> {
    v.map_values(|s: ServiceInfo| s@)
}

pub open spec fn services_outcome(r: Result<Vec<ServiceInfo>, String>) -> Result<
    Seq<ServiceView>,
    Seq<char>,
> {
    match r {
        Ok(v) => Ok(services(v@)),
        Err(e) => Err(e@),
    }
}

/// A row of `systemctl --output=json`, as far as its fields are there.
#[derive(Debug)]
pub struct UnitRow {
    pub unit: Option<String>,
    pub active: Option<String>,
    pub sub: Option<String>,
    pub description: Option<String>,
}

pub open spec fn or_empty(o: Option<String>) -> Seq<char> {
    match o {
        Some(s) => s@,
        None => Seq::empty(),
    }
}

fn text_or_empty(o: &Option<String>) -> (r: String)
    ensures
        r@ == or_empty(*o),
{
    match o {
        Some(s) => text::owned(s.as_str()),
        None => {
            let r = String::new();
            assert(r@ =~= Seq::empty());
            r
        },
    }
}

/// The services in some rows: those with a unit.
pub open spec fn row_services(rows: Seq<UnitRow>) -> Seq<ServiceView>
    decreases rows.len(),
{
    if rows.len() == 0 {
        Seq::empty()
    } else {
        let front = row_services(rows.drop_last());
        let row = rows.last();
        match row.unit {
            Some(unit) => front.push(
                ServiceView {
                    name: unit@,
                    description: or_empty(row.description),
                    status: or_empty(row.sub),
                    active_state: or_empty(row.active),
                },
            ),
            None => front,
        }
    }
}

/// The services in some rows.
pub fn services_of_rows(rows: &[UnitRow]) -> (r: Vec<ServiceInfo>)
    ensures
        services(r@) == row_services(rows@),
{
    let mut r: Vec<ServiceInfo> = Vec::new();
    let mut i: usize = 0;
    assert(services(r@) =~= row_services(rows@.take(0)));
    while i < rows.len()
        invariant
            i <= rows@.len(),
            services(r@) == row_services(rows@.take(i as int)),
        decreases rows@.len() - i,
    {
        assert(rows@.take(i + 1).drop_last() =~= rows@.take(i as int));
        let ghost before = r@;
        if let Some(unit) = &rows[i].unit {
            let s = ServiceInfo {
                name: text::owned(unit.as_str()),
                description: text_or_empty(&rows[i].description),
                status: text_or_empty(&rows[i].sub),
                active_state: text_or_empty(&rows[i].active),
            };
            r.push(s);
            assert(services(r@) =~= services(before).push(s@));
        }
        i += 1;
    }
    assert(rows@.take(i as int) =~= rows@);
    r
}

/// A line without the bullet that marks a unit in trouble.
pub open spec fn unbulleted(line: Seq<char>) -> Seq<char> {
    text::trim_front(text::strip_front(text::trim_front(line), '●'))
}

/// The service on a line of the plain list, if there is one. Its columns are
/// the unit, how it is loaded, its two states and its description.
pub open spec fn line_service(raw: Seq<char>) -> Option<ServiceView> {
    let fields = text::columns(unbulleted(raw), 5);
    if fields.len() == 0 || !fields[0].contains('.') {
        None
    } else {
        Some(
            ServiceView {
                name: fields[0],
                active_state: text::nth(fields, 2),
                status: text::nth(fields, 3),
                description: text::nth(fields, 4),
            },
        )
    }
}

/// The services on the lines of the plain list.
pub open spec fn line_services(rows: Seq<Seq<char>>) -> Seq<ServiceView>
    decreases rows.len(),
{
    if rows.len() == 0 {
        Seq::empty()
    } else {
        match line_service(rows.last()) {
            Some(s) => line_services(rows.drop_last()).push(s),
            None => line_services(rows.drop_last()),
        }
    }
}

fn read_line(raw: &str) -> (r: Option<ServiceInfo>)
    ensures
        line_service(raw@) == (match r {
            Some(s) => Some(s@),
            None => None,
        }),
{
    let line = text::trim_start(text::trim_start_char(text::trim_start(raw).as_str(), '●').as_str());
    let fields = text::split_columns(line.as_str(), 5);
    assert(text::texts(fields@).len() == fields@.len());
    if fields.len() == 0 {
        return None;
    }
    assert(text::texts(fields@)[0] == fields@[0]@);
    if !text::contains_char(fields[0].as_str(), '.') {
        return None;
    }
    Some(
        ServiceInfo {
            name: text::owned(fields[0].as_str()),
            active_state: text::field(fields.as_slice(), 2),
            status: text::field(fields.as_slice(), 3),
            description: text::field(fields.as_slice(), 4),
        },
    )
}

/// Reads the plain list of services.
pub fn read_plain(stdout: &str) -> (r: Vec<ServiceInfo>)
    ensures
        services(r@) == line_services(text::lines(stdout@)),
{
    let rows = text::split_lines(stdout);
    let mut r: Vec<ServiceInfo> = Vec::new();
    let mut i: usize = 0;
    assert(services(r@) =~= line_services(text::texts(rows@).take(0)));
    while i < rows.len()
        invariant
            i <= rows@.len(),
            services(r@) == line_services(text::texts(rows@).take(i as int)),
        decreases rows@.len() - i,
    {
        assert(text::texts(rows@).take(i + 1).drop_last() =~= text::texts(rows@).take(i as int));
        assert(text::texts(rows@).take(i + 1).last() == rows@[i as int]@);
        let ghost before = r@;
        if let Some(s) = read_line(rows[i].as_str()) {
            r.push(s);
            assert(services(r@) =~= services(before).push(s@));
        }
        i += 1;
    }
    assert(text::texts(rows@).take(i as int) =~= text::texts(rows@));
    r
}

/// The services in what `systemctl` gave: its JSON where that could be had and
/// read, else the plain list.
pub fn list_services(json_success: bool, rows: &Option<Vec<UnitRow>>, plain: &CommandOutput) -> (r:
    Result<Vec<ServiceInfo>, String>)
    ensures
        services_outcome(r) == (if json_success && rows is Some {
            Ok(row_services(rows->0@))
        } else if plain@.success {
            Ok(line_services(text::lines(plain@.stdout)))
        } else {
            Err(plain@.stderr)
        }),
{
    if json_success {
        if let Some(rows) = rows {
            return Ok(services_of_rows(rows.as_slice()));
        }
    }
    if plain.success {
        Ok(read_plain(plain.stdout.as_str()))
    } else {
        Err(text::owned(plain.stderr.as_str()))
    }
}

/// Whether an action on a service exists.
pub open spec fn action_ok(action: Seq<char>) -> bool {
    action == "start"@ || action == "stop"@ || action == "restart"@ || action == "reload"@
}

/// The arguments for `systemctl`, or why a request is refused.
pub open spec fn control_planned(name: Seq<char>, action: Seq<char>) -> Result<
    Seq<Seq<char>>,
    Seq<char>,
> {
    if !action_ok(action) {
        Err("invalid action: "@ + action)
    } else if !argv::unit_ok(name) {
        Err("invalid unit name: "@ + name)
    } else {
        Ok(seq![action, name])
    }
}

/// Plans an action on a service.
pub fn plan_control(name: &str, action: &str) -> (r: Result<Vec<String>, String>)
    ensures
        text::list_outcome(r) == control_planned(name@, action@),
{
    if !text::same(action, "start") && !text::same(action, "stop") && !text::same(action, "restart") && !text::same(
        action,
        "reload",
    ) {
        return Err(text::join2("invalid action: ", action));
    }
    if !argv::is_unit(name) {
        return Err(text::join2("invalid unit name: ", name));
    }
    let mut argv: Vec<String> = Vec::new();
    argv.push(text::owned(action));
    argv.push(text::owned(name));
    assert(text::texts(argv@) =~= seq![action@, name@]);
    Ok(argv)
}

/// What an action on a service came to.
pub fn finish_control(out: &CommandOutput) -> (r: Result<(), String>)
    ensures
        text::outcome(r) == (if out@.success {
            Ok(())
        } else {
            Err(text::trimmed(out@.stderr))
        }),
{
    if out.success {
        Ok(())
    } else {
        Err(text::trim(out.stderr.as_str()))
    }
}

/// No action reaches `systemctl` but the four, on a name that cannot be taken
/// for an option.
pub proof fn law_control_takes_no_options(name: Seq<char>, action: Seq<char>)
    requires
        control_planned(name, action) is Ok,
    ensures
        control_planned(name, action)->Ok_0 == seq![action, name],
        !text::begins(name, '-'),
        !text::begins(action, '-'),
{
    reveal_strlit("start");
    reveal_strlit("stop");
    reveal_strlit("restart");
    reveal_strlit("reload");
}

/// What a row says of its service.
pub open spec fn row_told(row: UnitRow) -> ServiceView {
    ServiceView {
        name: row.unit->0@,
        description: or_empty(row.description),
        status: or_empty(row.sub),
        active_state: or_empty(row.active),
    }
}

proof fn lemma_row_services(rows: Seq<UnitRow>)
    ensures
        row_services(rows) == rows.filter(|row: UnitRow| row.unit is Some).map_values(
            |row: UnitRow| row_told(row),
        ),
    decreases rows.len(),
{
    reveal(Seq::filter);
    let named = |row: UnitRow| row.unit is Some;
    let told = |row: UnitRow| row_told(row);
    if rows.len() > 0 {
        lemma_row_services(rows.drop_last());
        let front = rows.drop_last().filter(named);
        if rows.last().unit is Some {
            assert(rows.filter(named) =~= front.push(rows.last()));
        }
    }
    assert(row_services(rows) =~= rows.filter(named).map_values(told));
}

/// Every row with a unit is a service, in the order of the rows, with its own
/// unit, description and states; a field that is missing is empty.
pub proof fn law_rows_are_services(rows: &[UnitRow], r: Vec<ServiceInfo>)
    requires
        call_ensures(services_of_rows, (rows,), r),
    ensures
        r@.len() == rows@.filter(|row: UnitRow| row.unit is Some).len(),
        forall|i: int|
            0 <= i < r@.len() ==> {
                let row = rows@.filter(|row: UnitRow| row.unit is Some)[i];
                &&& row.unit is Some && (#[trigger] r@[i]).name@ == row.unit->0@
                &&& (row.description matches Some(d) ==> r@[i].description@ == d@)
                &&& row.description is None ==> r@[i].description@.len() == 0
                &&& (row.sub matches Some(s) ==> r@[i].status@ == s@)
                &&& row.sub is None ==> r@[i].status@.len() == 0
                &&& (row.active matches Some(a) ==> r@[i].active_state@ == a@)
                &&& row.active is None ==> r@[i].active_state@.len() == 0
            },
{
    broadcast use vstd::seq_lib::group_filter_ensures;

    lemma_row_services(rows@);
    let named = |row: UnitRow| row.unit is Some;
    let kept = rows@.filter(named);
    assert(services(r@).len() == r@.len());
    assert forall|i: int| 0 <= i < r@.len() implies {
        let row = kept[i];
        &&& row.unit is Some && (#[trigger] r@[i]).name@ == row.unit->0@
        &&& (row.description matches Some(d) ==> r@[i].description@ == d@)
        &&& row.description is None ==> r@[i].description@.len() == 0
        &&& (row.sub matches Some(s) ==> r@[i].status@ == s@)
        &&& row.sub is None ==> r@[i].status@.len() == 0
        &&& (row.active matches Some(a) ==> r@[i].active_state@ == a@)
        &&& row.active is None ==> r@[i].active_state@.len() == 0
    } by {
        assert(named(kept[i]));
        assert(services(r@)[i] == r@[i]@);
        assert(services(r@)[i] == row_told(kept[i]));
    }
}

/// A line of the plain list gives its first column as the name, its third and
/// fourth as the states, and the rest as the description; the bullet does not
/// count, and a line whose first column has no dot is no service.
pub proof fn law_plain_lines_are_services(
    name: Seq<char>,
    load: Seq<char>,
    active: Seq<char>,
    sub: Seq<char>,
    description: Seq<char>,
)
    requires
        name.len() > 0,
        load.len() > 0,
        active.len() > 0,
        sub.len() > 0,
        name[0] != '●',
        forall|i: int| 0 <= i < name.len() ==> !text::is_space(#[trigger] name[i]),
        forall|i: int| 0 <= i < load.len() ==> !text::is_space(#[trigger] load[i]),
        forall|i: int| 0 <= i < active.len() ==> !text::is_space(#[trigger] active[i]),
        forall|i: int| 0 <= i < sub.len() ==> !text::is_space(#[trigger] sub[i]),
        text::trimmed(description).len() > 0,
    ensures
        ({
            let line = name + seq![' '] + (load + seq![' '] + (active + seq![' '] + (sub + seq![' ']
                + description)));
            &&& name.contains('.') ==> line_service(line) == Some(
                ServiceView {
                    name,
                    description: text::trimmed(description),
                    status: sub,
                    active_state: active,
                },
            )
            &&& !name.contains('.') ==> line_service(line) is None
            &&& line_service(seq!['●', ' '] + line) == line_service(line)
            &&& line_service(seq![' ', ' '] + line) == line_service(line)
        }),
{
    let l4 = sub + seq![' '] + description;
    let l3 = active + seq![' '] + l4;
    let l2 = load + seq![' '] + l3;
    let line = name + seq![' '] + l2;
    text::law_columns(name, ' ', l2, 5);
    text::law_columns(load, ' ', l3, 4);
    text::law_columns(active, ' ', l4, 3);
    text::law_columns(sub, ' ', description, 2);
    assert(line[0] == name[0]);
    assert(text::trim_front(line) == line);
    assert(text::strip_front(line, '●') == line);
    let fields = text::columns(line, 5);
    assert(fields =~= seq![name, load, active, sub, text::trimmed(description)]);
    let a = seq!['●', ' '] + line;
    let b = seq![' '] + line;
    let c = seq![' ', ' '] + line;
    assert(a.skip(1) =~= b);
    assert(b.skip(1) =~= line);
    assert(c.skip(1) =~= b);
    assert(text::trim_front(b) == line) by {
        assert(text::trim_front(b) == text::trim_front(b.skip(1)));
    }
    assert(text::trim_front(c) == text::trim_front(b)) by {
        assert(text::trim_front(c) == text::trim_front(c.skip(1)));
    }
    assert(text::trim_front(a) == a);
    assert(text::strip_front(b, '●') == b);
    assert(text::strip_front(a, '●') == text::strip_front(a.skip(1), '●'));
    assert(unbulleted(a) == line && unbulleted(c) == line && unbulleted(line) == line);
}

/// Every line of the plain list that names a service is one of the services, in
/// the order of the lines.
pub proof fn law_plain_lists_are_read_whole(rows: Seq<Seq<char>>)
    ensures
        line_services(rows) == rows.map_values(|row: Seq<char>| line_service(row)).filter(
            |s: Option<ServiceView>| s is Some,
        ).map_values(|s: Option<ServiceView>| s->0),
    decreases rows.len(),
{
    reveal(Seq::filter);
    let read = |row: Seq<char>| line_service(row);
    let some = |s: Option<ServiceView>| s is Some;
    let all = rows.map_values(read);
    if rows.len() > 0 {
        let front = rows.drop_last();
        law_plain_lists_are_read_whole(front);
        assert(all.drop_last() =~= front.map_values(read));
        assert(all.last() == line_service(rows.last()));
        if all.last() is Some {
            assert(all.filter(some) =~= front.map_values(read).filter(some).push(all.last()));
        }
    }
    assert(line_services(rows) =~= all.filter(some).map_values(
        |s: Option<ServiceView>| s->0,
    ));
}

/// The list is that of the rows where they could be read, else that of the
/// lines, else there is the error of `systemctl`.
pub proof fn law_lists_fall_back(
    json_success: bool,
    rows: &Option<Vec<UnitRow>>,
    plain: &CommandOutput,
    r: Result<Vec<ServiceInfo>, String>,
)
    requires
        call_ensures(list_services, (json_success, rows, plain), r),
    ensures
        json_success && *rows is Some ==> r is Ok && services(r->Ok_0@) == row_services(
            (*rows)->0@,
        ),
        !(json_success && *rows is Some) && plain.success ==> r is Ok && services(r->Ok_0@)
            == line_services(text::lines(plain.stdout@)),
        !(json_success && *rows is Some) && !plain.success ==> r is Err && r->Err_0@
            == plain.stderr@,
{
    assert(plain@.success == plain.success && plain@.stdout == plain.stdout@ && plain@.stderr
        == plain.stderr@);
}

/// A service is started, stopped, restarted or reloaded as asked, and nothing
/// else is done.
pub proof fn law_services_get_what_was_asked(
    name: &str,
    action: &str,
    r: Result<Vec<String>, String>,
)
    requires
        call_ensures(plan_control, (name, action), r),
    ensures
        r is Ok <==> (action@ == "start"@ || action@ == "stop"@ || action@ == "restart"@ || action@
            == "reload"@) && argv::unit_ok(name@),
        r matches Ok(args) ==> text::texts(args@) == seq![action@, name@],
{
}

/// The outcome of an action is that of `systemctl`.
pub proof fn law_control_reports_the_outcome(out: &CommandOutput, r: Result<(), String>)
    requires
        call_ensures(finish_control, (out,), r),
    ensures
        r is Ok <==> out.success,
        r matches Err(e) ==> e@ == text::trimmed(out.stderr@),
{
    assert(out@.success == out.success && out@.stderr == out.stderr@);
}

/// A refused request names the action, or else the unit, that is wrong.
pub proof fn law_refused_requests_say_why(name: &str, action: &str, r: Result<Vec<String>, String>)
    requires
        call_ensures(plan_control, (name, action), r),
    ensures
        r matches Err(e) ==> e@ == (if action@ == "start"@ || action@ == "stop"@ || action@
            == "restart"@ || action@ == "reload"@ {
            "invalid unit name: "@ + name@
        } else {
            "invalid action: "@ + action@
        }),
{
}

}
