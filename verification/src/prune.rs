//! Pruning: what Docker would remove, and what it says it has removed.

use crate::docker;
use crate::output;
use crate::output::CommandOutput;
use crate::text;
use vstd::prelude::*;

verus! {

/// What a prune removed, or would remove.
#[derive(Debug)]
pub struct PruneOutcome {
    pub success: bool,
    pub reclaimed_bytes: u64,
    pub containers_removed: Vec<String>,
    pub images_removed: Vec<String>,
    pub networks_removed: Vec<String>,
    pub volumes_removed: Vec<String>,
    pub log: String,
    pub error: Option<String>,
}

/// An outcome with its texts spelled out.
#[verifier::ext_equal]
pub struct OutcomeView {
    pub success: bool,
    pub reclaimed_bytes: u64,
    pub containers_removed: Seq<Seq<char>>,
    pub images_removed: Seq<Seq<char>>,
    pub networks_removed: Seq<Seq<char>>,
    pub volumes_removed: Seq<Seq<char>>,
    pub log: Seq<char>,
    pub error: Option<Seq<char>>,
}

impl View for PruneOutcome {
    type V = OutcomeView;

    open spec fn view(&self) -> OutcomeView {
        OutcomeView {
            success: self.success,
            reclaimed_bytes: self.reclaimed_bytes,
            containers_removed: text::texts(self.containers_removed@),
            images_removed: text::texts(self.images_removed@),
            networks_removed: text::texts(self.networks_removed@),
            volumes_removed: text::texts(self.volumes_removed@),
            log: self.log@,
            error: text::opt_text(self.error),
        }
    }
}

/// The outcome of nothing.
pub open spec fn nothing() -> OutcomeView {
    OutcomeView {
        success: false,
        reclaimed_bytes: 0,
        containers_removed: Seq::empty(),
        images_removed: Seq::empty(),
        networks_removed: Seq::empty(),
        volumes_removed: Seq::empty(),
        log: Seq::empty(),
        error: None,
    }
}

impl PruneOutcome {
    /// The outcome of nothing.
    pub fn none() -> (r: Self)
        ensures
            r@ == nothing(),
    {
        let r = PruneOutcome {
            success: false,
            reclaimed_bytes: 0,
            containers_removed: Vec::new(),
            images_removed: Vec::new(),
            networks_removed: Vec::new(),
            volumes_removed: Vec::new(),
            log: String::new(),
            error: None,
        };
        assert(r@ =~= nothing());
        r
    }

    /// The outcome of a prune that could not run.
    pub fn failed(error: &str) -> (r: Self)
        ensures
            r@ == (OutcomeView { error: Some(error@), ..nothing() }),
    {
        let mut r = PruneOutcome::none();
        r.error = Some(text::owned(error));
        r
    }
}

// ---------- the preview ----------

/// An image, with the number of containers that use it and its size.
#[derive(Debug)]
pub struct DfImage {
    pub id: String,
    pub containers: String,
    pub bytes: u64,
}

/// A container, with its state and its size.
#[derive(Debug)]
pub struct DfContainer {
    pub id: String,
    pub state: String,
    pub bytes: u64,
}

/// A volume, with the number of its links and its size.
#[derive(Debug)]
pub struct DfVolume {
    pub name: String,
    pub links: String,
    pub bytes: u64,
}

/// Whether a count is none, or no number at all.
pub open spec fn unused(count: Seq<char>) -> bool {
    match text::read_signed(count) {
        Some(n) => n == 0,
        None => true,
    }
}

fn is_unused(count: &str) -> (r: bool)
    ensures
        r == unused(count@),
{
    match text::parse_i64(count) {
        Some(n) => n == 0,
        None => true,
    }
}

/// Whether a container does not run.
pub open spec fn stopped(state: Seq<char>) -> bool {
    state == "exited"@ || state == "created"@ || state == "dead"@
}

/// Names and bytes.
pub struct Found {
    pub names: Seq<Seq<char>>,
    pub bytes: nat,
}

/// The name and the bytes that each of some things frees, of those that go,
/// together.
pub open spec fn found<T>(v: Seq<T>, pick: spec_fn(T) -> Option<(Seq<char>, u64)>) -> Found
    decreases v.len(),
{
    if v.len() == 0 {
        Found { names: Seq::empty(), bytes: 0 }
    } else {
        let front = found(v.drop_last(), pick);
        match pick(v.last()) {
            Some(x) => Found { names: front.names.push(x.0), bytes: front.bytes + x.1 as nat },
            None => front,
        }
    }
}

/// What an image frees, where nothing uses it.
pub open spec fn image_frees(x: DfImage) -> Option<(Seq<char>, u64)> {
    if unused(x.containers@) {
        Some((x.id@, x.bytes))
    } else {
        None
    }
}

/// What a container frees, where it does not run.
pub open spec fn container_frees(x: DfContainer) -> Option<(Seq<char>, u64)> {
    if stopped(x.state@) {
        Some((x.id@, x.bytes))
    } else {
        None
    }
}

/// What a volume frees, where nothing links to it.
pub open spec fn volume_frees(x: DfVolume) -> Option<(Seq<char>, u64)> {
    if unused(x.links@) {
        Some((x.name@, x.bytes))
    } else {
        None
    }
}

/// The images that nothing uses.
pub open spec fn loose_images(v: Seq<DfImage>) -> Found {
    found(v, |x: DfImage| image_frees(x))
}

/// The containers that do not run.
pub open spec fn stopped_containers(v: Seq<DfContainer>) -> Found {
    found(v, |x: DfContainer| container_frees(x))
}

/// The volumes that nothing links to.
pub open spec fn loose_volumes(v: Seq<DfVolume>) -> Found {
    found(v, |x: DfVolume| volume_frees(x))
}

/// The volumes that a prune would remove: none unless they are asked for.
pub open spec fn asked_volumes(v: Seq<DfVolume>, asked: bool) -> Found {
    if asked {
        loose_volumes(v)
    } else {
        Found { names: Seq::empty(), bytes: 0 }
    }
}

/// The line that sums a preview up.
pub open spec fn preview_line(containers: nat, images: nat, volumes: nat, bytes: nat) -> Seq<char> {
    "preview: "@ + text::decimal(containers) + " container(s), "@ + text::decimal(images) + " image(s), "@
        + text::decimal(volumes) + " volume(s) — ~"@ + text::decimal(bytes) + " bytes\n"@
}

/// What a prune would remove. Nothing where the sizes add up to more than a
/// number holds.
pub open spec fn previewed(
    images: Seq<DfImage>,
    containers: Seq<DfContainer>,
    volumes: Seq<DfVolume>,
    prune_volumes: bool,
) -> Option<OutcomeView> {
    let i = loose_images(images);
    let c = stopped_containers(containers);
    let v = asked_volumes(volumes, prune_volumes);
    let bytes = i.bytes + c.bytes + v.bytes;
    if bytes > u64::MAX {
        None
    } else {
        Some(
            OutcomeView {
                success: true,
                reclaimed_bytes: bytes as u64,
                containers_removed: c.names,
                images_removed: i.names,
                networks_removed: Seq::empty(),
                volumes_removed: v.names,
                log: preview_line(c.names.len(), i.names.len(), v.names.len(), bytes),
                error: None,
            },
        )
    }
}

proof fn lemma_found_grows<T>(v: Seq<T>, pick: spec_fn(T) -> Option<(Seq<char>, u64)>, n: int)
    requires
        0 <= n <= v.len(),
    ensures
        found(v.take(n), pick).bytes <= found(v, pick).bytes,
    decreases v.len() - n,
{
    if n == v.len() {
        assert(v.take(n) =~= v);
    } else {
        assert(v.take(n + 1).drop_last() =~= v.take(n));
        lemma_found_grows(v, pick, n + 1);
    }
}

pub open spec fn freed(o: Option<(&str, u64)>) -> Option<(Seq<char>, u64)> {
    match o {
        Some(x) => Some((x.0@, x.1)),
        None => None,
    }
}

/// Finds what goes, and adds up what that frees.
fn find<T, F: for<'a> Fn(&'a T) -> Option<(&'a str, u64)>>(
    v: &[T],
    look: F,
    Ghost(pick): Ghost<spec_fn(T) -> Option<(Seq<char>, u64)>>,
) -> (r: Option<(Vec<String>, u64)>)
    requires
        forall|x: &T| call_requires(look, (x,)),
        forall|x: &T, o: Option<(&str, u64)>|
            call_ensures(look, (x,), o) ==> freed(o) == pick(*x),
    ensures
        match r {
            Some(f) => text::texts(f.0@) == found(v@, pick).names && f.1 == found(v@, pick).bytes,
            None => found(v@, pick).bytes > u64::MAX,
        },
{
    broadcast use text::lemma_texts_push;

    let mut names: Vec<String> = Vec::new();
    let mut bytes: u64 = 0;
    let mut i: usize = 0;
    assert(text::texts(names@) =~= Seq::empty());
    assert(v@.take(0) =~= Seq::empty());
    while i < v.len()
        invariant
            i <= v@.len(),
            text::texts(names@) == found(v@.take(i as int), pick).names,
            bytes == found(v@.take(i as int), pick).bytes,
            forall|x: &T| call_requires(look, (x,)),
            forall|x: &T, o: Option<(&str, u64)>|
                call_ensures(look, (x,), o) ==> freed(o) == pick(*x),
        decreases v@.len() - i,
    {
        assert(v@.take(i + 1).drop_last() =~= v@.take(i as int));
        if let Some((name, size)) = look(&v[i]) {
            names.push(text::owned(name));
            match bytes.checked_add(size) {
                Some(sum) => {
                    bytes = sum;
                },
                None => {
                    proof {
                        lemma_found_grows(v@, pick, i + 1);
                    }
                    return None;
                },
            }
        }
        i += 1;
    }
    assert(v@.take(i as int) =~= v@);
    Some((names, bytes))
}

fn free_image(x: &DfImage) -> (r: Option<(&str, u64)>)
    ensures
        freed(r) == image_frees(*x),
{
    if is_unused(x.containers.as_str()) {
        Some((x.id.as_str(), x.bytes))
    } else {
        None
    }
}

fn free_container(x: &DfContainer) -> (r: Option<(&str, u64)>)
    ensures
        freed(r) == container_frees(*x),
{
    let state = x.state.as_str();
    if text::same(state, "exited") || text::same(state, "created") || text::same(state, "dead") {
        Some((x.id.as_str(), x.bytes))
    } else {
        None
    }
}

fn free_volume(x: &DfVolume) -> (r: Option<(&str, u64)>)
    ensures
        freed(r) == volume_frees(*x),
{
    if is_unused(x.links.as_str()) {
        Some((x.name.as_str(), x.bytes))
    } else {
        None
    }
}

fn preview_text(containers: usize, images: usize, volumes: usize, bytes: u64) -> (r: String)
    ensures
        r@ == preview_line(containers as nat, images as nat, volumes as nat, bytes as nat),
{
    let mut r = text::join5(
        "preview: ",
        text::decimal_text(containers as u64).as_str(),
        " container(s), ",
        text::decimal_text(images as u64).as_str(),
        " image(s), ",
    );
    r.append(text::decimal_text(volumes as u64).as_str());
    r.append(" volume(s) — ~");
    r.append(text::decimal_text(bytes).as_str());
    r.append(" bytes\n");
    r
}

/// Ends a preview where Docker did not count: with what it complained of.
pub fn end_preview(df: &CommandOutput) -> (r: Option<PruneOutcome>)
    ensures
        (match r {
            Some(o) => Some(o@),
            None => None,
        }) == (if df@.success {
            None
        } else {
            Some(OutcomeView { error: Some(text::trimmed(df@.stderr)), ..nothing() })
        }),
{
    if df.success {
        None
    } else {
        Some(PruneOutcome::failed(text::trim(df.stderr.as_str()).as_str()))
    }
}

/// Previews a prune from what Docker counts, without removing anything.
pub fn preview(
    images: &[DfImage],
    containers: &[DfContainer],
    volumes: &[DfVolume],
    prune_volumes: bool,
) -> (r: Option<PruneOutcome>)
    ensures
        previewed(images@, containers@, volumes@, prune_volumes) == (match r {
            Some(o) => Some(o@),
            None => None,
        }),
{
    let (image_names, image_bytes) = match find(images, free_image, Ghost(|x: DfImage| image_frees(x))) {
        Some(f) => f,
        None => return None,
    };
    let (container_names, container_bytes) = match find(
        containers,
        free_container,
        Ghost(|x: DfContainer| container_frees(x)),
    ) {
        Some(f) => f,
        None => return None,
    };
    let (volume_names, volume_bytes) = if prune_volumes {
        match find(volumes, free_volume, Ghost(|x: DfVolume| volume_frees(x))) {
            Some(f) => f,
            None => return None,
        }
    } else {
        let none: Vec<String> = Vec::new();
        assert(text::texts(none@) =~= Seq::empty());
        (none, 0)
    };
    let bytes = match image_bytes.checked_add(container_bytes) {
        Some(sum) => match sum.checked_add(volume_bytes) {
            Some(sum) => sum,
            None => return None,
        },
        None => return None,
    };
    assert(text::texts(container_names@).len() == container_names@.len());
    assert(text::texts(image_names@).len() == image_names@.len());
    assert(text::texts(volume_names@).len() == volume_names@.len());
    let log = preview_text(container_names.len(), image_names.len(), volume_names.len(), bytes);
    let networks: Vec<String> = Vec::new();
    assert(text::texts(networks@) =~= Seq::empty());
    Some(
        PruneOutcome {
            success: true,
            reclaimed_bytes: bytes,
            containers_removed: container_names,
            images_removed: image_names,
            networks_removed: networks,
            volumes_removed: volume_names,
            log,
            error: None,
        },
    )
}

// ---------- the prune ----------

/// What a part of the log lists.
#[derive(Debug, Clone, Copy, PartialEq, Eq, Structural)]
pub enum Section {
    Nowhere,
    Containers,
    Images,
    Networks,
    Volumes,
}

/// A log, as far as it has been read.
#[verifier::ext_equal]
pub struct Reading {
    pub section: Section,
    pub containers: Seq<Seq<char>>,
    pub images: Seq<Seq<char>>,
    pub networks: Seq<Seq<char>>,
    pub volumes: Seq<Seq<char>>,
    /// The size that the log says was reclaimed.
    pub reclaimed: Option<Seq<char>>,
}

/// Nothing has been read.
pub open spec fn unread() -> Reading {
    Reading {
        section: Section::Nowhere,
        containers: Seq::empty(),
        images: Seq::empty(),
        networks: Seq::empty(),
        volumes: Seq::empty(),
        reclaimed: None,
    }
}

/// The section that a line is the heading of, if it is one.
pub open spec fn heading(l: Seq<char>) -> Option<Section> {
    if l == "Deleted Containers:"@ {
        Some(Section::Containers)
    } else if l == "Deleted Images:"@ {
        Some(Section::Images)
    } else if l == "Deleted Networks:"@ {
        Some(Section::Networks)
    } else if l == "Deleted Volumes:"@ {
        Some(Section::Volumes)
    } else {
        None
    }
}

/// The size on the line that says what was reclaimed.
pub open spec fn reclaimed_on(l: Seq<char>) -> Option<Seq<char>> {
    if "Total reclaimed space:"@.is_prefix_of(l) {
        Some(text::trimmed(text::strip_all(l, "Total reclaimed space:"@)))
    } else {
        None
    }
}

/// One more line: headings open a section, a blank line or the total closes
/// it, anything else is an entry of the section that is open.
pub open spec fn read_on(r: Reading, line: Seq<char>) -> Reading {
    let l = text::trimmed(line);
    if heading(l) is Some {
        Reading { section: heading(l)->0, ..r }
    } else if reclaimed_on(l) is Some {
        Reading { section: Section::Nowhere, reclaimed: reclaimed_on(l), ..r }
    } else if l.len() == 0 {
        Reading { section: Section::Nowhere, ..r }
    } else {
        match r.section {
            Section::Nowhere => r,
            Section::Containers => Reading { containers: r.containers.push(l), ..r },
            Section::Images => Reading { images: r.images.push(l), ..r },
            Section::Networks => Reading { networks: r.networks.push(l), ..r },
            Section::Volumes => Reading { volumes: r.volumes.push(l), ..r },
        }
    }
}

/// Some lines.
pub open spec fn read_lines(rows: Seq<Seq<char>>) -> Reading
    decreases rows.len(),
{
    if rows.len() == 0 {
        unread()
    } else {
        read_on(read_lines(rows.drop_last()), rows.last())
    }
}

/// What a prune left behind, with the size that is still to be read as a
/// number.
#[derive(Debug)]
pub struct PruneRead {
    pub outcome: PruneOutcome,
    pub reclaimed: Option<String>,
}

/// The outcome of a prune, but for the number of bytes.
pub open spec fn pruned(out: output::OutputView, log: Seq<char>) -> OutcomeView {
    let r = read_lines(text::lines(log));
    OutcomeView {
        success: out.success,
        reclaimed_bytes: 0,
        containers_removed: r.containers,
        images_removed: r.images,
        networks_removed: r.networks,
        volumes_removed: r.volumes,
        log,
        error: if out.success {
            None
        } else {
            Some("docker system prune exit "@ + text::code_words(out.code))
        },
    }
}

fn heading_of(l: &str) -> (r: Option<Section>)
    ensures
        r == heading(l@),
{
    if text::same(l, "Deleted Containers:") {
        Some(Section::Containers)
    } else if text::same(l, "Deleted Images:") {
        Some(Section::Images)
    } else if text::same(l, "Deleted Networks:") {
        Some(Section::Networks)
    } else if text::same(l, "Deleted Volumes:") {
        Some(Section::Volumes)
    } else {
        None
    }
}

fn reclaimed_of(l: &str) -> (r: Option<String>)
    ensures
        text::opt_text(r) == reclaimed_on(l@),
{
    if text::starts_with(l, "Total reclaimed space:") {
        Some(text::trim(text::strip_prefixes(l, "Total reclaimed space:").as_str()))
    } else {
        None
    }
}

/// Reads what a prune left behind. Nothing where its output cannot be cut at a
/// character.
pub fn read_prune(out: &CommandOutput) -> (r: Option<PruneRead>)
    ensures
        match r {
            Some(p) => {
                &&& docker::combined(out@) is Some
                &&& p.outcome@ == pruned(out@, docker::combined(out@)->0)
                &&& text::opt_text(p.reclaimed) == read_lines(text::lines(docker::combined(out@)->0)).reclaimed
            },
            None => docker::combined(out@) is None,
        },
{
    broadcast use text::lemma_texts_push;

    let log = match docker::combine_stdout_stderr(out) {
        Some(log) => log,
        None => return None,
    };
    let rows = text::split_lines(log.as_str());
    let mut o = PruneOutcome::none();
    let mut section = Section::Nowhere;
    let mut reclaimed: Option<String> = None;
    let mut i: usize = 0;
    assert(text::texts(rows@).take(0) =~= Seq::empty());
    while i < rows.len()
        invariant
            i <= rows@.len(),
            read_lines(text::texts(rows@).take(i as int)) == (Reading {
                section,
                containers: text::texts(o.containers_removed@),
                images: text::texts(o.images_removed@),
                networks: text::texts(o.networks_removed@),
                volumes: text::texts(o.volumes_removed@),
                reclaimed: text::opt_text(reclaimed),
            }),
            o.reclaimed_bytes == 0,
        decreases rows@.len() - i,
    {
        assert(text::texts(rows@).take(i + 1).drop_last() =~= text::texts(rows@).take(i as int));
        assert(text::texts(rows@).take(i + 1).last() == rows@[i as int]@);
        let l = text::trim(rows[i].as_str());
        if let Some(s) = heading_of(l.as_str()) {
            section = s;
        } else if let Some(size) = reclaimed_of(l.as_str()) {
            reclaimed = Some(size);
            section = Section::Nowhere;
        } else if l.as_str().is_empty() {
            section = Section::Nowhere;
        } else {
            match section {
                Section::Nowhere => {},
                Section::Containers => o.containers_removed.push(l),
                Section::Images => o.images_removed.push(l),
                Section::Networks => o.networks_removed.push(l),
                Section::Volumes => o.volumes_removed.push(l),
            }
        }
        i += 1;
    }
    assert(text::texts(rows@).take(i as int) =~= text::texts(rows@));
    o.success = out.success;
    o.log = log;
    o.error = if out.success {
        None
    } else {
        Some(text::join2("docker system prune exit ", text::code_text(out.code).as_str()))
    };
    Some(PruneRead { outcome: o, reclaimed })
}

/// Puts the number of bytes in, once the size has been read as a number.
pub fn settle(read: PruneRead, bytes: u64) -> (r: PruneOutcome)
    ensures
        r@ == (OutcomeView {
            reclaimed_bytes: if read.reclaimed is Some {
                bytes
            } else {
                read.outcome.reclaimed_bytes
            },
            ..read.outcome@
        }),
{
    let mut o = read.outcome;
    if read.reclaimed.is_some() {
        o.reclaimed_bytes = bytes;
    }
    o
}

// ---------- volumes alone ----------

/// The log of a prune of volumes, as far as it has been read.
#[verifier::ext_equal]
pub struct VolumeReading {
    pub listing: bool,
    pub removed: Seq<Seq<char>>,
    pub reclaimed: Option<Seq<char>>,
}

/// One more line.
pub open spec fn read_volume_line(r: VolumeReading, line: Seq<char>) -> VolumeReading {
    let l = text::trimmed(line);
    if "Deleted Volumes"@.is_prefix_of(l) {
        VolumeReading { listing: true, ..r }
    } else if reclaimed_on(l) is Some {
        VolumeReading { listing: false, reclaimed: reclaimed_on(l), ..r }
    } else if r.listing && l.len() > 0 {
        VolumeReading { removed: r.removed.push(l), ..r }
    } else {
        r
    }
}

/// Some lines.
pub open spec fn read_volume_lines(rows: Seq<Seq<char>>) -> VolumeReading
    decreases rows.len(),
{
    if rows.len() == 0 {
        VolumeReading { listing: false, removed: Seq::empty(), reclaimed: None }
    } else {
        read_volume_line(read_volume_lines(rows.drop_last()), rows.last())
    }
}

/// What a prune of volumes left behind, with the size that is still to be read
/// as a number.
#[derive(Debug)]
pub struct VolumesPruned {
    pub success: bool,
    pub removed: Vec<String>,
    pub reclaimed: Option<String>,
    pub log: String,
    pub error: Option<String>,
}

/// Reads what a prune of volumes left behind: a failed one removed nothing.
/// Nothing where its output cannot be cut at a character.
pub fn read_volumes_pruned(out: &CommandOutput) -> (r: Option<VolumesPruned>)
    ensures
        match r {
            Some(p) => {
                let log = docker::combined(out@)->0;
                let read = read_volume_lines(text::lines(log));
                &&& docker::combined(out@) is Some
                &&& p.success == out@.success
                &&& p.log@ == log
                &&& out@.success ==> text::texts(p.removed@) == read.removed && text::opt_text(p.reclaimed)
                    == read.reclaimed && p.error is None
                &&& !out@.success ==> p.removed@.len() == 0 && p.reclaimed is None && text::opt_text(
                    p.error,
                ) == Some("docker volume prune exit "@ + text::code_words(out@.code))
            },
            None => docker::combined(out@) is None,
        },
{
    broadcast use text::lemma_texts_push;

    let log = match docker::combine_stdout_stderr(out) {
        Some(log) => log,
        None => return None,
    };
    if !out.success {
        let error = text::join2("docker volume prune exit ", text::code_text(out.code).as_str());
        return Some(
            VolumesPruned {
                success: false,
                removed: Vec::new(),
                reclaimed: None,
                log,
                error: Some(error),
            },
        );
    }
    let rows = text::split_lines(log.as_str());
    let mut removed: Vec<String> = Vec::new();
    let mut reclaimed: Option<String> = None;
    let mut listing = false;
    let mut i: usize = 0;
    assert(text::texts(rows@).take(0) =~= Seq::empty());
    assert(text::texts(removed@) =~= Seq::empty());
    while i < rows.len()
        invariant
            i <= rows@.len(),
            read_volume_lines(text::texts(rows@).take(i as int)) == (VolumeReading {
                listing,
                removed: text::texts(removed@),
                reclaimed: text::opt_text(reclaimed),
            }),
        decreases rows@.len() - i,
    {
        assert(text::texts(rows@).take(i + 1).drop_last() =~= text::texts(rows@).take(i as int));
        assert(text::texts(rows@).take(i + 1).last() == rows@[i as int]@);
        let l = text::trim(rows[i].as_str());
        if text::starts_with(l.as_str(), "Deleted Volumes") {
            listing = true;
        } else if let Some(size) = reclaimed_of(l.as_str()) {
            listing = false;
            reclaimed = Some(size);
        } else if listing && !l.as_str().is_empty() {
            removed.push(l);
        }
        i += 1;
    }
    assert(text::texts(rows@).take(i as int) =~= text::texts(rows@));
    Some(VolumesPruned { success: true, removed, reclaimed, log, error: None })
}

// ---------- laws ----------

proof fn lemma_found<T>(v: Seq<T>, pick: spec_fn(T) -> Option<(Seq<char>, u64)>, i: int)
    requires
        0 <= i < v.len(),
        pick(v[i]) is Some,
    ensures
        found(v, pick).names.contains((pick(v[i])->0).0),
    decreases v.len(),
{
    let front = found(v.drop_last(), pick).names;
    let name = (pick(v[i])->0).0;
    if i < v.len() - 1 {
        lemma_found(v.drop_last(), pick, i);
        let k = choose|k: int| 0 <= k < front.len() && front[k] == name;
        assert(found(v, pick).names[k] == name);
    } else {
        assert(found(v, pick).names[front.len() as int] == name);
    }
}

/// A preview lists every image that nothing uses, every container that does
/// not run, and every volume that nothing links to, where volumes are asked
/// for; else it lists no volume.
pub proof fn law_preview_is_complete(
    images: Seq<DfImage>,
    containers: Seq<DfContainer>,
    volumes: Seq<DfVolume>,
    prune_volumes: bool,
)
    requires
        previewed(images, containers, volumes, prune_volumes) is Some,
    ensures
        ({
            let outcome = previewed(images, containers, volumes, prune_volumes)->0;
            &&& forall|i: int|
                0 <= i < images.len() && unused((#[trigger] images[i]).containers@)
                    ==> outcome.images_removed.contains(images[i].id@)
            &&& forall|i: int|
                0 <= i < containers.len() && stopped((#[trigger] containers[i]).state@)
                    ==> outcome.containers_removed.contains(containers[i].id@)
            &&& forall|i: int|
                prune_volumes && 0 <= i < volumes.len() && unused((#[trigger] volumes[i]).links@)
                    ==> outcome.volumes_removed.contains(volumes[i].name@)
            &&& !prune_volumes ==> outcome.volumes_removed.len() == 0
        }),
{
    let outcome = previewed(images, containers, volumes, prune_volumes)->0;
    assert forall|i: int|
        0 <= i < images.len() && unused(
            (#[trigger] images[i]).containers@,
        ) implies outcome.images_removed.contains(images[i].id@) by {
        lemma_found(images, |x: DfImage| image_frees(x), i);
    }
    assert forall|i: int|
        0 <= i < containers.len() && stopped(
            (#[trigger] containers[i]).state@,
        ) implies outcome.containers_removed.contains(containers[i].id@) by {
        lemma_found(containers, |x: DfContainer| container_frees(x), i);
    }
    assert forall|i: int|
        prune_volumes && 0 <= i < volumes.len() && unused(
            (#[trigger] volumes[i]).links@,
        ) implies outcome.volumes_removed.contains(volumes[i].name@) by {
        lemma_found(volumes, |x: DfVolume| volume_frees(x), i);
    }
}

/// What some numbers come to.
pub open spec fn total(v: Seq<int>) -> int {
    v.fold_left(0, |a: int, b: int| a + b)
}

proof fn lemma_total(v: Seq<int>, n: int)
    ensures
        total(v.push(n)) == total(v) + n,
        total(Seq::<int>::empty()) == 0,
{
    assert(v.push(n).drop_last() =~= v);
    reveal_with_fuel(Seq::fold_left, 2);
}

proof fn lemma_found_is_filtered<T>(
    v: Seq<T>,
    pick: spec_fn(T) -> Option<(Seq<char>, u64)>,
    goes: spec_fn(T) -> bool,
    name: spec_fn(T) -> Seq<char>,
    size: spec_fn(T) -> int,
)
    requires
        forall|x: T|
            #![trigger pick(x)]
            (pick(x) is Some <==> goes(x)) && (goes(x) ==> (pick(x)->0).0 == name(x) && (pick(
                x,
            )->0).1 == size(x)),
    ensures
        found(v, pick).names == v.filter(goes).map_values(name),
        found(v, pick).bytes == total(v.filter(goes).map_values(size)),
    decreases v.len(),
{
    reveal(Seq::filter);
    if v.len() == 0 {
        assert(v.filter(goes).map_values(name) =~= Seq::empty());
        assert(v.filter(goes).map_values(size) =~= Seq::empty());
        lemma_total(Seq::empty(), 0);
    } else {
        let front = v.drop_last();
        lemma_found_is_filtered(front, pick, goes, name, size);
        let x = v.last();
        let kept = front.filter(goes);
        assert(pick(x) is Some <==> goes(x));
        if goes(x) {
            assert(v.filter(goes) =~= kept.push(x));
            assert(kept.push(x).map_values(name) =~= kept.map_values(name).push(name(x)));
            assert(kept.push(x).map_values(size) =~= kept.map_values(size).push(size(x)));
            lemma_total(kept.map_values(size), size(x));
        } else {
            assert(v.filter(goes) =~= kept);
        }
    }
}

/// A preview lists the images without containers, the containers that exited,
/// were only created or are dead, and, where they were asked for, the volumes
/// without links; it counts the bytes of each of them, and removes no network.
pub proof fn law_previews_count_what_goes(
    images: &[DfImage],
    containers: &[DfContainer],
    volumes: &[DfVolume],
    prune_volumes: bool,
    r: Option<PruneOutcome>,
)
    requires
        call_ensures(preview, (images, containers, volumes, prune_volumes), r),
    ensures
        ({
            let i = images@.filter(
                |x: DfImage|
                    text::read_signed(x.containers@) is None || text::read_signed(x.containers@)
                        == Some(0int),
            );
            let c = containers@.filter(
                |x: DfContainer|
                    x.state@ == "exited"@ || x.state@ == "created"@ || x.state@ == "dead"@,
            );
            let v = if prune_volumes {
                volumes@.filter(
                    |x: DfVolume|
                        text::read_signed(x.links@) is None || text::read_signed(x.links@) == Some(
                            0int,
                        ),
                )
            } else {
                Seq::empty()
            };
            let bytes = total(i.map_values(|x: DfImage| x.bytes as int)) + total(
                c.map_values(|x: DfContainer| x.bytes as int),
            ) + total(v.map_values(|x: DfVolume| x.bytes as int));
            &&& r is Some <==> bytes <= u64::MAX
            &&& r is Some ==> {
                &&& r->0.success
                &&& r->0.error is None
                &&& r->0.reclaimed_bytes == bytes
                &&& text::texts(r->0.images_removed@) == i.map_values(|x: DfImage| x.id@)
                &&& text::texts(r->0.containers_removed@) == c.map_values(|x: DfContainer| x.id@)
                &&& text::texts(r->0.volumes_removed@) == v.map_values(|x: DfVolume| x.name@)
                &&& r->0.networks_removed@.len() == 0
            }
        }),
{
    let gi = |x: DfImage|
        text::read_signed(x.containers@) is None || text::read_signed(x.containers@) == Some(0int);
    let gc = |x: DfContainer|
        x.state@ == "exited"@ || x.state@ == "created"@ || x.state@ == "dead"@;
    let gv = |x: DfVolume|
        text::read_signed(x.links@) is None || text::read_signed(x.links@) == Some(0int);
    lemma_found_is_filtered(
        images@,
        |x: DfImage| image_frees(x),
        gi,
        |x: DfImage| x.id@,
        |x: DfImage| x.bytes as int,
    );
    lemma_found_is_filtered(
        containers@,
        |x: DfContainer| container_frees(x),
        gc,
        |x: DfContainer| x.id@,
        |x: DfContainer| x.bytes as int,
    );
    lemma_found_is_filtered(
        volumes@,
        |x: DfVolume| volume_frees(x),
        gv,
        |x: DfVolume| x.name@,
        |x: DfVolume| x.bytes as int,
    );
    let none = Seq::<DfVolume>::empty();
    assert(none.map_values(|x: DfVolume| x.bytes as int) =~= Seq::empty());
    assert(none.map_values(|x: DfVolume| x.name@) =~= Seq::empty());
    lemma_total(Seq::empty(), 0);
    if let Some(o) = r {
        assert(text::texts(o.networks_removed@).len() == o.networks_removed@.len());
        assert(o@.success == o.success && o@.reclaimed_bytes == o.reclaimed_bytes);
        assert(o@.error == text::opt_text(o.error));
    }
}

/// A line of a log opens the section that it heads, closes one, or is an entry
/// of the section that is open, and of no other.
pub proof fn law_prune_lines_go_to_their_section(r: Reading, line: Seq<char>)
    ensures
        text::trimmed(line) == "Deleted Containers:"@ ==> read_on(r, line) == (Reading {
            section: Section::Containers,
            ..r
        }),
        text::trimmed(line) == "Deleted Images:"@ ==> read_on(r, line) == (Reading {
            section: Section::Images,
            ..r
        }),
        text::trimmed(line) == "Deleted Networks:"@ ==> read_on(r, line) == (Reading {
            section: Section::Networks,
            ..r
        }),
        text::trimmed(line) == "Deleted Volumes:"@ ==> read_on(r, line) == (Reading {
            section: Section::Volumes,
            ..r
        }),
        text::trimmed(line).len() == 0 ==> read_on(r, line) == (Reading {
            section: Section::Nowhere,
            ..r
        }),
        text::trimmed(line).len() > 0 && !"Deleted "@.is_prefix_of(text::trimmed(line))
            && !"Total reclaimed space:"@.is_prefix_of(text::trimmed(line)) ==> {
            let entry = text::trimmed(line);
            read_on(r, line) == (match r.section {
                Section::Nowhere => r,
                Section::Containers => Reading { containers: r.containers.push(entry), ..r },
                Section::Images => Reading { images: r.images.push(entry), ..r },
                Section::Networks => Reading { networks: r.networks.push(entry), ..r },
                Section::Volumes => Reading { volumes: r.volumes.push(entry), ..r },
            })
        },
{
    reveal_strlit("Deleted Containers:");
    reveal_strlit("Deleted Images:");
    reveal_strlit("Deleted Networks:");
    reveal_strlit("Deleted Volumes:");
    reveal_strlit("Deleted ");
    reveal_strlit("Total reclaimed space:");
    let d = "Deleted "@;
    let a = "Deleted Containers:"@;
    let b = "Deleted Images:"@;
    let c = "Deleted Networks:"@;
    let e = "Deleted Volumes:"@;
    assert(a[8] == 'C' && b[8] == 'I' && c[8] == 'N' && e[8] == 'V');
    assert(a.subrange(0, 8) =~= d && b.subrange(0, 8) =~= d && c.subrange(0, 8) =~= d
        && e.subrange(0, 8) =~= d);
}

/// The total names what was reclaimed, and closes the section.
pub proof fn law_totals_are_read(r: Reading, size: Seq<char>)
    requires
        text::trimmed("Total reclaimed space:"@ + size) == "Total reclaimed space:"@ + size,
        !"Total reclaimed space:"@.is_prefix_of(size),
    ensures
        read_on(r, "Total reclaimed space:"@ + size) == (Reading {
            section: Section::Nowhere,
            reclaimed: Some(text::trimmed(size)),
            ..r
        }),
{
    reveal_strlit("Deleted Containers:");
    reveal_strlit("Deleted Images:");
    reveal_strlit("Deleted Networks:");
    reveal_strlit("Deleted Volumes:");
    reveal_strlit("Total reclaimed space:");
    let t = "Total reclaimed space:"@;
    let l = t + size;
    assert(l[0] == 'T');
    assert("Deleted Containers:"@[0] == 'D' && "Deleted Images:"@[0] == 'D'
        && "Deleted Networks:"@[0] == 'D' && "Deleted Volumes:"@[0] == 'D');
    assert(l.subrange(0, t.len() as int) =~= t);
    assert(l.skip(t.len() as int) =~= size);
    assert(text::strip_all(l, t) == text::strip_all(size, t));
    assert(text::strip_all(size, t) == size);
}

/// What a prune removed is what its log lists, each kind for itself; it
/// succeeded where Docker did.
pub proof fn law_prunes_tell_what_went(
    out: &CommandOutput,
    r: Option<PruneRead>,
    rows: Seq<Seq<char>>,
    row: Seq<char>,
)
    requires
        call_ensures(read_prune, (out,), r),
    ensures
        r is Some ==> ({
            let o = r->0.outcome;
            let read = read_lines(text::lines(o.log@));
            &&& o.success == out.success
            &&& text::texts(o.containers_removed@) == read.containers
            &&& text::texts(o.images_removed@) == read.images
            &&& text::texts(o.networks_removed@) == read.networks
            &&& text::texts(o.volumes_removed@) == read.volumes
            &&& text::opt_text(r->0.reclaimed) == read.reclaimed
            &&& out.success ==> o.error is None
            &&& !out.success ==> text::opt_text(o.error) == Some(
                "docker system prune exit "@ + text::code_words(out.code),
            )
            &&& out.stderr@.len() == 0 && text::byte_len(out.stdout@) <= 8000 ==> o.log@
                == out.stdout@
        }),
        read_lines(rows.push(row)) == read_on(read_lines(rows), row),
        read_lines(Seq::<Seq<char>>::empty()) == (Reading {
            section: Section::Nowhere,
            containers: Seq::empty(),
            images: Seq::empty(),
            networks: Seq::empty(),
            volumes: Seq::empty(),
            reclaimed: None,
        }),
{
    assert(out@.success == out.success && out@.code == out.code && out@.stdout == out.stdout@
        && out@.stderr == out.stderr@);
    if let Some(p) = r {
        let o = p.outcome;
        assert(o@.success == o.success && o@.log == o.log@ && o@.error == text::opt_text(o.error)
            && o@.containers_removed == text::texts(o.containers_removed@) && o@.images_removed
            == text::texts(o.images_removed@) && o@.networks_removed == text::texts(
            o.networks_removed@,
        ) && o@.volumes_removed == text::texts(o.volumes_removed@));
    }
    assert(rows.push(row).drop_last() =~= rows);
}

/// The bytes are those read from the total, and none where there was none; the
/// rest of the outcome stays.
pub proof fn law_settling_adds_the_bytes(read: PruneRead, bytes: u64, r: PruneOutcome)
    requires
        call_ensures(settle, (read, bytes), r),
    ensures
        read.reclaimed is Some ==> r.reclaimed_bytes == bytes,
        read.reclaimed is None ==> r.reclaimed_bytes == read.outcome.reclaimed_bytes,
        r.success == read.outcome.success,
        r.log@ == read.outcome.log@,
        text::texts(r.containers_removed@) == text::texts(read.outcome.containers_removed@),
        text::texts(r.images_removed@) == text::texts(read.outcome.images_removed@),
        text::texts(r.networks_removed@) == text::texts(read.outcome.networks_removed@),
        text::texts(r.volumes_removed@) == text::texts(read.outcome.volumes_removed@),
{
    let o = read.outcome;
    assert(o@.success == o.success && o@.log == o.log@ && o@.containers_removed == text::texts(
        o.containers_removed@,
    ) && o@.images_removed == text::texts(o.images_removed@) && o@.networks_removed == text::texts(
        o.networks_removed@,
    ) && o@.volumes_removed == text::texts(o.volumes_removed@));
    assert(r@.success == r.success && r@.log == r.log@ && r@.reclaimed_bytes == r.reclaimed_bytes
        && r@.containers_removed == text::texts(r.containers_removed@) && r@.images_removed
        == text::texts(r.images_removed@) && r@.networks_removed == text::texts(
        r.networks_removed@,
    ) && r@.volumes_removed == text::texts(r.volumes_removed@));
}

/// A prune of volumes lists the volumes behind its heading; a failed one lists
/// none, and gives its exit code.
pub proof fn law_volume_prunes_tell_what_went(
    out: &CommandOutput,
    r: Option<VolumesPruned>,
    rows: Seq<Seq<char>>,
    row: Seq<char>,
)
    requires
        call_ensures(read_volumes_pruned, (out,), r),
    ensures
        r is Some ==> r->0.success == out.success,
        r is Some && out.success ==> text::texts(r->0.removed@) == read_volume_lines(
            text::lines(r->0.log@),
        ).removed && r->0.error is None,
        r is Some && !out.success ==> r->0.removed@.len() == 0 && text::opt_text(r->0.error)
            == Some("docker volume prune exit "@ + text::code_words(out.code)),
        read_volume_lines(rows.push(row)) == read_volume_line(read_volume_lines(rows), row),
        "Deleted Volumes"@.is_prefix_of(text::trimmed(row)) ==> read_volume_lines(
            rows.push(row),
        ).listing && read_volume_lines(rows.push(row)).removed == read_volume_lines(rows).removed,
        text::trimmed(row).len() > 0 && read_volume_lines(rows).listing && !"Deleted "@.is_prefix_of(
            text::trimmed(row),
        ) && !"Total reclaimed space:"@.is_prefix_of(text::trimmed(row)) ==> read_volume_lines(
            rows.push(row),
        ).removed == read_volume_lines(rows).removed.push(text::trimmed(row)),
{
    assert(out@.success == out.success && out@.code == out.code);
    assert(rows.push(row).drop_last() =~= rows);
    reveal_strlit("Deleted Volumes");
    reveal_strlit("Deleted ");
    let l = text::trimmed(row);
    let d = "Deleted "@;
    let e = "Deleted Volumes"@;
    assert(e.subrange(0, 8) =~= d);
    if e.is_prefix_of(l) {
        assert(l.subrange(0, 8) =~= l.subrange(0, e.len() as int).subrange(0, 8));
        assert(d.is_prefix_of(l));
    }
}

/// A preview that Docker could not count for is ended with the complaint.
pub proof fn law_uncounted_previews_end(df: &CommandOutput, r: Option<PruneOutcome>)
    requires
        call_ensures(end_preview, (df,), r),
    ensures
        r is None <==> df.success,
        r matches Some(o) ==> !o.success && text::opt_text(o.error) == Some(
            text::trimmed(df.stderr@),
        ),
{
    assert(df@.success == df.success && df@.stderr == df.stderr@);
    if let Some(o) = r {
        assert(o@.success == o.success && o@.error == text::opt_text(o.error));
    }
}

/// A preview says in its log how many of each it lists, and the bytes.
pub proof fn law_previews_sum_themselves_up(
    images: &[DfImage],
    containers: &[DfContainer],
    volumes: &[DfVolume],
    prune_volumes: bool,
    r: Option<PruneOutcome>,
)
    requires
        call_ensures(preview, (images, containers, volumes, prune_volumes), r),
        r is Some,
    ensures
        r->0.log@ == "preview: "@ + text::decimal(r->0.containers_removed@.len())
            + " container(s), "@ + text::decimal(r->0.images_removed@.len()) + " image(s), "@
            + text::decimal(r->0.volumes_removed@.len()) + " volume(s) — ~"@ + text::decimal(
            r->0.reclaimed_bytes as nat,
        ) + " bytes\n"@,
{
    let o = r->0;
    assert(o@.log == o.log@ && o@.reclaimed_bytes == o.reclaimed_bytes);
    assert(text::texts(o.containers_removed@).len() == o.containers_removed@.len());
    assert(text::texts(o.images_removed@).len() == o.images_removed@.len());
    assert(text::texts(o.volumes_removed@).len() == o.volumes_removed@.len());
}

}
