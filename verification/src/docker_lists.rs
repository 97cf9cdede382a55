//! Lists as Docker prints them, row by row: what is shown of each row. A row
//! that could not be read is passed over.

use crate::docker;
use crate::docker::SizeParts;
use crate::text;
use vstd::prelude::*;

verus! {

/// The rows that could be read.
pub open spec fn present<T>(rows: Seq<Option<T>>) -> Seq<T>
    decreases rows.len(),
{
    if rows.len() == 0 {
        Seq::empty()
    } else {
        match rows.last() {
            Some(row) => present(rows.drop_last()).push(row),
            None => present(rows.drop_last()),
        }
    }
}

/// Keeps the rows that could be read, the first of them at the end.
fn stack<T>(rows: Vec<Option<T>>) -> (r: Vec<T>)
    ensures
        r@.reverse() == present(rows@),
{
    let ghost all = rows@;
    let mut rows = rows;
    let mut back: Vec<T> = Vec::new();
    proof {
        assert(all.take(all.len() as int) =~= all);
        assert(present(all) + Seq::<T>::empty() =~= present(all));
        assert(back@.reverse() =~= Seq::<T>::empty());
    }
    while rows.len() > 0
        invariant
            rows@.len() <= all.len(),
            rows@ == all.take(rows@.len() as int),
            present(all) == present(rows@) + back@.reverse(),
        decreases rows@.len(),
    {
        let ghost before = rows@;
        let ghost so_far = back@;
        let row = rows.pop();
        assert(rows@ =~= before.drop_last());
        assert(rows@ =~= all.take(rows@.len() as int));
        if let Some(Some(row)) = row {
            back.push(row);
            assert(present(before) == present(rows@).push(row));
            assert(back@.reverse() =~= seq![row] + so_far.reverse());
            assert(present(rows@).push(row) + so_far.reverse() =~= present(rows@)
                + back@.reverse());
        }
    }
    assert(present(rows@) + back@.reverse() =~= back@.reverse());
    back
}

/// A row of the list of containers.
#[derive(Debug)]
pub struct ContainerRow {
    pub id: String,
    pub names: String,
    pub image: String,
    pub state: String,
    pub status: String,
    pub ports: String,
}

/// A container as it is shown.
#[derive(Debug)]
pub struct DockerContainer {
    pub id: String,
    pub names: String,
    pub image: String,
    pub state: String,
    pub status: String,
    pub ports: String,
}

/// Whether a container is shown as its row says: with the first twelve
/// characters of its id.
pub open spec fn container_shown(row: ContainerRow, c: DockerContainer) -> bool {
    &&& c.id@ == text::shortened(row.id@, 12)
    &&& c.names == row.names && c.image == row.image && c.state == row.state
    &&& c.status == row.status && c.ports == row.ports
}

fn show_container(row: ContainerRow) -> (r: DockerContainer)
    ensures
        container_shown(row, r),
{
    DockerContainer {
        id: docker::container_id(row.id.as_str()),
        names: row.names,
        image: row.image,
        state: row.state,
        status: row.status,
        ports: row.ports,
    }
}

/// A row of the list of images.
#[derive(Debug)]
pub struct ImageRow {
    pub id: String,
    pub repository: String,
    pub tag: String,
    pub size: String,
    pub created_since: String,
    pub created_at: String,
}

/// An image as it is shown.
#[derive(Debug)]
pub struct DockerImage {
    pub id: String,
    pub repository: String,
    pub tag: String,
    pub size: Option<SizeParts>,
    pub created: String,
}

/// Whether an image is shown as its row says: without the name of the digest
/// in its id, and with its age where that is known.
pub open spec fn image_shown(row: ImageRow, i: DockerImage) -> bool {
    &&& i.id@ == (match text::after_prefix(row.id@, "sha256:"@) {
        Some(rest) => rest,
        None => row.id@,
    })
    &&& i.repository == row.repository && i.tag == row.tag
    &&& docker::size_read(row.size@, i.size)
    &&& i.created@ == (if row.created_since@.len() == 0 {
        row.created_at@
    } else {
        row.created_since@
    })
}

fn show_image(row: ImageRow) -> (r: DockerImage)
    ensures
        image_shown(row, r),
{
    DockerImage {
        id: docker::image_id(row.id.as_str()),
        repository: row.repository,
        tag: row.tag,
        size: docker::size_parts(row.size.as_str()),
        created: docker::image_created(row.created_since.as_str(), row.created_at.as_str()),
    }
}

/// A row of the list of networks.
#[derive(Debug)]
pub struct NetworkRow {
    pub id: String,
    pub name: String,
    pub driver: String,
    pub scope: String,
    pub created_at: String,
    pub ipv6: String,
    pub internal: String,
    pub attachable: String,
}

/// A network as it is shown.
#[derive(Debug)]
pub struct DockerNetwork {
    pub id: String,
    pub name: String,
    pub driver: String,
    pub scope: String,
    pub created: String,
    pub ipv6: bool,
    pub internal: bool,
    pub attachable: bool,
}

/// A switch that is on.
pub open spec fn is_on(s: Seq<char>) -> bool {
    s == "true"@ || s == "True"@ || s == "1"@
}

/// Whether a network is shown as its row says.
pub open spec fn network_shown(row: NetworkRow, n: DockerNetwork) -> bool {
    &&& n.id == row.id && n.name == row.name && n.driver == row.driver && n.scope == row.scope
    &&& n.created == row.created_at
    &&& n.ipv6 == is_on(row.ipv6@)
    &&& n.internal == is_on(row.internal@)
    &&& n.attachable == is_on(row.attachable@)
}

fn show_network(row: NetworkRow) -> (r: DockerNetwork)
    ensures
        network_shown(row, r),
{
    DockerNetwork {
        ipv6: docker::flag(row.ipv6.as_str()),
        internal: docker::flag(row.internal.as_str()),
        attachable: docker::flag(row.attachable.as_str()),
        id: row.id,
        name: row.name,
        driver: row.driver,
        scope: row.scope,
        created: row.created_at,
    }
}

/// A row of the list of volumes.
#[derive(Debug)]
pub struct VolumeRow {
    pub name: String,
    pub driver: String,
    pub mountpoint: String,
    pub size: String,
    pub labels: String,
}

/// A volume as it is shown. When it was made the list does not say.
#[derive(Debug)]
pub struct DockerVolume {
    pub name: String,
    pub driver: String,
    pub mountpoint: String,
    pub size: Option<SizeParts>,
    pub created: String,
    pub labels: String,
}

/// Whether a volume is shown as its row says.
pub open spec fn volume_shown(row: VolumeRow, v: DockerVolume) -> bool {
    &&& v.name == row.name && v.driver == row.driver && v.mountpoint == row.mountpoint
    &&& docker::size_read(row.size@, v.size)
    &&& v.created@.len() == 0
    &&& v.labels == row.labels
}

fn show_volume(row: VolumeRow) -> (r: DockerVolume)
    ensures
        volume_shown(row, r),
{
    DockerVolume {
        size: docker::size_parts(row.size.as_str()),
        name: row.name,
        driver: row.driver,
        mountpoint: row.mountpoint,
        created: String::new(),
        labels: row.labels,
    }
}

/// A row of the list of stacks.
#[derive(Debug)]
pub struct StackRow {
    pub name: String,
    pub services: String,
    pub orchestrator: String,
}

/// A stack as it is shown.
#[derive(Debug)]
pub struct SwarmStack {
    pub name: String,
    pub services: u32,
    pub orchestrator: String,
}

/// A count, or none where the text is no number.
pub open spec fn counted(s: Seq<char>) -> nat {
    match text::read_unsigned(s, u32::MAX as nat) {
        Some(n) => n,
        None => 0,
    }
}

/// Whether a stack is shown as its row says.
pub open spec fn stack_shown(row: StackRow, s: SwarmStack) -> bool {
    s.name == row.name && s.services == counted(row.services@) && s.orchestrator
        == row.orchestrator
}

fn show_stack(row: StackRow) -> (r: SwarmStack)
    ensures
        stack_shown(row, r),
{
    SwarmStack {
        services: docker::count_of(row.services.as_str()),
        name: row.name,
        orchestrator: row.orchestrator,
    }
}

/// A row of what containers use.
#[derive(Debug)]
pub struct StatsRow {
    pub id: String,
    pub name: String,
    pub cpu_perc: String,
    pub mem_usage: String,
    pub net_io: String,
    pub block_io: String,
    pub pids: String,
}

/// Two sizes, such as those in `1.2kB / 3.4kB`.
#[derive(Debug)]
pub struct SizePair {
    pub left: Option<SizeParts>,
    pub right: Option<SizeParts>,
}

/// What a container uses. The share of the processor is the text of a number.
#[derive(Debug)]
pub struct ContainerUse {
    pub id: String,
    pub name: String,
    pub cpu: String,
    pub memory: SizePair,
    pub network: SizePair,
    pub blocks: SizePair,
    pub pids: u32,
}

/// Whether a pair of sizes is taken apart as it should be.
pub open spec fn pair_read(s: Seq<char>, p: SizePair) -> bool {
    &&& docker::size_read(text::trimmed(text::nth(text::split(s, '/'), 0)), p.left)
    &&& docker::size_read(text::trimmed(text::nth(text::split(s, '/'), 1)), p.right)
}

/// Takes a pair of sizes apart.
pub fn parse_pair(s: &str) -> (r: SizePair)
    ensures
        pair_read(s@, r),
{
    let (left, right) = docker::pair_parts(s);
    SizePair {
        left: docker::size_parts(left.as_str()),
        right: docker::size_parts(right.as_str()),
    }
}

/// Whether what a container uses is shown as its row says.
pub open spec fn use_shown(row: StatsRow, u: ContainerUse) -> bool {
    &&& u.id == row.id && u.name == row.name
    &&& u.cpu@ == text::trimmed(text::strip_back(row.cpu_perc@, '%'))
    &&& pair_read(row.mem_usage@, u.memory)
    &&& pair_read(row.net_io@, u.network)
    &&& pair_read(row.block_io@, u.blocks)
    &&& u.pids == counted(row.pids@)
}

fn show_use(row: StatsRow) -> (r: ContainerUse)
    ensures
        use_shown(row, r),
{
    ContainerUse {
        cpu: docker::percentage(row.cpu_perc.as_str()),
        memory: parse_pair(row.mem_usage.as_str()),
        network: parse_pair(row.net_io.as_str()),
        blocks: parse_pair(row.block_io.as_str()),
        pids: docker::count_of(row.pids.as_str()),
        id: row.id,
        name: row.name,
    }
}

// ---------- the lists ----------

/// Shows the rows that could be read, in their order.
fn show_all<R, T, F: Fn(R) -> T>(rows: Vec<Option<R>>, show: F) -> (r: Vec<T>)
    requires
        forall|row: R| call_requires(show, (row,)),
    ensures
        r@.len() == present(rows@).len(),
        forall|i: int|
            0 <= i < r@.len() ==> call_ensures(show, (present(rows@)[i],), #[trigger] r@[i]),
{
    let ghost all = present(rows@);
    let mut rows = stack(rows);
    assert forall|i: int| 0 <= i < rows@.len() implies #[trigger] rows@[i] == all[all.len() - 1
        - i] by {
        assert(rows@.reverse()[all.len() - 1 - i] == rows@[i]);
    }
    let mut r: Vec<T> = Vec::new();
    while rows.len() > 0
        invariant
            rows@.len() + r@.len() == all.len(),
            forall|i: int|
                0 <= i < rows@.len() ==> #[trigger] rows@[i] == all[all.len() - 1 - i],
            forall|i: int|
                0 <= i < r@.len() ==> call_ensures(show, (all[i],), #[trigger] r@[i]),
            forall|row: R| call_requires(show, (row,)),
        decreases rows@.len(),
    {
        let ghost n = rows@.len();
        assert(rows@[n - 1] == all[r@.len() as int]);
        if let Some(row) = rows.pop() {
            r.push(show(row));
        }
    }
    r
}

/// Lists the containers.
pub fn list_containers(rows: Vec<Option<ContainerRow>>) -> (r: Vec<DockerContainer>)
    ensures
        r@.len() == present(rows@).len(),
        forall|i: int|
            0 <= i < r@.len() ==> container_shown(present(rows@)[i], #[trigger] r@[i]),
{
    show_all(rows, show_container)
}

/// Lists the images.
pub fn list_images(rows: Vec<Option<ImageRow>>) -> (r: Vec<DockerImage>)
    ensures
        r@.len() == present(rows@).len(),
        forall|i: int|
            0 <= i < r@.len() ==> image_shown(present(rows@)[i], #[trigger] r@[i]),
{
    show_all(rows, show_image)
}

/// Lists the networks.
pub fn list_networks(rows: Vec<Option<NetworkRow>>) -> (r: Vec<DockerNetwork>)
    ensures
        r@.len() == present(rows@).len(),
        forall|i: int|
            0 <= i < r@.len() ==> network_shown(present(rows@)[i], #[trigger] r@[i]),
{
    show_all(rows, show_network)
}

/// Lists the volumes.
pub fn list_volumes(rows: Vec<Option<VolumeRow>>) -> (r: Vec<DockerVolume>)
    ensures
        r@.len() == present(rows@).len(),
        forall|i: int|
            0 <= i < r@.len() ==> volume_shown(present(rows@)[i], #[trigger] r@[i]),
{
    show_all(rows, show_volume)
}

/// Lists the stacks.
pub fn list_stacks(rows: Vec<Option<StackRow>>) -> (r: Vec<SwarmStack>)
    ensures
        r@.len() == present(rows@).len(),
        forall|i: int|
            0 <= i < r@.len() ==> stack_shown(present(rows@)[i], #[trigger] r@[i]),
{
    show_all(rows, show_stack)
}

/// Lists what containers use.
pub fn container_stats(rows: Vec<Option<StatsRow>>) -> (r: Vec<ContainerUse>)
    ensures
        r@.len() == present(rows@).len(),
        forall|i: int|
            0 <= i < r@.len() ==> use_shown(present(rows@)[i], #[trigger] r@[i]),
{
    show_all(rows, show_use)
}

// ---------- laws ----------

/// The rows that could be read are all there, in their order, and no others.
pub proof fn law_no_row_is_lost<T>(rows: Seq<Option<T>>)
    ensures
        present(rows) == rows.filter(|row: Option<T>| row is Some).map_values(
            |row: Option<T>| row->0,
        ),
    decreases rows.len(),
{
    reveal(Seq::filter);
    let some = |row: Option<T>| row is Some;
    if rows.len() > 0 {
        law_no_row_is_lost(rows.drop_last());
        if rows.last() is Some {
            assert(rows.filter(some) =~= rows.drop_last().filter(some).push(rows.last()));
        }
    }
    assert(present(rows) =~= rows.filter(some).map_values(|row: Option<T>| row->0));
}

/// Every container is listed with what its row says of it.
pub proof fn law_containers_are_listed(
    rows: Vec<Option<ContainerRow>>,
    r: Vec<DockerContainer>,
    i: int,
)
    requires
        call_ensures(list_containers, (rows,), r),
    ensures
        r@.len() == rows@.filter(|row: Option<ContainerRow>| row is Some).len(),
        0 <= i < r@.len() ==> ({
            let row = rows@.filter(|row: Option<ContainerRow>| row is Some)[i]->0;
            &&& r@[i].id@ == (if row.id@.len() > 12 {
                row.id@.subrange(0, 12)
            } else {
                row.id@
            })
            &&& r@[i].names == row.names
            &&& r@[i].image == row.image
            &&& r@[i].state == row.state
            &&& r@[i].status == row.status
            &&& r@[i].ports == row.ports
        }),
{
    law_no_row_is_lost(rows@);
    if 0 <= i < r@.len() {
        let row = rows@.filter(|row: Option<ContainerRow>| row is Some)[i]->0;
        assert(present(rows@)[i] == row);
        assert(container_shown(row, r@[i]));
        text::law_shortening(row.id@, 12);
        assert(r@[i].id@ =~= if row.id@.len() > 12 {
            row.id@.subrange(0, 12)
        } else {
            row.id@
        });
    }
}

/// Every image is listed with what its row says of it.
pub proof fn law_images_are_listed(rows: Vec<Option<ImageRow>>, r: Vec<DockerImage>, i: int)
    requires
        call_ensures(list_images, (rows,), r),
    ensures
        r@.len() == rows@.filter(|row: Option<ImageRow>| row is Some).len(),
        0 <= i < r@.len() ==> ({
            let row = rows@.filter(|row: Option<ImageRow>| row is Some)[i]->0;
            &&& "sha256:"@.is_prefix_of(row.id@) ==> "sha256:"@ + r@[i].id@ == row.id@
            &&& !"sha256:"@.is_prefix_of(row.id@) ==> r@[i].id@ == row.id@
            &&& r@[i].repository == row.repository
            &&& r@[i].tag == row.tag
            &&& docker::size_read(row.size@, r@[i].size)
            &&& row.created_since@.len() > 0 ==> r@[i].created@ == row.created_since@
            &&& row.created_since@.len() == 0 ==> r@[i].created@ == row.created_at@
        }),
{
    law_no_row_is_lost(rows@);
    if 0 <= i < r@.len() {
        let row = rows@.filter(|row: Option<ImageRow>| row is Some)[i]->0;
        assert(present(rows@)[i] == row);
        assert(image_shown(row, r@[i]));
        let p = "sha256:"@;
        if p.is_prefix_of(row.id@) {
            assert(p == row.id@.subrange(0, p.len() as int));
            assert(p + row.id@.skip(p.len() as int) =~= row.id@);
        }
    }
}

/// Every network is listed with what its row says of it.
pub proof fn law_networks_are_listed(rows: Vec<Option<NetworkRow>>, r: Vec<DockerNetwork>, i: int)
    requires
        call_ensures(list_networks, (rows,), r),
    ensures
        r@.len() == rows@.filter(|row: Option<NetworkRow>| row is Some).len(),
        0 <= i < r@.len() ==> ({
            let row = rows@.filter(|row: Option<NetworkRow>| row is Some)[i]->0;
            &&& r@[i].id == row.id
            &&& r@[i].name == row.name
            &&& r@[i].driver == row.driver
            &&& r@[i].scope == row.scope
            &&& r@[i].created == row.created_at
            &&& r@[i].ipv6 <==> row.ipv6@ == "true"@ || row.ipv6@ == "True"@ || row.ipv6@ == "1"@
            &&& r@[i].internal <==> row.internal@ == "true"@ || row.internal@ == "True"@
                || row.internal@ == "1"@
            &&& r@[i].attachable <==> row.attachable@ == "true"@ || row.attachable@ == "True"@
                || row.attachable@ == "1"@
        }),
{
    law_no_row_is_lost(rows@);
    if 0 <= i < r@.len() {
        let row = rows@.filter(|row: Option<NetworkRow>| row is Some)[i]->0;
        assert(present(rows@)[i] == row);
        assert(network_shown(row, r@[i]));
    }
}

/// Every volume is listed with what its row says of it.
pub proof fn law_volumes_are_listed(rows: Vec<Option<VolumeRow>>, r: Vec<DockerVolume>, i: int)
    requires
        call_ensures(list_volumes, (rows,), r),
    ensures
        r@.len() == rows@.filter(|row: Option<VolumeRow>| row is Some).len(),
        0 <= i < r@.len() ==> ({
            let row = rows@.filter(|row: Option<VolumeRow>| row is Some)[i]->0;
            &&& r@[i].name == row.name
            &&& r@[i].driver == row.driver
            &&& r@[i].mountpoint == row.mountpoint
            &&& r@[i].labels == row.labels
            &&& docker::size_read(row.size@, r@[i].size)
        }),
{
    law_no_row_is_lost(rows@);
    if 0 <= i < r@.len() {
        let row = rows@.filter(|row: Option<VolumeRow>| row is Some)[i]->0;
        assert(present(rows@)[i] == row);
        assert(volume_shown(row, r@[i]));
    }
}

/// Every stack is listed with what its row says of it.
pub proof fn law_stacks_are_listed(
    rows: Vec<Option<StackRow>>,
    r: Vec<SwarmStack>,
    i: int,
    n: u32,
)
    requires
        call_ensures(list_stacks, (rows,), r),
    ensures
        r@.len() == rows@.filter(|row: Option<StackRow>| row is Some).len(),
        0 <= i < r@.len() ==> ({
            let row = rows@.filter(|row: Option<StackRow>| row is Some)[i]->0;
            &&& r@[i].name == row.name
            &&& r@[i].orchestrator == row.orchestrator
            &&& row.services@ == text::decimal(n as nat) ==> r@[i].services == n
        }),
{
    law_no_row_is_lost(rows@);
    text::law_decimal_reads_back(n as nat, u32::MAX as nat);
    if 0 <= i < r@.len() {
        let row = rows@.filter(|row: Option<StackRow>| row is Some)[i]->0;
        assert(present(rows@)[i] == row);
        assert(stack_shown(row, r@[i]));
    }
}

/// What a container uses is listed with what its row says: memory, network and
/// blocks each from their own column, the first size before the slash.
pub proof fn law_uses_are_listed(
    rows: Vec<Option<StatsRow>>,
    r: Vec<ContainerUse>,
    i: int,
    n: u32,
)
    requires
        call_ensures(container_stats, (rows,), r),
    ensures
        r@.len() == rows@.filter(|row: Option<StatsRow>| row is Some).len(),
        0 <= i < r@.len() ==> ({
            let row = rows@.filter(|row: Option<StatsRow>| row is Some)[i]->0;
            &&& r@[i].id == row.id
            &&& r@[i].name == row.name
            &&& r@[i].cpu@ == text::trimmed(text::strip_back(row.cpu_perc@, '%'))
            &&& pair_read(row.mem_usage@, r@[i].memory)
            &&& pair_read(row.net_io@, r@[i].network)
            &&& pair_read(row.block_io@, r@[i].blocks)
            &&& row.pids@ == text::decimal(n as nat) ==> r@[i].pids == n
        }),
{
    law_no_row_is_lost(rows@);
    text::law_decimal_reads_back(n as nat, u32::MAX as nat);
    if 0 <= i < r@.len() {
        let row = rows@.filter(|row: Option<StatsRow>| row is Some)[i]->0;
        assert(present(rows@)[i] == row);
        assert(use_shown(row, r@[i]));
    }
}

/// A pair of sizes is read on both sides of its slash, each on its own.
pub proof fn law_pairs_are_read(a: Seq<char>, b: Seq<char>, p: SizePair)
    requires
        pair_read(a + seq!['/'] + b, p),
        !a.contains('/'),
        !b.contains('/'),
    ensures
        docker::size_read(text::trimmed(a), p.left),
        docker::size_read(text::trimmed(b), p.right),
{
    text::lemma_split_between(a, b, '/');
    text::law_text_without_separator_is_one_piece(a, '/');
    text::law_text_without_separator_is_one_piece(b, '/');
    assert(seq![a] + seq![b] =~= seq![a, b]);
}

}
