//! The container table: one row of colored cells per container, laid out
//! by `tabled`.
use vstd::prelude::*;
use tabled::builder::Builder;
use tabled::Table;
use crate::ansi::{c, cbg, colored, colored_on};
use crate::cli::Args;
use crate::format::{
    colorize, colorize_ports, format_health, format_id, format_names, format_ports, health,
    id_cell, is_running_state, lower_status, lowered_status, names_cell, ports_cell,
    state_is_running, PortMapping,
};
use crate::text::{contains, contains_text, copy_text, same_text, texts};

verus! {

/// What the listing shows of one container.
#[derive(Debug)]
pub struct ContainerRow {
    pub id: Option<String>,
    pub names: Option<Vec<String>>,
    /// The container's state as Docker writes it (`running`, `exited`, ...).
    pub state: Option<String>,
    /// Docker's status text, e.g. `Up 2 hours (healthy)`.
    pub status: Option<String>,
    pub ports: Option<Vec<PortMapping>>,
}

/// The measured figures of one container, as text.
#[derive(Debug)]
pub struct ContainerStats {
    pub id: String,
    /// The CPU use, e.g. `12.50%`.
    pub cpu: String,
    /// The memory cell, e.g. `12M/2G`.
    pub memory: String,
}

/// The ids of the running containers, in listing order (containers without
/// an id are left out).
pub open spec fn running_ids_of(rows: Seq<ContainerRow>) -> Seq<Seq<char>>
    decreases rows.len(),
{
    if rows.len() == 0 {
        seq![]
    } else {
        running_ids_of(rows.drop_last()) + match rows.last().id {
            Some(id) => if is_running_state(rows.last().state) {
                seq![id@]
            } else {
                seq![]
            },
            None => seq![],
        }
    }
}

/// The ids of the running containers.
pub fn running_ids(rows: &[ContainerRow]) -> (res: Vec<String>)
    ensures
        texts(res@) == running_ids_of(rows@),
{
    let mut res: Vec<String> = Vec::new();
    let mut i: usize = 0;
    assert(texts(res@) =~= running_ids_of(rows@.take(0)));
    while i < rows.len()
        invariant
            i <= rows@.len(),
            texts(res@) == running_ids_of(rows@.take(i as int)),
        decreases rows.len() - i,
    {
        let row = &rows[i];
        assert(rows@.take(i + 1).drop_last() =~= rows@.take(i as int));
        assert(rows@.take(i + 1).last() == rows@[i as int]);
        match &row.id {
            Some(id) => {
                if state_is_running(&row.state) {
                    let ghost before = res@;
                    res.push(id.clone());
                    assert(texts(res@) =~= texts(before).push(id@));
                } else {
                    assert(texts(res@) =~= texts(res@) + Seq::<Seq<char>>::empty());
                }
            },
            None => {
                assert(texts(res@) =~= texts(res@) + Seq::<Seq<char>>::empty());
            },
        }
        i = i + 1;
    }
    assert(rows@.take(rows@.len() as int) =~= rows@);
    res
}

/// The figures measured for container `id`: the first entry for it.
pub open spec fn stats_for(stats: Seq<ContainerStats>, id: Seq<char>) -> Option<ContainerStats>
    decreases stats.len(),
{
    if stats.len() == 0 {
        None
    } else if stats[0].id@ == id {
        Some(stats[0])
    } else {
        stats_for(stats.drop_first(), id)
    }
}

/// The header row.
pub open spec fn header_cells() -> Seq<Seq<char>> {
    seq![
        colored("ID"@, 203, 166, 247),
        colored("Name"@, 203, 166, 247),
        colored("CPU"@, 203, 166, 247),
        colored("Memory"@, 203, 166, 247),
        colored("Health"@, 203, 166, 247),
        colored("Status"@, 203, 166, 247),
        colored("Ports"@, 203, 166, 247),
    ]
}

/// The text Docker gives for a container without an id.
pub open spec fn id_text(id: Option<String>) -> Seq<char> {
    match id {
        Some(s) => s@,
        None => seq![],
    }
}

/// The CPU and memory cells: the measured figures; `ERR` for a running
/// container without figures; `-` for a stopped one.
pub open spec fn usage_cells(stats: Option<ContainerStats>, running: bool) -> (
    Seq<char>,
    Seq<char>,
) {
    match stats {
        Some(st) => (colored(st.cpu@, 166, 227, 161), st.memory@),
        None => if running {
            (colored("   ERR   "@, 243, 139, 168), colored("   ERR   "@, 243, 139, 168))
        } else {
            ("-"@, "-"@)
        },
    }
}

/// The health cell: green when healthy, red when unhealthy, yellow while
/// starting, grey otherwise.
pub open spec fn health_cell(status: Option<String>) -> Seq<char> {
    let h = health(lowered_status(status));
    if h.1 {
        colored(h.0, 166, 227, 161)
    } else if h.2 {
        colored(h.0, 243, 139, 168)
    } else if contains_text(lowered_status(status), "starting"@) {
        colored(h.0, 249, 226, 175)
    } else {
        colored(h.0, 108, 112, 134)
    }
}

/// The status cell: `Running` in green, else `Stopped` in bold on red.
pub open spec fn status_cell(running: bool) -> Seq<char> {
    if running {
        colored("Running"@, 166, 227, 161)
    } else {
        colored_on("Stopped"@, 17, 17, 27, 243, 139, 168)
    }
}

/// The cells of the row of one container.
pub open spec fn row_cells(row: ContainerRow, stats: Seq<ContainerStats>, no_trunc: bool) -> Seq<
    Seq<char>,
> {
    let running = is_running_state(row.state);
    let usage = usage_cells(stats_for(stats, id_text(row.id)), running);
    seq![
        colored(id_cell(row.id, no_trunc), 180, 190, 254),
        colored(names_cell(row.names), 148, 226, 213),
        usage.0,
        colored(usage.1, 137, 180, 250),
        health_cell(row.status),
        status_cell(running),
        colored(colorize(ports_cell(row.ports)), 205, 214, 244),
    ]
}

/// The whole table: the header, then one row per container.
pub open spec fn table_cells(rows: Seq<ContainerRow>, stats: Seq<ContainerStats>, no_trunc: bool) -> Seq<
    Seq<Seq<char>>,
> {
    seq![header_cells()] + rows.map_values(|r: ContainerRow| row_cells(r, stats, no_trunc))
}

/// Finds the figures measured for container `id`.
pub fn find_stats<'a>(stats: &'a [ContainerStats], id: &str) -> (res: Option<&'a ContainerStats>)
    ensures
        match res {
            Some(st) => stats_for(stats@, id@) == Some(*st),
            None => stats_for(stats@, id@) is None,
        },
{
    let mut i: usize = 0;
    assert(stats@.skip(0) =~= stats@);
    while i < stats.len()
        invariant
            i <= stats@.len(),
            stats_for(stats@, id@) == stats_for(stats@.skip(i as int), id@),
        decreases stats.len() - i,
    {
        assert(stats@.skip(i as int)[0] == stats@[i as int]);
        assert(stats@.skip(i as int).drop_first() =~= stats@.skip(i + 1));
        if same_text(stats[i].id.as_str(), id) {
            return Some(&stats[i]);
        }
        i = i + 1;
    }
    None
}

/// The header row.
pub fn header_row() -> (res: Vec<String>)
    ensures
        texts(res@) == header_cells(),
{
    let mut res: Vec<String> = Vec::new();
    res.push(c("ID", 203, 166, 247));
    res.push(c("Name", 203, 166, 247));
    res.push(c("CPU", 203, 166, 247));
    res.push(c("Memory", 203, 166, 247));
    res.push(c("Health", 203, 166, 247));
    res.push(c("Status", 203, 166, 247));
    res.push(c("Ports", 203, 166, 247));
    assert(texts(res@) =~= header_cells());
    res
}

/// The cells of the row of one container.
pub fn container_row(row: &ContainerRow, stats: &[ContainerStats], no_trunc: bool) -> (res: Vec<
    String,
>)
    ensures
        texts(res@) == row_cells(*row, stats@, no_trunc),
{
    let id = match &row.id {
        Some(s) => s.clone(),
        None => String::new(),
    };
    let running = state_is_running(&row.state);
    let (cpu_cell, mem_text) = match find_stats(stats, id.as_str()) {
        Some(st) => (c(st.cpu.as_str(), 166, 227, 161), st.memory.clone()),
        None => if running {
            (c("   ERR   ", 243, 139, 168), c("   ERR   ", 243, 139, 168))
        } else {
            (copy_text("-"), copy_text("-"))
        },
    };
    let (symbol, healthy, unhealthy) = format_health(&row.status);
    let health_colored = if healthy {
        c(symbol.as_str(), 166, 227, 161)
    } else if unhealthy {
        c(symbol.as_str(), 243, 139, 168)
    } else {
        let lowered = lower_status(&row.status);
        if contains(lowered.as_str(), "starting") {
            c(symbol.as_str(), 249, 226, 175)
        } else {
            c(symbol.as_str(), 108, 112, 134)
        }
    };
    let status_colored = if running {
        c("Running", 166, 227, 161)
    } else {
        cbg("Stopped", 17, 17, 27, 243, 139, 168)
    };
    let ports = format_ports(&row.ports);
    let ports_colored = colorize_ports(ports.as_str());
    let mut res: Vec<String> = Vec::new();
    let id_shown = format_id(&row.id, no_trunc);
    res.push(c(id_shown.as_str(), 180, 190, 254));
    let names = format_names(&row.names);
    res.push(c(names.as_str(), 148, 226, 213));
    res.push(cpu_cell);
    res.push(c(mem_text.as_str(), 137, 180, 250));
    res.push(health_colored);
    res.push(status_colored);
    res.push(c(ports_colored.as_str(), 205, 214, 244));
    assert(texts(res@) =~= row_cells(*row, stats@, no_trunc));
    res
}

/// The rows of the table, header first.
pub fn table_rows(containers: &[ContainerRow], stats: &[ContainerStats], args: &Args) -> (res: Vec<
    Vec<String>,
>)
    ensures
        res@.len() == containers@.len() + 1,
        forall|k: int|
            0 <= k < res@.len() ==> texts(#[trigger] res@[k]@) == table_cells(
                containers@,
                stats@,
                args.no_trunc,
            )[k],
{
    let mut res: Vec<Vec<String>> = Vec::new();
    res.push(header_row());
    let mut i: usize = 0;
    while i < containers.len()
        invariant
            i <= containers@.len(),
            res@.len() == i + 1,
            forall|k: int|
                0 <= k < res@.len() ==> texts(#[trigger] res@[k]@) == table_cells(
                    containers@,
                    stats@,
                    args.no_trunc,
                )[k],
        decreases containers.len() - i,
    {
        let row = container_row(&containers[i], stats, args.no_trunc);
        res.push(row);
        i = i + 1;
    }
    res
}


#[verifier::external_type_specification]
#[verifier::external_body]
pub struct ExBuilder(Builder);

#[verifier::external_type_specification]
#[verifier::external_body]
pub struct ExTable(Table);

/// The records (rows of cell texts) that a `tabled` builder holds.
pub uninterp spec fn builder_records(b: Builder) -> Seq<Seq<Seq<char>>>;

/// The number of columns that a `tabled` builder has settled on.
pub uninterp spec fn builder_width(b: Builder) -> nat;

/// The records (rows of cell texts) that a `tabled` table holds.
pub uninterp spec fn table_records(t: Table) -> Seq<Seq<Seq<char>>>;

/// The layout that a `tabled` table is set to: whether its borders are
/// those of `Style::modern_rounded()`; the columns whose own horizontal
/// alignment is centered; and the padding of every cell, in spaces (left,
/// right, top, bottom).
pub uninterp spec fn table_layout(t: Table) -> (bool, Set<nat>, (nat, nat, nat, nat));

/// The layout of the container table: rounded borders, the Health and
/// Status columns centered, one space left and right of each cell.
pub open spec fn listing_layout() -> (bool, Set<nat>, (nat, nat, nat, nat)) {
    (true, set![4nat, 5nat], (1nat, 1nat, 0nat, 0nat))
}

/// `Builder::new`: a builder with no record and no column.
#[verifier::external_body]
fn new_builder() -> (res: Builder)
    ensures
        builder_records(res) == Seq::<Seq<Seq<char>>>::empty(),
        builder_width(res) == 0,
{
    Builder::new()
}

/// `Builder::push_record`: appends `row` as a record. Stated for a row as
/// wide as the builder, or for the first row (no wider builder before it),
/// where no cell is padded; what padding does otherwise is not stated.
#[verifier::external_body]
fn push_row(builder: &mut Builder, row: Vec<String>)
    requires
        builder_width(*old(builder)) == row@.len() || (builder_records(*old(builder)).len() == 0
            && builder_width(*old(builder)) <= row@.len()),
    ensures
        builder_records(*final(builder)) == builder_records(*old(builder)).push(texts(row@)),
        builder_width(*final(builder)) == row@.len(),
{
    builder.push_record(row);
}

/// `Builder::build`: a table that holds the builder's records, with the
/// default layout: ASCII borders, no column alignment of its own, one space
/// of padding left and right of each cell.
#[verifier::external_body]
fn build_from(builder: Builder) -> (res: Table)
    ensures
        table_records(res) == builder_records(builder),
        table_layout(res) == (false, Set::<nat>::empty(), (1nat, 1nat, 0nat, 0nat)),
{
    builder.build()
}

/// `Table::with(Style::modern_rounded())`: rounded box-drawing borders;
/// the records, alignments and padding stay as they are.
#[verifier::external_body]
fn style_rounded(table: &mut Table)
    ensures
        table_records(*final(table)) == table_records(*old(table)),
        table_layout(*final(table)) == (
            true,
            table_layout(*old(table)).1,
            table_layout(*old(table)).2,
        ),
{
    table.with(tabled::settings::Style::modern_rounded());
}

/// `Table::with(Modify::new(Columns::new(from..to)).with(Alignment::center()))`:
/// centers the columns `from..to`; the records, borders and padding stay
/// as they are.
#[verifier::external_body]
fn center_columns(table: &mut Table, from: usize, to: usize)
    requires
        from <= to,
    ensures
        table_records(*final(table)) == table_records(*old(table)),
        table_layout(*final(table)) == (
            table_layout(*old(table)).0,
            table_layout(*old(table)).1 + Set::new(|c: nat| from <= c < to),
            table_layout(*old(table)).2,
        ),
{
    table.with(
        tabled::settings::Modify::new(tabled::settings::object::Columns::new(from..to)).with(
            tabled::settings::Alignment::center(),
        ),
    );
}

/// `Table::with(Padding::new(left, right, top, bottom))`: sets the padding
/// of every cell; the records, borders and alignments stay as they are.
#[verifier::external_body]
fn pad_cells(table: &mut Table, left: usize, right: usize, top: usize, bottom: usize)
    ensures
        table_records(*final(table)) == table_records(*old(table)),
        table_layout(*final(table)) == (
            table_layout(*old(table)).0,
            table_layout(*old(table)).1,
            (left as nat, right as nat, top as nat, bottom as nat),
        ),
{
    table.with(tabled::settings::Padding::new(left, right, top, bottom));
}

/// The container table, ready to print: the header and one row per
/// container, with rounded borders, the Health and Status columns centered
/// and one space of padding left and right of each cell.
pub fn build_table(containers: &[ContainerRow], stats: &[ContainerStats], args: &Args) -> (res:
    Table)
    ensures
        table_records(res) == table_cells(containers@, stats@, args.no_trunc),
        table_layout(res) == listing_layout(),
{
    let mut rows = table_rows(containers, stats, args);
    let ghost all = table_cells(containers@, stats@, args.no_trunc);
    let mut builder = new_builder();
    let mut i: usize = 0;
    let n = rows.len();
    assert(all.take(0) =~= Seq::<Seq<Seq<char>>>::empty());
    while i < n
        invariant
            n == containers@.len() + 1,
            rows@.len() == n - i,
            all == table_cells(containers@, stats@, args.no_trunc),
            i <= n,
            forall|k: int| 0 <= k < n - i ==> texts(#[trigger] rows@[k]@) == all[k + i],
            builder_records(builder) == all.take(i as int),
            i == 0 ==> builder_width(builder) == 0,
            i > 0 ==> builder_width(builder) == 7,
        decreases n - i,
    {
        let ghost before = rows@;
        let row = rows.remove(0);
        assert(forall|k: int| 0 <= k < rows@.len() ==> rows@[k] == before[k + 1]);
        assert(texts(row@) == all[i as int]);
        assert(texts(row@).len() == 7);
        push_row(&mut builder, row);
        assert(all.take(i + 1) =~= all.take(i as int).push(all[i as int]));
        i = i + 1;
    }
    assert(all.take(n as int) =~= all);
    let mut table = build_from(builder);
    style_rounded(&mut table);
    center_columns(&mut table, 4, 5);
    center_columns(&mut table, 5, 6);
    pad_cells(&mut table, 1, 1, 0, 0);
    assert(table_layout(table).1 =~= set![4nat, 5nat]);
    table
}

} // verus!
