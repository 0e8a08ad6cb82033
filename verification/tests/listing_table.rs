use dof::ansi::{c, cbg};
use dof::cgroup::CgroupMatch;
use dof::cli::Args;
use dof::format::PortMapping;
use dof::listing::{build_table, container_row, running_ids, table_rows, ContainerRow, ContainerStats};
use dof::stats::{docker_memory_text, memory_text, stats_source, StatsSource};

fn row(id: Option<&str>, state: Option<&str>, status: Option<&str>) -> ContainerRow {
    ContainerRow {
        id: id.map(|s| s.to_string()),
        names: Some(vec!["/web".to_string()]),
        state: state.map(|s| s.to_string()),
        status: status.map(|s| s.to_string()),
        ports: Some(vec![PortMapping { private_port: 80, public_port: Some(8080) }]),
    }
}

#[test]
fn running_ids_keeps_running_containers_with_ids() {
    let rows = vec![
        row(Some("a"), Some("running"), None),
        row(Some("b"), Some("exited"), None),
        row(None, Some("running"), None),
        row(Some("d"), Some("Running"), None),
    ];
    assert_eq!(running_ids(&rows), vec!["a".to_string(), "d".to_string()]);
}

#[test]
fn memory_text_uses_system_memory_without_limit() {
    assert_eq!(memory_text(1024, u64::MAX, 2048), "1K/2K");
    assert_eq!(memory_text(1024, 4096, 2048), "1K/4K");
    assert_eq!(docker_memory_text(None, None, 1024), "0B/1K");
    assert_eq!(docker_memory_text(Some(2048), Some(1 << 30), 1), "2K/1G");
}

#[test]
fn stats_source_decisions() {
    let measured = vec!["a".to_string()];
    let mapped = vec![CgroupMatch { id: "a".to_string(), entry: 0 }, CgroupMatch { id: "b".to_string(), entry: 1 }];
    assert_eq!(stats_source("a", &measured, &mapped), StatsSource::Cgroup);
    assert_eq!(stats_source("b", &measured, &mapped), StatsSource::CgroupFailed);
    assert_eq!(stats_source("c", &measured, &mapped), StatsSource::DockerApi);
}

#[test]
fn row_of_a_measured_running_container() {
    let stats = vec![ContainerStats { id: "0123456789abcdef".to_string(), cpu: "1.50%".to_string(), memory: "1K/2K".to_string() }];
    let cells = container_row(&row(Some("0123456789abcdef"), Some("running"), Some("Up (healthy)")), &stats, false);
    assert_eq!(
        cells,
        vec![
            c("0123456789ab", 180, 190, 254),
            c("web", 148, 226, 213),
            c("1.50%", 166, 227, 161),
            c("1K/2K", 137, 180, 250),
            c("\u{25cf}", 166, 227, 161),
            c("Running", 166, 227, 161),
            c(&format!("{}:{}", c("8080", 249, 226, 175), c("80", 249, 226, 175)), 205, 214, 244),
        ]
    );
}

#[test]
fn row_of_an_unmeasured_containers() {
    let err = c("   ERR   ", 243, 139, 168);
    let running = container_row(&row(Some("x"), Some("running"), Some("Up (health: starting)")), &[], true);
    assert_eq!(running[2], err);
    assert_eq!(running[3], c(&err, 137, 180, 250));
    assert_eq!(running[4], c("\u{25cf}", 249, 226, 175));
    let stopped = container_row(&row(Some("x"), Some("exited"), Some("Exited (1)")), &[], true);
    assert_eq!(stopped[2], "-");
    assert_eq!(stopped[3], c("-", 137, 180, 250));
    assert_eq!(stopped[4], c("-", 108, 112, 134));
    assert_eq!(stopped[5], cbg("Stopped", 17, 17, 27, 243, 139, 168));
    let sick = container_row(&row(None, None, Some("Up (Unhealthy)")), &[], false);
    assert_eq!(sick[0], c("<none>", 180, 190, 254));
    assert_eq!(sick[4], c("\u{25cf}", 243, 139, 168));
}

#[test]
fn table_has_header_and_one_row_per_container() {
    let rows = vec![row(Some("a"), Some("running"), None), row(Some("b"), Some("exited"), None)];
    let args = Args { running: false, no_trunc: false };
    let cells = table_rows(&rows, &[], &args);
    assert_eq!(cells.len(), 3);
    assert_eq!(cells[0][0], c("ID", 203, 166, 247));
    assert_eq!(cells[0][6], c("Ports", 203, 166, 247));
    let table = build_table(&rows, &[], &args);
    let records: Vec<Vec<String>> = tabled::builder::Builder::from(table).into();
    assert_eq!(records, cells);
}

#[test]
fn table_renders_cells() {
    let rows = vec![row(Some("a"), Some("running"), None)];
    let args = Args { running: false, no_trunc: false };
    let shown = build_table(&rows, &[], &args).to_string();
    assert!(shown.contains(&c("Running", 166, 227, 161)));
    assert!(shown.starts_with('╭'));
}
