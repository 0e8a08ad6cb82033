use dof::cgroup::{
    build_cgroup_map, cgroup_container_id, cgroup_usage, cpu_max_fields, find_cgroup_dirs,
    parse_cpu_usage_usec, parse_mem_total_kb, parse_memory_current, parse_memory_limit,
    resolve_cgroup, system_memory_bytes, CgroupDir, CgroupUsage,
};

#[test]
fn cpu_usage_from_cpu_stat() {
    let text = "usage_usec 12345\nuser_usec 100\nsystem_usec 50\n";
    assert_eq!(parse_cpu_usage_usec(text), Some(12345));
}

#[test]
fn cpu_usage_takes_first_usage_line() {
    assert_eq!(parse_cpu_usage_usec("user_usec 5\nusage_usec abc\nusage_usec 7\n"), None);
    assert_eq!(parse_cpu_usage_usec("usage_usec  +42 \r\n"), Some(42));
    assert_eq!(parse_cpu_usage_usec("user_usec 5\n"), None);
    assert_eq!(parse_cpu_usage_usec(""), None);
    assert_eq!(parse_cpu_usage_usec("usage_usec\t9\n"), None);
}

#[test]
fn memory_current_parses_trimmed_number() {
    assert_eq!(parse_memory_current("1048576\n"), Some(1048576));
    assert_eq!(parse_memory_current("  7 \t\n"), Some(7));
    assert_eq!(parse_memory_current(""), None);
    assert_eq!(parse_memory_current("-1"), None);
    assert_eq!(parse_memory_current("+"), None);
    assert_eq!(parse_memory_current("18446744073709551615"), Some(u64::MAX));
    assert_eq!(parse_memory_current("18446744073709551616"), None);
    assert_eq!(parse_memory_current("0012"), Some(12));
    assert_eq!(parse_memory_current("1 2"), None);
}

#[test]
fn memory_limit_reads_max_as_unlimited() {
    assert_eq!(parse_memory_limit("max\n"), Some(u64::MAX));
    assert_eq!(parse_memory_limit("536870912\n"), Some(536870912));
    assert_eq!(parse_memory_limit("MAX\n"), None);
}

#[test]
fn cpu_max_fields_split() {
    assert_eq!(cpu_max_fields("max 100000\n"), None);
    assert_eq!(
        cpu_max_fields("50000 100000\n"),
        Some(("50000".to_string(), "100000".to_string()))
    );
    assert_eq!(cpu_max_fields("  1.5\t 2 3"), Some(("1.5".to_string(), "2".to_string())));
    assert_eq!(cpu_max_fields("50000"), None);
    assert_eq!(cpu_max_fields(""), None);
}

#[test]
fn usage_needs_all_three_files() {
    assert_eq!(
        cgroup_usage("usage_usec 10\n", "20\n", "max\n"),
        Some(CgroupUsage { cpu_usage_usec: 10, memory_bytes: 20, memory_limit: u64::MAX })
    );
    assert_eq!(cgroup_usage("usage_usec 10\n", "x\n", "max\n"), None);
}

#[test]
fn mem_total_from_meminfo() {
    let meminfo = "MemTotal:       16318736 kB\nMemFree:         1234 kB\n";
    assert_eq!(parse_mem_total_kb(meminfo), Some(16318736));
    assert_eq!(system_memory_bytes(meminfo), 16318736 * 1024);
    assert_eq!(system_memory_bytes("MemFree: 1 kB\n"), u64::MAX);
    assert_eq!(parse_mem_total_kb("MemTotal: kB\nMemTotal: 5 kB\n"), Some(5));
}

#[test]
fn container_id_from_directory_name() {
    assert_eq!(cgroup_container_id("docker-abc123.scope"), Some("abc123".to_string()));
    assert_eq!(cgroup_container_id("docker-.scope"), Some("".to_string()));
    assert_eq!(cgroup_container_id("docker-abc123"), None);
    assert_eq!(cgroup_container_id("init.scope"), None);
    assert_eq!(cgroup_container_id("docker.scope"), None);
}

fn names(list: &[&str]) -> Vec<String> {
    list.iter().map(|s| s.to_string()).collect()
}

#[test]
fn find_cgroup_dirs_keeps_container_directories() {
    let dirs = find_cgroup_dirs(&names(&["docker-aa.scope", "init.scope", "docker-bb.scope"]));
    let got: Vec<(String, usize)> = dirs.into_iter().map(|d| (d.id, d.entry)).collect();
    assert_eq!(got, vec![("aa".to_string(), 0), ("bb".to_string(), 2)]);
}

#[test]
fn find_cgroup_dirs_keeps_last_entry_of_an_id() {
    let dirs = find_cgroup_dirs(&names(&["docker-aa.scope", "docker-aa.scope"]));
    let got: Vec<(String, usize)> = dirs.into_iter().map(|d| (d.id, d.entry)).collect();
    assert_eq!(got, vec![("aa".to_string(), 1)]);
}

fn dir(id: &str, entry: usize) -> CgroupDir {
    CgroupDir { id: id.to_string(), entry }
}

#[test]
fn build_cgroup_map_matches_full_and_short_ids() {
    let dirs = vec![dir("aa11", 0), dir("bb22", 1)];
    let got: Vec<(String, usize)> = build_cgroup_map(&["aa11", "bb", "zz", "bb"], &dirs)
        .into_iter()
        .map(|m| (m.id, m.entry))
        .collect();
    assert_eq!(got, vec![("aa11".to_string(), 0), ("bb".to_string(), 1)]);
}

#[test]
fn exact_id_wins_over_prefix() {
    let dirs = vec![dir("abc1", 0), dir("abc", 1)];
    assert_eq!(resolve_cgroup("abc", &dirs), Some(1));
    assert_eq!(resolve_cgroup("ab", &dirs), Some(0));
    assert_eq!(resolve_cgroup("abd", &dirs), None);
}

#[test]
fn build_cgroup_map_ignores_order_and_repetition() {
    let dirs = vec![dir("aa11", 0), dir("bb22", 1), dir("cc33", 2)];
    let mut first: Vec<(String, usize)> = build_cgroup_map(&["aa", "cc33", "zz"], &dirs)
        .into_iter()
        .map(|m| (m.id, m.entry))
        .collect();
    let mut second: Vec<(String, usize)> = build_cgroup_map(&["zz", "cc33", "aa", "cc33"], &dirs)
        .into_iter()
        .map(|m| (m.id, m.entry))
        .collect();
    first.sort();
    second.sort();
    assert_eq!(first, second);
}
