use dof::ansi::{c, cbg};
use dof::format::{
    colorize_ports, format_health, format_id, format_names, format_ports, format_status,
    human_bytes, PortMapping,
};

#[test]
fn c_wraps_text_in_foreground_color() {
    assert_eq!(c("x", 1, 2, 3), "\x1b[38;2;1;2;3mx\x1b[0m");
    assert_eq!(c("", 0, 255, 10), "\x1b[38;2;0;255;10m\x1b[0m");
}

#[test]
fn cbg_sets_bold_background_and_foreground() {
    assert_eq!(
        cbg("Stopped", 17, 17, 27, 243, 139, 168),
        "\x1b[1m\x1b[48;2;243;139;168m\x1b[38;2;17;17;27mStopped\x1b[0m"
    );
}

#[test]
fn format_id_truncates_to_twelve_characters() {
    let id = Some("0123456789abcdef".to_string());
    assert_eq!(format_id(&id, false), "0123456789ab");
    assert_eq!(format_id(&id, true), "0123456789abcdef");
}

#[test]
fn format_id_keeps_short_ids_and_marks_missing_ones() {
    assert_eq!(format_id(&Some("abc".to_string()), false), "abc");
    assert_eq!(format_id(&None, false), "<none>");
    assert_eq!(format_id(&None, true), "<none>");
}

#[test]
fn format_id_counts_characters_not_bytes() {
    let id = Some("ééééééééééééé".to_string());
    assert_eq!(format_id(&id, false), "éééééééééééé");
}

#[test]
fn format_names_strips_slashes_and_joins() {
    let names = Some(vec!["/web".to_string(), "//db".to_string(), "cache".to_string()]);
    assert_eq!(format_names(&names), "web, db, cache");
}

#[test]
fn format_names_without_names() {
    assert_eq!(format_names(&Some(vec![])), "<none>");
    assert_eq!(format_names(&None), "<none>");
    assert_eq!(format_names(&Some(vec!["/".to_string()])), "");
}

#[test]
fn format_status_reads_running_state() {
    assert_eq!(format_status(&Some("running".to_string())), ("Running".to_string(), true));
    assert_eq!(format_status(&Some("RUNNING".to_string())), ("Running".to_string(), true));
    assert_eq!(format_status(&Some("exited".to_string())), ("Stopped".to_string(), false));
    assert_eq!(format_status(&Some("".to_string())), ("Stopped".to_string(), false));
    assert_eq!(format_status(&None), ("Stopped".to_string(), false));
}

#[test]
fn format_health_reads_status_text() {
    let dot = "\u{25cf}".to_string();
    assert_eq!(format_health(&Some("Up 2 hours (healthy)".to_string())), (dot.clone(), true, false));
    assert_eq!(format_health(&Some("Up 2 hours (HEALTHY)".to_string())), (dot.clone(), true, false));
    assert_eq!(format_health(&Some("Up 1 minute (unhealthy)".to_string())), (dot.clone(), false, true));
    assert_eq!(
        format_health(&Some("Up 3 seconds (health: Starting)".to_string())),
        (dot.clone(), false, false)
    );
    assert_eq!(format_health(&Some("Up 2 hours".to_string())), ("-".to_string(), false, false));
    assert_eq!(format_health(&None), ("-".to_string(), false, false));
}

#[test]
fn format_ports_lists_distinct_mappings() {
    let ports = Some(vec![
        PortMapping { private_port: 80, public_port: Some(8080) },
        PortMapping { private_port: 80, public_port: Some(8080) },
        PortMapping { private_port: 443, public_port: None },
        PortMapping { private_port: 80, public_port: Some(8080) },
    ]);
    assert_eq!(format_ports(&ports), "8080:80\n443");
}

#[test]
fn format_ports_without_ports() {
    assert_eq!(format_ports(&Some(vec![])), "<none>");
    assert_eq!(format_ports(&None), "<none>");
}

#[test]
fn colorize_ports_colors_each_number() {
    let y = |s: &str| c(s, 249, 226, 175);
    assert_eq!(colorize_ports("8080:80"), format!("{}:{}", y("8080"), y("80")));
    assert_eq!(colorize_ports("443\n53"), format!("{}\n{}", y("443"), y("53")));
    assert_eq!(colorize_ports(""), "");
}

#[test]
fn colorize_ports_leaves_text_without_digits() {
    assert_eq!(colorize_ports("<none>"), "<none>");
}

#[test]
fn human_bytes_picks_unit() {
    assert_eq!(human_bytes(0), "0B");
    assert_eq!(human_bytes(1), "1B");
    assert_eq!(human_bytes(1023), "1023B");
    assert_eq!(human_bytes(1024), "1K");
    assert_eq!(human_bytes(1535), "1K");
    assert_eq!(human_bytes(1536), "2K");
    assert_eq!(human_bytes(1048575), "1024K");
    assert_eq!(human_bytes(1048576), "1M");
    assert_eq!(human_bytes(1073741824), "1G");
    assert_eq!(human_bytes(1099511627776), "1T");
    assert_eq!(human_bytes(5 * 1099511627776 * 1024), "5120T");
    assert_eq!(human_bytes(u64::MAX), "16777216T");
}

#[test]
fn human_bytes_rounds_like_a_float_above_2_pow_53() {
    assert_eq!(human_bytes((1u64 << 54) + (1u64 << 39) - 1), "16385T");
    assert_eq!(human_bytes((1u64 << 53) + 1), "8192T");
}

fn float_size(bytes: u64) -> String {
    let units = ["B", "K", "M", "G", "T"];
    if bytes == 0 {
        return "0B".to_string();
    }
    let exp = (bytes as f64).log(1024.0).min(units.len() as f64 - 1.0) as usize;
    let val = (bytes as f64 / 1024f64.powi(exp as i32)).round() as u64;
    format!("{}{}", val, units[exp])
}

#[test]
fn human_bytes_agrees_with_float_arithmetic() {
    let mut samples: Vec<u64> = vec![u64::MAX, u64::MAX - 1, 1 << 63];
    for k in 0..64u32 {
        let p = 1u64 << k;
        samples.push(p);
        samples.push(p - 1);
        samples.push(p + 1);
        samples.push(p + p / 2);
        samples.push(p.saturating_add(p / 2 - 1));
    }
    for e in 1..5u32 {
        let unit = 1u64 << (10 * e);
        for m in [1u64, 2, 511, 512, 513, 1023, 1024] {
            samples.push(unit * m);
            samples.push(unit * m + unit / 2);
            samples.push(unit * m + unit / 2 - 1);
        }
    }
    let mut x: u64 = 0x9E37_79B9_7F4A_7C15;
    for _ in 0..2000 {
        x ^= x << 13;
        x ^= x >> 7;
        x ^= x << 17;
        samples.push(x >> (x % 64));
    }
    for b in samples {
        assert_eq!(human_bytes(b), float_size(b), "bytes = {}", b);
    }
}

#[test]
fn repeated_mappings_change_nothing() {
    let v4 = PortMapping { private_port: 80, public_port: Some(8080) };
    let v6 = PortMapping { private_port: 80, public_port: Some(8080) };
    let other = PortMapping { private_port: 53, public_port: None };
    let base = vec![v4, other];
    let mut twice = base.clone();
    twice.push(v6);
    twice.push(other);
    assert_eq!(format_ports(&Some(twice)), format_ports(&Some(base)));
}

#[test]
fn stripping_port_colors_gives_back_the_text() {
    for text in ["8080:80\n443", "<none>", "1", "a1b22c333", ""] {
        let shown = colorize_ports(text);
        let plain = shown.replace("\x1b[38;2;249;226;175m", "").replace("\x1b[0m", "");
        assert_eq!(plain, text);
    }
}

#[test]
fn coloring_splits_at_a_separator() {
    let (a, b) = ("8080:80", "443");
    assert_eq!(
        colorize_ports(&format!("{}\n{}", a, b)),
        format!("{}\n{}", colorize_ports(a), colorize_ports(b))
    );
}

#[test]
fn ascii_case_does_not_matter() {
    assert_eq!(format_status(&Some("RuNnInG".to_string())), ("Running".to_string(), true));
    assert_eq!(
        format_health(&Some("UP 2 HOURS (UNHEALTHY)".to_string())),
        format_health(&Some("up 2 hours (unhealthy)".to_string()))
    );
}
