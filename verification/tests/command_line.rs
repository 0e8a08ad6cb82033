use dof::ansi::c;
use dof::cli::{help_lines, no_containers_message, parse_args, version_lines, Args, Command};

fn args(list: &[&str]) -> Vec<String> {
    list.iter().map(|s| s.to_string()).collect()
}

#[test]
fn parse_args_defaults() {
    assert_eq!(parse_args(&args(&[])), Command::Run(Args { running: false, no_trunc: false }));
    assert_eq!(parse_args(&args(&["--bogus"])), Command::Run(Args { running: false, no_trunc: false }));
}

#[test]
fn parse_args_listing_flags() {
    assert_eq!(parse_args(&args(&["-r", "--no-trunc"])), Command::Run(Args { running: true, no_trunc: true }));
    assert_eq!(parse_args(&args(&["--running"])), Command::Run(Args { running: true, no_trunc: false }));
}

#[test]
fn parse_args_first_exit_flag_wins() {
    assert_eq!(parse_args(&args(&["-r", "-h", "--version"])), Command::Help);
    assert_eq!(parse_args(&args(&["--version", "-h"])), Command::Version);
    assert_eq!(parse_args(&args(&["-v"])), Command::Version);
    assert_eq!(parse_args(&args(&["--help"])), Command::Help);
}

#[test]
fn version_banner() {
    let lines = version_lines("1.2.3");
    assert_eq!(lines.len(), 2);
    assert_eq!(lines[0], format!("{} - v{}", c("dof", 242, 205, 205), c("1.2.3", 243, 139, 168)));
    assert_eq!(
        lines[1],
        format!(
            "{} - {}",
            c("Docker Usage Utility", 180, 190, 254),
            c("A better 'docker ps' alternative", 249, 226, 175)
        )
    );
}

#[test]
fn help_text_lines() {
    let lines = help_lines("0.1.0");
    assert_eq!(lines.len(), 16);
    assert_eq!(lines[2], "");
    assert_eq!(lines[4], "    dof [OPTIONS]");
    assert_eq!(
        lines[7],
        format!("    {}, -r       {}", c("--running", 166, 227, 161), c("Show only running containers", 205, 214, 244))
    );
    assert_eq!(
        lines[8],
        format!(
            "    {}           {}",
            c("--no-trunc", 166, 227, 161),
            c("Show full container IDs without truncation", 205, 214, 244)
        )
    );
    assert_eq!(lines[15], "    dof --no-trunc   # Show full container IDs");
}

#[test]
fn empty_listing_messages() {
    assert_eq!(no_containers_message(true), "No running containers found.");
    assert_eq!(no_containers_message(false), "No containers found.");
}
