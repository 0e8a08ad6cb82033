//! The command line: flags, and the version and help texts.
use vstd::prelude::*;
use crate::ansi::{c, colored};
use crate::text::{copy_text, same_text, texts};

verus! {

/// What the listing was asked for.
#[derive(Debug, Clone, Copy, PartialEq, Eq, Structural)]
pub struct Args {
    /// List only the running containers.
    pub running: bool,
    /// Show container ids in full.
    pub no_trunc: bool,
}

/// What the command line asks the program to do.
#[derive(Debug, Clone, Copy, PartialEq, Eq, Structural)]
pub enum Command {
    /// List containers.
    Run(Args),
    /// Print the version and stop.
    Version,
    /// Print the help and stop.
    Help,
}

pub open spec fn is_running_flag(a: Seq<char>) -> bool {
    a == "--running"@ || a == "-r"@
}

pub open spec fn is_no_trunc_flag(a: Seq<char>) -> bool {
    a == "--no-trunc"@
}

pub open spec fn is_version_flag(a: Seq<char>) -> bool {
    a == "--version"@ || a == "-v"@
}

pub open spec fn is_help_flag(a: Seq<char>) -> bool {
    a == "--help"@ || a == "-h"@
}

/// `cmd` with the listing flags `running` and `no_trunc` added.
pub open spec fn with_flags(running: bool, no_trunc: bool, cmd: Command) -> Command {
    match cmd {
        Command::Run(a) => Command::Run(
            Args { running: running || a.running, no_trunc: no_trunc || a.no_trunc },
        ),
        other => other,
    }
}

/// What the arguments `args` ask for: the first version or help flag stops
/// the reading; before it, the listing flags add up; other arguments are
/// ignored.
pub open spec fn command_of(args: Seq<Seq<char>>) -> Command
    decreases args.len(),
{
    if args.len() == 0 {
        Command::Run(Args { running: false, no_trunc: false })
    } else if is_version_flag(args[0]) {
        Command::Version
    } else if is_help_flag(args[0]) {
        Command::Help
    } else {
        with_flags(is_running_flag(args[0]), is_no_trunc_flag(args[0]), command_of(args.drop_first()))
    }
}

/// Reads the command line arguments (the program name left out).
pub fn parse_args(args: &[String]) -> (res: Command)
    ensures
        res == command_of(args@.map_values(|a: String| a@)),
{
    let ghost all = args@.map_values(|a: String| a@);
    let mut running = false;
    let mut no_trunc = false;
    let mut i: usize = 0;
    assert(all.skip(0) =~= all);
    while i < args.len()
        invariant
            all == args@.map_values(|a: String| a@),
            i <= args@.len(),
            command_of(all) == with_flags(running, no_trunc, command_of(all.skip(i as int))),
        decreases args.len() - i,
    {
        let a: &str = args[i].as_str();
        assert(all.skip(i as int)[0] == a@);
        assert(all.skip(i as int).drop_first() =~= all.skip(i + 1));
        if same_text(a, "--version") || same_text(a, "-v") {
            return Command::Version;
        }
        if same_text(a, "--help") || same_text(a, "-h") {
            return Command::Help;
        }
        if same_text(a, "--running") || same_text(a, "-r") {
            running = true;
        }
        if same_text(a, "--no-trunc") {
            no_trunc = true;
        }
        i = i + 1;
    }
    assert(all.skip(i as int) =~= Seq::<Seq<char>>::empty());
    Command::Run(Args { running, no_trunc })
}

/// The two lines of the version banner for program version `version`.
pub open spec fn version_text(version: Seq<char>) -> Seq<Seq<char>> {
    seq![
        colored("dof"@, 242, 205, 205) + " - v"@ + colored(version, 243, 139, 168),
        colored("Docker Usage Utility"@, 180, 190, 254) + " - "@ + colored(
            "A better 'docker ps' alternative"@,
            249,
            226,
            175,
        ),
    ]
}

/// The version banner, line by line.
pub fn version_lines(version: &str) -> (res: Vec<String>)
    ensures
        texts(res@) == version_text(version@),
{
    let mut first = c("dof", 242, 205, 205);
    first.append(" - v");
    let v = c(version, 243, 139, 168);
    first.append(v.as_str());
    let mut second = c("Docker Usage Utility", 180, 190, 254);
    second.append(" - ");
    let t = c("A better 'docker ps' alternative", 249, 226, 175);
    second.append(t.as_str());
    let mut res: Vec<String> = Vec::new();
    res.push(first);
    res.push(second);
    assert(texts(res@) =~= version_text(version@));
    res
}

/// One line of the options list: the flag, a gap, and what it does.
pub open spec fn option_line(flag: Seq<char>, gap: Seq<char>, what: Seq<char>) -> Seq<char> {
    "    "@ + colored(flag, 166, 227, 161) + gap + colored(what, 205, 214, 244)
}

fn option_text(flag: &str, gap: &str, what: &str) -> (res: String)
    ensures
        res@ == option_line(flag@, gap@, what@),
{
    let mut line = copy_text("    ");
    let f = c(flag, 166, 227, 161);
    line.append(f.as_str());
    line.append(gap);
    let w = c(what, 205, 214, 244);
    line.append(w.as_str());
    line
}

/// The help text for program version `version`, line by line.
pub open spec fn help_text(version: Seq<char>) -> Seq<Seq<char>> {
    version_text(version) + seq![
        seq![],
        colored("USAGE:"@, 203, 166, 247),
        "    dof [OPTIONS]"@,
        seq![],
        colored("OPTIONS:"@, 203, 166, 247),
        option_line("--running"@, ", -r       "@, "Show only running containers"@),
        option_line("--no-trunc"@, "           "@, "Show full container IDs without truncation"@),
        option_line("--version"@, ", -v       "@, "Print version information"@),
        option_line("--help"@, ", -h       "@, "Print help information"@),
        seq![],
        colored("EXAMPLES:"@, 203, 166, 247),
        "    dof              # List all containers"@,
        "    dof -r           # List only running containers"@,
        "    dof --no-trunc   # Show full container IDs"@,
    ]
}

/// The help text, line by line.
pub fn help_lines(version: &str) -> (res: Vec<String>)
    ensures
        texts(res@) == help_text(version@),
{
    let mut res = version_lines(version);
    let ghost head = texts(res@);
    res.push(String::new());
    res.push(c("USAGE:", 203, 166, 247));
    res.push(copy_text("    dof [OPTIONS]"));
    res.push(String::new());
    res.push(c("OPTIONS:", 203, 166, 247));
    res.push(option_text("--running", ", -r       ", "Show only running containers"));
    res.push(
        option_text("--no-trunc", "           ", "Show full container IDs without truncation"),
    );
    res.push(option_text("--version", ", -v       ", "Print version information"));
    res.push(option_text("--help", ", -h       ", "Print help information"));
    res.push(String::new());
    res.push(c("EXAMPLES:", 203, 166, 247));
    res.push(copy_text("    dof              # List all containers"));
    res.push(copy_text("    dof -r           # List only running containers"));
    res.push(copy_text("    dof --no-trunc   # Show full container IDs"));
    assert(texts(res@) =~= help_text(version@));
    res
}

/// What is printed when there is no container to list.
pub open spec fn empty_listing(running: bool) -> Seq<char> {
    if running {
        "No running containers found."@
    } else {
        "No containers found."@
    }
}

/// The message for an empty listing.
pub fn no_containers_message(running: bool) -> (res: String)
    ensures
        res@ == empty_listing(running),
{
    if running {
        copy_text("No running containers found.")
    } else {
        copy_text("No containers found.")
    }
}

} // verus!
