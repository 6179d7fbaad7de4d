//! Starting the other half of CastScreen: which program a role runs, where
//! its executable is looked for, and how the launcher reads its command line.
use vstd::prelude::*;

verus! {

/// The three CastScreen programs.
#[derive(Clone, Copy, Debug, PartialEq, Eq, Structural)]
pub enum LaunchRole {
    /// The gaming PC: capture, encode, send.
    Sender,
    /// The streaming laptop: receive, preview, play.
    Receiver,
    /// The mode picker.
    Launcher,
}

/// The launcher's executable name.
pub const LAUNCHER_BIN: &'static str = "CastScreen";
pub const SENDER_BIN: &'static str = "castscreen-sender";
pub const RECEIVER_BIN: &'static str = "castscreen-receiver";

pub open spec fn spec_binary_name(role: LaunchRole) -> Seq<char> {
    match role {
        LaunchRole::Sender => "castscreen-sender"@,
        LaunchRole::Receiver => "castscreen-receiver"@,
        LaunchRole::Launcher => "CastScreen"@,
    }
}

pub open spec fn spec_package_name(role: LaunchRole) -> Seq<char> {
    match role {
        LaunchRole::Sender => "castscreen-sender"@,
        LaunchRole::Receiver => "castscreen-receiver"@,
        LaunchRole::Launcher => "castscreen-launcher"@,
    }
}

/// The executable name of a role's program, without extension.
pub fn binary_name(role: LaunchRole) -> (name: &'static str)
    ensures
        name@ == spec_binary_name(role),
{
    match role {
        LaunchRole::Sender => SENDER_BIN,
        LaunchRole::Receiver => RECEIVER_BIN,
        LaunchRole::Launcher => LAUNCHER_BIN,
    }
}

/// The package that builds a role's program, for `cargo run -p`.
pub fn package_name(role: LaunchRole) -> (name: &'static str)
    ensures
        name@ == spec_package_name(role),
{
    match role {
        LaunchRole::Sender => "castscreen-sender",
        LaunchRole::Receiver => "castscreen-receiver",
        LaunchRole::Launcher => "castscreen-launcher",
    }
}

/// The file name of a program's executable: its name with `.exe`.
pub fn executable_file_name(binary_name: &str) -> (file: String)
    ensures
        file@ == binary_name@ + ".exe"@,
{
    let mut file = String::from_str(binary_name);
    file.append(".exe");
    file
}

/// Where a sibling program's executable is looked for.
#[derive(Clone, Copy, Debug, PartialEq, Eq, Structural)]
pub enum BinaryLocation {
    /// Next to the running executable (the installed layout, and a build's
    /// output directory).
    BesideExecutable,
    /// `../release` from the running executable's directory.
    SiblingRelease,
    /// `../debug` from the running executable's directory.
    SiblingDebug,
    /// `target/release` under the working directory.
    WorkspaceRelease,
    /// `target/debug` under the working directory.
    WorkspaceDebug,
}

/// The places to look, in order; those relative to the running executable
/// only when its directory is known.
pub open spec fn spec_search_order(exe_dir_known: bool) -> Seq<BinaryLocation> {
    if exe_dir_known {
        seq![
            BinaryLocation::BesideExecutable,
            BinaryLocation::SiblingRelease,
            BinaryLocation::SiblingDebug,
            BinaryLocation::WorkspaceRelease,
            BinaryLocation::WorkspaceDebug,
        ]
    } else {
        seq![BinaryLocation::WorkspaceRelease, BinaryLocation::WorkspaceDebug]
    }
}

/// The places to look for a sibling executable, in the order they are
/// tried; the first that exists is started.
pub fn search_order(exe_dir_known: bool) -> (order: Vec<BinaryLocation>)
    ensures
        order@ == spec_search_order(exe_dir_known),
{
    let mut order: Vec<BinaryLocation> = Vec::new();
    if exe_dir_known {
        order.push(BinaryLocation::BesideExecutable);
        order.push(BinaryLocation::SiblingRelease);
        order.push(BinaryLocation::SiblingDebug);
    }
    order.push(BinaryLocation::WorkspaceRelease);
    order.push(BinaryLocation::WorkspaceDebug);
    proof {
        assert(order@ =~= spec_search_order(exe_dir_known));
    }
    order
}

/// The index of the first `true` in `found` from `i` on; -1 when there is
/// none.
pub open spec fn first_true(found: Seq<bool>, i: int) -> int
    decreases found.len() - i,
{
    if i < 0 || i >= found.len() {
        -1
    } else if found[i] {
        i
    } else {
        first_true(found, i + 1)
    }
}

/// Picks where to start a sibling program from: the first place of the
/// search order at which the executable was found (`found[k]` says whether
/// it exists at `order[k]`); nothing when it exists at none of them.
pub fn first_found(order: &Vec<BinaryLocation>, found: &Vec<bool>) -> (r: Option<BinaryLocation>)
    requires
        order@.len() == found@.len(),
    ensures
        r == (if first_true(found@, 0) < 0 {
            None
        } else {
            Some(order@[first_true(found@, 0)])
        }),
{
    let mut i: usize = 0;
    while i < found.len()
        invariant
            i <= found@.len(),
            order@.len() == found@.len(),
            first_true(found@, 0) == first_true(found@, i as int),
        decreases found@.len() - i,
    {
        if found[i] {
            return Some(order[i]);
        }
        i += 1;
    }
    None
}

pub open spec fn spec_cargo_args(package: Seq<char>, release: bool) -> Seq<Seq<char>> {
    let base = seq!["run"@, "-p"@, package];
    if release { base.push("--release"@) } else { base }
}

/// The `cargo` arguments that build and start a package when no executable
/// was found: `run -p <package>`, and `--release` from a release build.
pub fn cargo_args(package: &str, release: bool) -> (args: Vec<String>)
    ensures
        args@.map_values(|a: String| a@) == spec_cargo_args(package@, release),
{
    let mut args: Vec<String> = Vec::new();
    args.push(String::from_str("run"));
    args.push(String::from_str("-p"));
    args.push(String::from_str(package));
    if release {
        args.push(String::from_str("--release"));
    }
    proof {
        assert(args@.map_values(|a: String| a@) =~= spec_cargo_args(package@, release));
    }
    args
}

/// What the launcher does for its command line.
#[derive(Clone, Copy, Debug, PartialEq, Eq, Structural)]
pub enum LaunchMode {
    /// Start the sender at once (`--sender` or `-s`).
    Sender,
    /// Start the receiver at once (`--receiver` or `-r`).
    Receiver,
    /// Show the mode picker.
    Picker,
}

pub open spec fn names_sender(arg: Seq<char>) -> bool {
    arg == "--sender"@ || arg == "-s"@
}

pub open spec fn names_receiver(arg: Seq<char>) -> bool {
    arg == "--receiver"@ || arg == "-r"@
}

/// The sender when any argument names it, else the receiver when any
/// argument names it, else the picker.
pub open spec fn spec_launch_mode(args: Seq<String>) -> LaunchMode {
    if exists|i: int| 0 <= i < args.len() && names_sender(#[trigger] args[i]@) {
        LaunchMode::Sender
    } else if exists|i: int| 0 <= i < args.len() && names_receiver(#[trigger] args[i]@) {
        LaunchMode::Receiver
    } else {
        LaunchMode::Picker
    }
}

/// Reads the launcher's command line.
pub fn launch_mode(args: &Vec<String>) -> (mode: LaunchMode)
    ensures
        mode == spec_launch_mode(args@),
{
    let long_s = String::from_str("--sender");
    let short_s = String::from_str("-s");
    let long_r = String::from_str("--receiver");
    let short_r = String::from_str("-r");
    let mut i: usize = 0;
    while i < args.len()
        invariant
            i <= args@.len(),
            long_s@ == "--sender"@,
            short_s@ == "-s"@,
            forall|k: int| 0 <= k < i ==> !names_sender(#[trigger] args@[k]@),
        decreases args@.len() - i,
    {
        if args[i] == long_s || args[i] == short_s {
            return LaunchMode::Sender;
        }
        i += 1;
    }
    let mut j: usize = 0;
    while j < args.len()
        invariant
            j <= args@.len(),
            long_r@ == "--receiver"@,
            short_r@ == "-r"@,
            forall|k: int| 0 <= k < args@.len() ==> !names_sender(#[trigger] args@[k]@),
            forall|k: int| 0 <= k < j ==> !names_receiver(#[trigger] args@[k]@),
        decreases args@.len() - j,
    {
        if args[j] == long_r || args[j] == short_r {
            return LaunchMode::Receiver;
        }
        j += 1;
    }
    LaunchMode::Picker
}

} // verus!
