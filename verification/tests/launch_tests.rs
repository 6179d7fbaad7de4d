use castscreen::launch::{
    binary_name, cargo_args, executable_file_name, first_found, launch_mode, package_name, search_order, BinaryLocation,
    LaunchMode, LaunchRole,
};

#[test]
fn roles_name_their_programs() {
    assert_eq!(binary_name(LaunchRole::Sender), "castscreen-sender");
    assert_eq!(binary_name(LaunchRole::Receiver), "castscreen-receiver");
    assert_eq!(binary_name(LaunchRole::Launcher), "CastScreen");
    assert_eq!(package_name(LaunchRole::Launcher), "castscreen-launcher");
    assert_eq!(executable_file_name("CastScreen"), "CastScreen.exe");
}

#[test]
fn executables_are_looked_for_beside_then_in_the_workspace() {
    assert_eq!(
        search_order(true),
        vec![
            BinaryLocation::BesideExecutable,
            BinaryLocation::SiblingRelease,
            BinaryLocation::SiblingDebug,
            BinaryLocation::WorkspaceRelease,
            BinaryLocation::WorkspaceDebug,
        ]
    );
    assert_eq!(search_order(false), vec![BinaryLocation::WorkspaceRelease, BinaryLocation::WorkspaceDebug]);
}

#[test]
fn cargo_fallback_builds_the_package() {
    assert_eq!(cargo_args("castscreen-sender", false), vec!["run", "-p", "castscreen-sender"]);
    assert_eq!(cargo_args("castscreen-receiver", true), vec!["run", "-p", "castscreen-receiver", "--release"]);
}

#[test]
fn launcher_command_line_picks_a_mode() {
    let args = |v: &[&str]| v.iter().map(|s| s.to_string()).collect::<Vec<String>>();
    assert_eq!(launch_mode(&args(&["CastScreen.exe"])), LaunchMode::Picker);
    assert_eq!(launch_mode(&args(&["CastScreen.exe", "-r"])), LaunchMode::Receiver);
    assert_eq!(launch_mode(&args(&["CastScreen.exe", "--receiver", "--sender"])), LaunchMode::Sender);
    assert_eq!(launch_mode(&args(&["x", "-s"])), LaunchMode::Sender);
    assert_eq!(launch_mode(&args(&["x", "--Sender"])), LaunchMode::Picker);
}

#[test]
fn the_first_place_where_the_executable_exists_wins() {
    let order = search_order(true);
    assert_eq!(first_found(&order, &vec![false, false, true, true, false]), Some(BinaryLocation::SiblingDebug));
    assert_eq!(first_found(&order, &vec![true, true, true, true, true]), Some(BinaryLocation::BesideExecutable));
    assert_eq!(first_found(&order, &vec![false; 5]), None);
    let order = search_order(false);
    assert_eq!(first_found(&order, &vec![false, true]), Some(BinaryLocation::WorkspaceDebug));
}
