use castscreen::release::{evaluate_release, installer_file_name, ReleaseAsset, ReleaseDecision, ReleaseInfo};

fn asset(name: &str, url: &str, size: u64) -> ReleaseAsset {
    ReleaseAsset { name: name.to_string(), browser_download_url: url.to_string(), size }
}

fn release(tag: &str, name: Option<&str>, body: Option<&str>, assets: Vec<ReleaseAsset>) -> ReleaseInfo {
    ReleaseInfo {
        tag_name: tag.to_string(),
        name: name.map(|s| s.to_string()),
        body: body.map(|s| s.to_string()),
        assets,
    }
}

#[test]
fn same_or_older_release_is_up_to_date() {
    let r = release("v0.2.0", None, None, vec![asset("CastScreen_Setup.exe", "u", 1)]);
    assert!(matches!(evaluate_release("0.2.0", &r), ReleaseDecision::UpToDate));
    let older = release("v0.1.9", None, None, vec![asset("CastScreen_Setup.exe", "u", 1)]);
    assert!(matches!(evaluate_release("0.2.0", &older), ReleaseDecision::UpToDate));
}

#[test]
fn newer_release_prefers_the_setup_installer() {
    let r = release(
        "v0.3.0",
        Some("CastScreen 0.3"),
        Some("Notas"),
        vec![
            asset("CastScreen-portable.exe", "https://x/portable", 10),
            asset("CastScreen_SETUP.exe", "https://x/setup", 20),
            asset("setup.zip", "https://x/zip", 30),
        ],
    );
    match evaluate_release("0.2.0", &r) {
        ReleaseDecision::UpdateAvailable { version, title, notes, download_url, asset_size } => {
            assert_eq!(version, "v0.3.0");
            assert_eq!(title, "CastScreen 0.3");
            assert_eq!(notes, "Notas");
            assert_eq!(download_url, "https://x/setup");
            assert_eq!(asset_size, 20);
        }
        other => panic!("unexpected {:?}", other),
    }
}

#[test]
fn newer_release_falls_back_to_any_executable_and_default_texts() {
    let r = release("V1.0.0", None, None, vec![asset("notes.txt", "t", 1), asset("app.exe", "https://x/app", 5)]);
    match evaluate_release("0.2.0", &r) {
        ReleaseDecision::UpdateAvailable { version, title, notes, download_url, asset_size } => {
            assert_eq!(version, "V1.0.0");
            assert_eq!(title, "V1.0.0");
            assert_eq!(notes, "Actualización recomendada.");
            assert_eq!(download_url, "https://x/app");
            assert_eq!(asset_size, 5);
        }
        other => panic!("unexpected {:?}", other),
    }
}

#[test]
fn newer_release_without_executable_is_reported() {
    let r = release("v9.0.0", None, None, vec![asset("setup.msi", "m", 1), asset("source.zip", "z", 2)]);
    assert!(matches!(evaluate_release("0.2.0", &r), ReleaseDecision::MissingInstaller));
}

#[test]
fn installer_file_name_sanitizes_separators() {
    assert_eq!(installer_file_name("v0.3.0"), "CastScreen_Setup_v0.3.0.exe");
    assert_eq!(installer_file_name("a/b\\c:d"), "CastScreen_Setup_a_b_c_d.exe");
    assert_eq!(installer_file_name(""), "CastScreen_Setup_.exe");
}
