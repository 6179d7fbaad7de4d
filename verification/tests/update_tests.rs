use castscreen::release::ReleaseDecision;
use castscreen::release::{ReleaseAsset, ReleaseInfo};
use castscreen::update::{
    download_request, download_total, finish_check, installer_to_run, parse_content_length, phase_after_check,
    CheckEvent, DownloadAction, DownloadEvent, DownloadSession, UpdatePhase,
};

#[test]
fn check_verdicts_become_phases() {
    assert!(matches!(phase_after_check(ReleaseDecision::UpToDate), UpdatePhase::UpToDate));
    match phase_after_check(ReleaseDecision::MissingInstaller) {
        UpdatePhase::Error(m) => {
            assert_eq!(m, "Se encontró una nueva versión pero no contiene instalador ejecutable.")
        }
        other => panic!("unexpected {:?}", other),
    }
    let available = phase_after_check(ReleaseDecision::UpdateAvailable {
        version: "v0.3.0".to_string(),
        title: "t".to_string(),
        notes: "n".to_string(),
        download_url: "https://x/setup".to_string(),
        asset_size: 42,
    });
    assert_eq!(
        download_request(&available),
        Some(("v0.3.0".to_string(), "https://x/setup".to_string(), 42))
    );
}

#[test]
fn downloads_start_only_from_an_available_update() {
    assert_eq!(download_request(&UpdatePhase::Idle), None);
    assert_eq!(download_request(&UpdatePhase::Checking), None);
    let downloading =
        UpdatePhase::Downloading { version: "v1".to_string(), downloaded_bytes: 1, total_bytes: 2 };
    assert_eq!(download_request(&downloading), None);
}

#[test]
fn installer_runs_only_when_ready() {
    let ready = UpdatePhase::ReadyToInstall { version: "v1".to_string(), installer_path: "C:/t/x.exe".to_string() };
    assert_eq!(installer_to_run(&ready), Ok("C:/t/x.exe".to_string()));
    assert_eq!(
        installer_to_run(&UpdatePhase::UpToDate),
        Err("El instalador aún no está listo para ejecutar.".to_string())
    );
}

#[test]
fn content_length_parses_like_an_unsigned_integer() {
    assert_eq!(parse_content_length("0"), Some(0));
    assert_eq!(parse_content_length("12345"), Some(12345));
    assert_eq!(parse_content_length("+7"), Some(7));
    assert_eq!(parse_content_length("18446744073709551615"), Some(u64::MAX));
    assert_eq!(parse_content_length("18446744073709551616"), None);
    assert_eq!(parse_content_length("99999999999999999999x"), None);
    assert_eq!(parse_content_length(""), None);
    assert_eq!(parse_content_length("+"), None);
    assert_eq!(parse_content_length("-1"), None);
    assert_eq!(parse_content_length(" 5"), None);
    assert_eq!(parse_content_length("1_000"), None);
    for text in ["0", "42", "+42", "007", "18446744073709551615", "18446744073709551616", "", "+", "x1", "1x"] {
        assert_eq!(parse_content_length(text), text.parse::<u64>().ok(), "{text}");
    }
}

#[test]
fn download_total_prefers_the_server_length() {
    assert_eq!(download_total(Some("1000"), 5), 1000);
    assert_eq!(download_total(Some("bogus"), 5), 5);
    assert_eq!(download_total(None, 5), 5);
}

fn release(tag: &str, assets: &[&str]) -> ReleaseInfo {
    ReleaseInfo {
        tag_name: tag.to_string(),
        name: None,
        body: None,
        assets: assets
            .iter()
            .map(|n| ReleaseAsset { name: n.to_string(), browser_download_url: format!("https://x/{n}"), size: 9 })
            .collect(),
    }
}

#[test]
fn a_check_ends_in_exactly_one_phase() {
    match finish_check("0.2.0", CheckEvent::Unreachable("timed out".to_string())) {
        UpdatePhase::Error(m) => assert_eq!(m, "Error de conexión con GitHub: timed out"),
        other => panic!("unexpected {:?}", other),
    }
    match finish_check("0.2.0", CheckEvent::Undecodable("bad json".to_string())) {
        UpdatePhase::Error(m) => assert_eq!(m, "Error decodificando respuesta de GitHub: bad json"),
        other => panic!("unexpected {:?}", other),
    }
    assert!(matches!(finish_check("0.2.0", CheckEvent::Fetched(release("v0.2.0", &["a.exe"]))), UpdatePhase::UpToDate));
    match finish_check("0.2.0", CheckEvent::Fetched(release("v0.3.0", &["notes.txt"]))) {
        UpdatePhase::Error(m) => assert_eq!(m, "Se encontró una nueva versión pero no contiene instalador ejecutable."),
        other => panic!("unexpected {:?}", other),
    }
    match finish_check("0.2.0", CheckEvent::Fetched(release("v0.3.0", &["tool.exe", "CastScreen_Setup.exe"]))) {
        UpdatePhase::UpdateAvailable { version, title, notes, download_url, asset_size } => {
            assert_eq!(version, "v0.3.0");
            assert_eq!(title, "v0.3.0");
            assert_eq!(notes, "Actualización recomendada.");
            assert_eq!(download_url, "https://x/CastScreen_Setup.exe");
            assert_eq!(asset_size, 9);
        }
        other => panic!("unexpected {:?}", other),
    }
}

fn downloading(p: &Option<UpdatePhase>) -> (u64, u64) {
    match p {
        Some(UpdatePhase::Downloading { version, downloaded_bytes, total_bytes }) => {
            assert_eq!(version, "v0.3.0");
            (*downloaded_bytes, *total_bytes)
        }
        other => panic!("unexpected {:?}", other),
    }
}

#[test]
fn a_download_counts_up_and_ends_ready() {
    let mut s = DownloadSession::new("v0.3.0".to_string(), "C:/t/CastScreen_Setup_v0.3.0.exe".to_string(), 100);
    assert_eq!(downloading(&Some(s.progress())), (0, 100));
    assert!(matches!(s.step(DownloadEvent::Connected(Some("250".to_string()))), (None, DownloadAction::Continue)));
    let (p, a) = s.step(DownloadEvent::Received(200));
    assert_eq!((downloading(&p), a), ((200, 250), DownloadAction::Continue));
    let (p, _) = s.step(DownloadEvent::Received(50));
    assert_eq!(downloading(&p), (250, 250));
    assert_eq!(s.downloaded(), 250);
    match s.step(DownloadEvent::Finished) {
        (Some(UpdatePhase::ReadyToInstall { version, installer_path }), DownloadAction::Stop) => {
            assert_eq!(version, "v0.3.0");
            assert_eq!(installer_path, "C:/t/CastScreen_Setup_v0.3.0.exe");
        }
        other => panic!("unexpected {:?}", other),
    }
    // An ended download takes no more events.
    assert!(matches!(s.step(DownloadEvent::Received(5)), (None, DownloadAction::Stop)));
    assert_eq!(s.downloaded(), 250);
}

#[test]
fn a_download_without_a_usable_length_keeps_the_advertised_size() {
    let mut s = DownloadSession::new("v0.3.0".to_string(), "p".to_string(), 100);
    s.step(DownloadEvent::Connected(Some("lots".to_string())));
    assert_eq!(downloading(&s.step(DownloadEvent::Received(1)).0), (1, 100));
    let mut s = DownloadSession::new("v0.3.0".to_string(), "p".to_string(), 100);
    s.step(DownloadEvent::Connected(None));
    assert_eq!(downloading(&s.step(DownloadEvent::Received(7)).0), (7, 100));
}

#[test]
fn download_failures_end_in_an_error() {
    let cases = [
        (DownloadEvent::ConnectFailed("dns".to_string()), "Error iniciando descarga: dns", DownloadAction::Stop),
        (DownloadEvent::CreateFailed("denied".to_string()), "Error creando archivo temporal: denied", DownloadAction::Stop),
        (DownloadEvent::WriteFailed("disk full".to_string()), "Error escribiendo datos: disk full", DownloadAction::DiscardFile),
        (DownloadEvent::ReadFailed("reset".to_string()), "Descarga interrumpida: reset", DownloadAction::DiscardFile),
    ];
    for (event, text, action) in cases {
        let mut s = DownloadSession::new("v0.3.0".to_string(), "p".to_string(), 100);
        match s.step(event) {
            (Some(UpdatePhase::Error(m)), a) => {
                assert_eq!(m, text);
                assert_eq!(a, action);
            }
            other => panic!("unexpected {:?}", other),
        }
        assert!(matches!(s.step(DownloadEvent::Finished), (None, DownloadAction::Stop)));
    }
}
