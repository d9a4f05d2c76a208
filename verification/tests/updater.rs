use xemanh::updater::{
    check_worker_result, installer_file_name, release_from_body, release_from_info, Release, ReleaseAsset, ReleaseInfo,
    UpdateAction, UpdateEvent, UpdatePoll, Updater, WorkerResult,
};

const PREFIX: &str = "https://github.com/hoangphuctv/xemanh/releases/download/";

fn asset(name: &str, url: &str) -> ReleaseAsset {
    ReleaseAsset { name: Some(name.to_string()), url: Some(url.to_string()) }
}

#[test]
fn installer_name_holds_the_version() {
    assert_eq!(installer_file_name("1.2.3"), "xemanh-1.2.3-setup.exe");
}

#[test]
fn newer_release_with_installer_is_available() {
    let info = ReleaseInfo {
        tag_name: Some("vv1.3.0".to_string()),
        assets: Some(vec![
            asset("xemanh-1.3.0-setup.exe", "https://evil.example/xemanh-1.3.0-setup.exe"),
            ReleaseAsset { name: Some("xemanh-1.3.0-setup.exe".to_string()), url: None },
            asset("XEMANH-1.3.0-SETUP.EXE", &format!("{}v1.3.0/setup.exe", PREFIX)),
            asset("xemanh-1.3.0-setup.exe", &format!("{}v1.3.0/second.exe", PREFIX)),
        ]),
    };
    match release_from_info(&info, "1.2.0") {
        Ok(WorkerResult::Available(Release { version, installer_url })) => {
            assert_eq!(version, "1.3.0");
            assert_eq!(installer_url, format!("{}v1.3.0/setup.exe", PREFIX));
        }
        _ => panic!("expected an available release"),
    }
}

#[test]
fn release_not_newer_is_no_update() {
    let info = ReleaseInfo { tag_name: Some("v1.2.0".to_string()), assets: None };
    assert!(matches!(release_from_info(&info, "1.2.0"), Ok(WorkerResult::NoUpdate)));
    let info = ReleaseInfo { tag_name: None, assets: None };
    assert!(matches!(release_from_info(&info, "1.2.0"), Ok(WorkerResult::NoUpdate)));
    let info = ReleaseInfo { tag_name: Some("vvv".to_string()), assets: None };
    assert!(matches!(release_from_info(&info, "1.2.0"), Ok(WorkerResult::NoUpdate)));
}

#[test]
fn newer_release_without_installer_is_an_error() {
    let expected = "Không tìm thấy bộ cài Windows cho bản cập nhật mới".to_string();
    let info = ReleaseInfo { tag_name: Some("2.0".to_string()), assets: None };
    assert!(matches!(release_from_info(&info, "1.0"), Err(e) if e == expected));
    let info = ReleaseInfo {
        tag_name: Some("2.0".to_string()),
        assets: Some(vec![asset("xemanh-2.0-setup.msi", &format!("{}a", PREFIX))]),
    };
    assert!(matches!(release_from_info(&info, "1.0"), Err(e) if e == expected));
}

#[test]
fn release_body_is_parsed_from_json() {
    let body = format!(
        "{{\"tag_name\": \"v9.0.0\", \"assets\": [{{\"name\": 5}}, {{\"name\": \"xemanh-9.0.0-setup.exe\", \"browser_download_url\": \"{}v9.0.0/x.exe\"}}]}}",
        PREFIX
    );
    match release_from_body(&body, "1.0.0") {
        Ok(WorkerResult::Available(r)) => {
            assert_eq!(r.version, "9.0.0");
            assert_eq!(r.installer_url, format!("{}v9.0.0/x.exe", PREFIX));
        }
        _ => panic!("expected an available release"),
    }
    assert!(matches!(release_from_body("{\"tag_name\": 3}", "1.0.0"), Ok(WorkerResult::NoUpdate)));
}

#[test]
fn invalid_release_body_is_an_error() {
    match release_from_body("not json", "1.0.0") {
        Err(e) => assert!(e.starts_with("Thông tin cập nhật không hợp lệ: ") && e.len() > 40),
        _ => panic!("expected an error"),
    }
}

#[test]
fn updater_waits_before_checking() {
    let mut u = Updater::new();
    assert!(matches!(u.poll(UpdateEvent::Tick { elapsed_ms: 1000 }), UpdateAction::Report(UpdatePoll::Idle)));
    assert!(matches!(u.poll(UpdateEvent::Tick { elapsed_ms: 12000 }), UpdateAction::StartCheck));
    assert!(matches!(u.poll(UpdateEvent::CheckStarted), UpdateAction::Receive));
    assert!(matches!(u.poll(UpdateEvent::Received(None)), UpdateAction::Report(UpdatePoll::Idle)));
    assert!(matches!(u.poll(UpdateEvent::Tick { elapsed_ms: 13000 }), UpdateAction::Receive));
    assert!(matches!(
        u.poll(UpdateEvent::Received(Some(WorkerResult::NoUpdate))),
        UpdateAction::Report(UpdatePoll::Idle)
    ));
    assert!(matches!(u.poll(UpdateEvent::Tick { elapsed_ms: 99000 }), UpdateAction::Report(UpdatePoll::Idle)));
}

fn release() -> Release {
    Release { version: "2.0".to_string(), installer_url: "u".to_string() }
}

#[test]
fn updater_downloads_and_launches_an_accepted_release() {
    let mut u = Updater::new();
    assert!(matches!(u.poll(UpdateEvent::Tick { elapsed_ms: 20000 }), UpdateAction::StartCheck));
    assert!(matches!(u.poll(UpdateEvent::CheckStarted), UpdateAction::Receive));
    let a = u.poll(UpdateEvent::Received(Some(WorkerResult::Available(release()))));
    assert!(matches!(a, UpdateAction::AskUser(ref r) if r.version == "2.0"));
    let a = u.poll(UpdateEvent::UserAnswered { release: release(), accepted: true });
    assert!(matches!(a, UpdateAction::StartDownload(ref r) if r.installer_url == "u"));
    assert!(matches!(u.poll(UpdateEvent::DownloadStarted), UpdateAction::Report(UpdatePoll::Downloading)));
    assert!(matches!(u.poll(UpdateEvent::Tick { elapsed_ms: 21000 }), UpdateAction::Receive));
    assert!(matches!(u.poll(UpdateEvent::Received(None)), UpdateAction::Report(UpdatePoll::Downloading)));
    assert!(matches!(u.poll(UpdateEvent::Tick { elapsed_ms: 22000 }), UpdateAction::Receive));
    let a = u.poll(UpdateEvent::Received(Some(WorkerResult::Downloaded("/tmp/setup.exe".to_string()))));
    assert!(matches!(a, UpdateAction::SpawnInstaller(ref p) if p == "/tmp/setup.exe"));
    assert!(!u.downloading);
    assert!(matches!(
        u.poll(UpdateEvent::InstallerSpawned(Ok(()))),
        UpdateAction::Report(UpdatePoll::LaunchInstaller)
    ));
}

#[test]
fn updater_reports_failures() {
    let mut u = Updater::new();
    u.poll(UpdateEvent::Tick { elapsed_ms: 20000 });
    u.poll(UpdateEvent::CheckStarted);
    let a = u.poll(UpdateEvent::Received(Some(WorkerResult::Available(release()))));
    assert!(matches!(a, UpdateAction::AskUser(_)));
    assert!(matches!(
        u.poll(UpdateEvent::UserAnswered { release: release(), accepted: false }),
        UpdateAction::Report(UpdatePoll::Idle)
    ));
    assert!(matches!(u.poll(UpdateEvent::Tick { elapsed_ms: 30000 }), UpdateAction::Report(UpdatePoll::Idle)));
    let mut u = Updater::new();
    u.poll(UpdateEvent::Tick { elapsed_ms: 20000 });
    let a = u.poll(UpdateEvent::Received(Some(WorkerResult::Failed("net".to_string()))));
    assert!(matches!(a, UpdateAction::Report(UpdatePoll::Error(ref e)) if e == "net"));
    let a = u.poll(UpdateEvent::InstallerSpawned(Err("denied".to_string())));
    assert!(matches!(
        a,
        UpdateAction::Report(UpdatePoll::Error(ref e)) if e == "Không thể mở trình cài đặt cập nhật: denied"
    ));
}

#[test]
fn check_is_silent_about_failures() {
    assert!(matches!(check_worker_result(Err("offline".to_string()), "1.0.0"), WorkerResult::NoUpdate));
    assert!(matches!(check_worker_result(Ok("not json".to_string()), "1.0.0"), WorkerResult::NoUpdate));
    let no_installer = r#"{"tag_name": "v2.0.0", "assets": []}"#.to_string();
    assert!(matches!(check_worker_result(Ok(no_installer), "1.0.0"), WorkerResult::NoUpdate));
    let old = r#"{"tag_name": "v0.9.0", "assets": []}"#.to_string();
    assert!(matches!(check_worker_result(Ok(old), "1.0.0"), WorkerResult::NoUpdate));
}

#[test]
fn check_offers_a_newer_installer() {
    let body = format!(
        r#"{{"tag_name": "v2.0.0", "assets": [{{"name": "xemanh-2.0.0-setup.exe", "browser_download_url": "{}v2.0.0/x.exe"}}]}}"#,
        PREFIX
    );
    match check_worker_result(Ok(body), "1.0.0") {
        WorkerResult::Available(rel) => {
            assert_eq!(rel.version, "2.0.0");
            assert_eq!(rel.installer_url, format!("{}v2.0.0/x.exe", PREFIX));
        }
        _ => panic!("expected an offer"),
    }
}

#[test]
fn updater_is_quiet_for_twelve_seconds() {
    let mut u = Updater::new();
    for ms in (0..12000u64).step_by(250) {
        assert!(matches!(u.poll(UpdateEvent::Tick { elapsed_ms: ms }), UpdateAction::Report(UpdatePoll::Idle)));
    }
    assert!(!u.checking_started && !u.awaiting_worker && !u.downloading);
}
