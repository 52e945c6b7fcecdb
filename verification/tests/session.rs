use fastboot_client::protocol::FastBootCommand;
use fastboot_client::protocol::FastBootResponse;
use fastboot_client::session::FastBootError;
use fastboot_client::session::Fastboot;
use fastboot_client::session::SessionStep;

fn info(s: &str) -> FastBootResponse {
    FastBootResponse::Info(s.to_string())
}

fn okay(s: &str) -> FastBootResponse {
    FastBootResponse::Okay(s.to_string())
}

#[test]
fn get_var_skips_info_lines() {
    let mut fb = Fastboot::new();
    let wire = fb.begin_simple(&FastBootCommand::GetVar("version".to_string()));
    assert_eq!(wire, "getvar:version");
    assert!(!fb.is_idle());
    assert!(matches!(fb.on_response(info("progress")), SessionStep::Pending));
    assert!(!fb.is_idle());
    match fb.on_response(okay("1.0")) {
        SessionStep::Done(v) => assert_eq!(v, "1.0"),
        step => panic!("unexpected step: {:?}", step),
    }
    assert!(fb.is_idle());
}

#[test]
fn simple_fail_reports_reason() {
    let mut fb = Fastboot::new();
    fb.begin_simple(&FastBootCommand::Flash("boot_a".to_string()));
    match fb.on_response(FastBootResponse::Fail("denied".to_string())) {
        SessionStep::Failed(FastBootError::FastbootFailed(reason)) => {
            assert_eq!(reason, "denied")
        },
        step => panic!("unexpected step: {:?}", step),
    }
    assert!(fb.is_idle());
}

#[test]
fn simple_data_is_unexpected() {
    let mut fb = Fastboot::new();
    fb.begin_simple(&FastBootCommand::Boot);
    assert!(matches!(
        fb.on_response(FastBootResponse::Data(16)),
        SessionStep::Failed(FastBootError::FastbootUnexpectedReply)
    ));
    assert!(fb.is_idle());
}

#[test]
fn download_concatenates_info() {
    let mut fb = Fastboot::new();
    let wire = fb.begin_download(0x1000);
    assert_eq!(wire, "download:00001000");
    assert!(matches!(fb.on_response(info("chunk1")), SessionStep::Pending));
    assert!(matches!(fb.on_response(info("chunk2")), SessionStep::Pending));
    match fb.on_response(FastBootResponse::Data(0x1000)) {
        SessionStep::DownloadReady(Some(joined)) => assert_eq!(joined, "chunk1chunk2"),
        step => panic!("unexpected step: {:?}", step),
    }
    assert!(fb.is_idle());
}

#[test]
fn download_without_info_yields_none() {
    let mut fb = Fastboot::new();
    fb.begin_download(64);
    match fb.on_response(FastBootResponse::Data(64)) {
        SessionStep::DownloadReady(None) => {},
        step => panic!("unexpected step: {:?}", step),
    }
}

#[test]
fn download_okay_is_unexpected() {
    let mut fb = Fastboot::new();
    fb.begin_download(0x1000);
    assert!(matches!(
        fb.on_response(okay("")),
        SessionStep::Failed(FastBootError::FastbootUnexpectedReply)
    ));
    assert!(fb.is_idle());
}

#[test]
fn data_phase_reaches_terminal_okay() {
    let mut fb = Fastboot::new();
    fb.begin_data_phase();
    assert!(matches!(fb.on_response(info("writing")), SessionStep::Pending));
    match fb.on_response(okay("done")) {
        SessionStep::Done(v) => assert_eq!(v, "done"),
        step => panic!("unexpected step: {:?}", step),
    }
}

#[test]
fn get_all_vars_collects_mapping() {
    let mut fb = Fastboot::new();
    let wire = fb.begin_get_all_vars();
    assert_eq!(wire, "getvar:all");
    assert!(matches!(fb.on_response(info("version: 1.0")), SessionStep::Pending));
    assert!(matches!(fb.on_response(info("malformed-no-colon")), SessionStep::Pending));
    assert!(matches!(
        fb.on_response(info("max-download-size: 0x20000000")),
        SessionStep::Pending
    ));
    match fb.on_response(okay("")) {
        SessionStep::VarsDone(vars) => {
            assert_eq!(vars.len(), 2);
            assert_eq!(vars.get("version").unwrap(), "1.0");
            assert_eq!(vars.get("max-download-size").unwrap(), "0x20000000");
            assert!(vars.get("malformed-no-colon").is_none());
        },
        step => panic!("unexpected step: {:?}", step),
    }
    assert!(fb.is_idle());
}

#[test]
fn get_all_vars_last_binding_wins() {
    let mut fb = Fastboot::new();
    fb.begin_get_all_vars();
    fb.on_response(info("slot: a"));
    fb.on_response(info("slot: b"));
    match fb.on_response(okay("")) {
        SessionStep::VarsDone(vars) => {
            assert_eq!(vars.len(), 1);
            assert_eq!(vars.get("slot").unwrap(), "b");
        },
        step => panic!("unexpected step: {:?}", step),
    }
}

#[test]
fn get_all_vars_splits_at_last_colon() {
    let mut fb = Fastboot::new();
    fb.begin_get_all_vars();
    fb.on_response(info("partition-type:op2: raw"));
    match fb.on_response(okay("")) {
        SessionStep::VarsDone(vars) => {
            assert_eq!(vars.get("partition-type:op2").unwrap(), "raw");
        },
        step => panic!("unexpected step: {:?}", step),
    }
}

#[test]
fn get_all_vars_fail_is_terminal() {
    let mut fb = Fastboot::new();
    fb.begin_get_all_vars();
    fb.on_response(info("version: 1.0"));
    assert!(matches!(
        fb.on_response(FastBootResponse::Fail("nope".to_string())),
        SessionStep::Failed(FastBootError::FastbootFailed(_))
    ));
    assert!(fb.is_idle());
}

#[test]
fn abort_returns_session_to_idle() {
    let mut fb = Fastboot::new();
    fb.begin_simple(&FastBootCommand::Reboot);
    assert!(!fb.is_idle());
    fb.abort();
    assert!(fb.is_idle());
    let wire = fb.begin_simple(&FastBootCommand::Erase("cache".to_string()));
    assert_eq!(wire, "erase:cache");
}

#[test]
fn session_stays_busy_until_terminal() {
    // the sequencing invariant, observed at run time: informational
    // lines never idle the session, the terminal response does
    let mut fb = Fastboot::new();
    fb.begin_simple(&FastBootCommand::GetVar("serialno".to_string()));
    for _ in 0..16 {
        assert!(matches!(fb.on_response(info("still going")), SessionStep::Pending));
        assert!(!fb.is_idle());
    }
    assert!(matches!(fb.on_response(okay("123")), SessionStep::Done(_)));
    assert!(fb.is_idle());
}
