use ez430::probe::Ez430;
use ez430::probe::Ez430Error;
use ez430::probe::Ez430Factory;
use ez430::probe::ScanChainElement;
use ez430::probe::WireProtocol;

#[test]
fn new_probe_starts_detached() {
    let probe = Ez430::new();
    assert_eq!(probe.speed_khz(), 0);
    assert!(probe.active_protocol().is_none());
    assert!(!probe.attached);
    assert!(!probe.reset_asserted);
    assert!(probe.scan_chain().unwrap().is_empty());
}

#[test]
fn factory_and_probe_report_family_name() {
    let factory = Ez430Factory;
    assert_eq!(factory.name(), "eZ430");
    assert_eq!(Ez430::new().get_name(), "eZ430");
}

#[test]
fn init_marks_probe_initialized() {
    let mut probe = Ez430::new();
    assert!(!probe.initialized);
    assert_eq!(probe.init(), Ok(()));
    assert!(probe.initialized);
}

#[test]
fn set_speed_reports_configured_speed() {
    let mut probe = Ez430::new();
    assert_eq!(probe.set_speed(4000), Ok(4000));
    assert_eq!(probe.speed_khz(), 4000);
    assert_eq!(probe.set_speed(100), Ok(100));
    assert_eq!(probe.speed_khz(), 100);
}

#[test]
fn scan_chain_round_trips() {
    let mut probe = Ez430::new();
    let chain = vec![
        ScanChainElement { ir_len: Some(4), name: Some("core".to_owned()) },
        ScanChainElement { ir_len: None, name: None },
    ];
    let expected = vec![
        ScanChainElement { ir_len: Some(4), name: Some("core".to_owned()) },
        ScanChainElement { ir_len: None, name: None },
    ];
    assert_eq!(probe.set_scan_chain(chain), Ok(()));
    assert_eq!(probe.scan_chain().unwrap(), &expected);
}

#[test]
fn attach_fails_recoverably_on_silent_target() {
    let mut probe = Ez430::new();
    assert_eq!(probe.attach(false), Err(Ez430Error::AttachError));
    assert!(!probe.attached);
    // The failed attach left the probe retryable.
    assert_eq!(probe.attach(true), Ok(()));
    assert!(probe.attached);
}

#[test]
fn detach_twice_is_idempotent() {
    let mut probe = Ez430::new();
    assert_eq!(probe.attach(true), Ok(()));
    assert_eq!(probe.detach(), Ok(()));
    let speed_after_one = probe.speed_khz();
    let attached_after_one = probe.attached;
    let reset_after_one = probe.reset_asserted;
    assert_eq!(probe.detach(), Ok(()));
    assert_eq!(probe.attached, attached_after_one);
    assert_eq!(probe.speed_khz(), speed_after_one);
    assert_eq!(probe.reset_asserted, reset_after_one);
    assert!(!probe.attached);
}

#[test]
fn reset_assert_deassert_and_pulse() {
    let mut probe = Ez430::new();
    assert_eq!(probe.target_reset_assert(), Ok(()));
    assert!(probe.reset_asserted);
    assert_eq!(probe.target_reset_deassert(), Ok(()));
    assert!(!probe.reset_asserted);
    // A pulse always ends with the line released.
    assert_eq!(probe.target_reset(), Ok(()));
    assert!(!probe.reset_asserted);
    // Asserting reset while detached is permitted.
    assert!(!probe.attached);
    assert_eq!(probe.target_reset_assert(), Ok(()));
    assert!(probe.reset_asserted);
}

#[test]
fn select_protocol_keeps_prior_selection_on_failure() {
    let mut probe = Ez430::new();
    assert_eq!(probe.select_protocol(WireProtocol::Swd), Err(Ez430Error::UnsupportedProtocol));
    assert!(probe.active_protocol().is_none());
    assert_eq!(probe.select_protocol(WireProtocol::Jtag), Ok(()));
    assert_eq!(probe.active_protocol(), Some(WireProtocol::Jtag));
    assert_eq!(probe.select_protocol(WireProtocol::Swd), Err(Ez430Error::UnsupportedProtocol));
    assert_eq!(probe.active_protocol(), Some(WireProtocol::Jtag));
}

#[test]
fn into_probe_transfers_state() {
    let mut probe = Ez430::new();
    probe.set_speed(2000).unwrap();
    probe.attach(true).unwrap();
    let generic = probe.into_probe();
    assert_eq!(generic.inner.speed_khz(), 2000);
    assert!(generic.inner.attached);
}
