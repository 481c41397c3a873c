use bandwhich_bootstrap::bootstrap::{partition_opened, resolve_dns, DnsOutcome};
use bandwhich_bootstrap::channel::{
    classify_channel, OpenErrorKind, OpenOutcome, OsErrorClass, RawOpen, READ_TIMEOUT_SECS,
};
use bandwhich_bootstrap::errors::{eperm_message, BootstrapError, Platform};
use bandwhich_bootstrap::iface::{candidate_indices, find_interface, IfaceInfo};
use bandwhich_bootstrap::keyboard::KeyboardEvents;
use bandwhich_bootstrap::signal::{run_signal_loop, ResizeBridge, SignalEvent};
use bandwhich_bootstrap::sink::OutputSink;

fn iface(name: &str, up: bool, ips: &[&str]) -> IfaceInfo {
    IfaceInfo {
        name: name.to_string(),
        is_up: up,
        ips: ips.iter().map(|s| s.to_string()).collect(),
    }
}

#[test]
fn classification_keeps_only_ethernet_channels() {
    assert_eq!(classify_channel(RawOpen::Ethernet), OpenOutcome::Opened);
    assert_eq!(
        classify_channel(RawOpen::NonEthernet),
        OpenOutcome::Failed(OpenErrorKind::UnsupportedInterfaceType)
    );
    assert_eq!(
        classify_channel(RawOpen::OsError(OsErrorClass::PermissionDenied)),
        OpenOutcome::Failed(OpenErrorKind::PermissionDenied)
    );
    assert_eq!(
        classify_channel(RawOpen::OsError(OsErrorClass::Other)),
        OpenOutcome::Failed(OpenErrorKind::Other)
    );
}

#[test]
fn read_timeout_is_one_second() {
    assert_eq!(READ_TIMEOUT_SECS, 1);
}

#[test]
fn permission_messages_match_each_platform() {
    assert_eq!(
        eperm_message(Platform::MacOsBsd),
        "Insufficient permissions to listen on network interface(s). Try running with sudo."
    );
    let linux = eperm_message(Platform::Linux);
    assert!(linux.starts_with("\n    Insufficient permissions"));
    assert!(linux.contains("`cap_sys_ptrace,cap_dac_read_search,cap_net_raw,cap_net_admin+ep`"));
    assert!(linux.contains("* Try running `bandwhich` with `sudo`"));
    assert!(linux.ends_with("    "));
}

#[test]
fn find_interface_returns_first_match_in_discovery_order() {
    let dir = vec![iface("eth0", false, &[]), iface("wlan0", true, &["10.0.0.3"]), iface("eth0", true, &["10.0.0.4"])];
    assert_eq!(find_interface(&dir, &"eth0".to_string()), Some(0));
    assert_eq!(find_interface(&dir, &"wlan0".to_string()), Some(1));
    assert_eq!(find_interface(&dir, &"tun0".to_string()), None);
}

#[test]
fn candidate_indices_filter_to_usable_interfaces() {
    let dir = vec![
        iface("down0", false, &["10.0.0.1"]),
        iface("eth0", true, &["10.0.0.2"]),
        iface("bare0", true, &[]),
        iface("wlan0", true, &["10.0.0.4"]),
    ];
    assert_eq!(candidate_indices(&dir, &None).unwrap(), vec![1, 3]);
    assert_eq!(candidate_indices(&dir, &Some("wlan0".to_string())).unwrap(), vec![3]);
    assert_eq!(candidate_indices(&dir, &Some("down0".to_string())).unwrap(), vec![]);
    assert!(matches!(
        candidate_indices(&dir, &Some("tun0".to_string())),
        Err(BootstrapError::InterfaceNotFound(n)) if n == "tun0"
    ));
}

#[test]
fn partition_keeps_order_and_pairs_positions() {
    let cands = vec![iface("a", true, &["1"]), iface("b", true, &["2"]), iface("c", true, &["3"])];
    let outcomes = vec![
        OpenOutcome::Failed(OpenErrorKind::Other),
        OpenOutcome::Opened,
        OpenOutcome::Opened,
    ];
    let (kept, pos) = partition_opened(&cands, &outcomes).unwrap();
    assert_eq!(pos, vec![1, 2]);
    assert_eq!(kept.len(), 2);
    assert_eq!(kept[0].name, "b");
    assert_eq!(kept[1].name, "c");
}

#[test]
fn partition_of_empty_candidates_is_the_generic_failure() {
    let r = partition_opened(&Vec::new(), &Vec::new());
    assert!(matches!(r, Err(BootstrapError::NoUsableInterfaces)));
}

#[test]
fn dns_step_reflects_the_request_and_the_outcome() {
    assert_eq!(resolve_dns(false, None).unwrap(), false);
    assert_eq!(resolve_dns(true, Some(DnsOutcome::Ready)).unwrap(), true);
    assert!(matches!(
        resolve_dns(true, Some(DnsOutcome::ConstructionFailed)),
        Err(BootstrapError::DnsUnavailable)
    ));
}

#[test]
fn keyboard_stream_ends_for_good_when_the_source_closes() {
    let mut kb = KeyboardEvents::new();
    assert_eq!(kb.next(Some(1u8)), Some(1u8));
    assert_eq!(kb.next(Some(2u8)), Some(2u8));
    assert_eq!(kb.next(None::<u8>), None);
    assert!(kb.ended);
    assert_eq!(kb.next(Some(3u8)), None);
    assert_eq!(kb.next(None::<u8>), None);
    assert!(kb.ended);
}

#[test]
fn signal_loop_invokes_callback_once_per_resize_until_closed() {
    let script = vec![SignalEvent::Resize, SignalEvent::Resize, SignalEvent::Closed];
    assert_eq!(run_signal_loop(&script), Some(2));
    let open_ended = vec![SignalEvent::Resize];
    assert_eq!(run_signal_loop(&open_ended), None);
}

#[test]
fn cleanup_before_any_signal_unblocks_the_loop() {
    let mut bridge = ResizeBridge::new();
    assert!(!bridge.closed);
    bridge.cleanup();
    assert!(bridge.closed);
    let script = vec![SignalEvent::Closed];
    assert_eq!(run_signal_loop(&script), Some(0));
}

#[test]
fn closed_subscription_yields_no_signals() {
    let mut signals =
        signal_hook::iterator::Signals::new([signal_hook::consts::SIGWINCH]).unwrap();
    let handle = signals.handle();
    handle.close();
    let mut received = 0u32;
    for _signal in signals.forever() {
        received += 1;
    }
    assert_eq!(received, 0);
}

#[test]
fn output_sink_appends_exactly_one_line_terminator() {
    let sink = OutputSink::new();
    assert_eq!(sink.render_line("bytes: 42"), "bytes: 42\n");
    assert_eq!(sink.render_line(""), "\n");
}
