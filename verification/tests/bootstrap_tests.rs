use bandwhich_bootstrap::bootstrap::{get_input, BundlePlan, HostEnv};
use bandwhich_bootstrap::channel::{OpenErrorKind, OpenOutcome};
use bandwhich_bootstrap::errors::{BootstrapError, Platform};
use bandwhich_bootstrap::iface::IfaceInfo;

fn iface(name: &str, up: bool, ips: &[&str]) -> IfaceInfo {
    IfaceInfo {
        name: name.to_string(),
        is_up: up,
        ips: ips.iter().map(|s| s.to_string()).collect(),
    }
}

fn run(
    ifaces: Vec<IfaceInfo>,
    name: Option<&str>,
    resolve: bool,
    open_results: Vec<OpenOutcome>,
    dns_ok: bool,
) -> Result<BundlePlan, BootstrapError> {
    let env = HostEnv { ifaces, open_results, dns_ok };
    get_input(env, &name.map(|s| s.to_string()), resolve)
}

#[test]
fn unknown_interface_is_rejected_with_its_name() {
    let r = run(
        vec![iface("eth0", true, &["10.0.0.2"])],
        Some("wlan0"),
        false,
        vec![OpenOutcome::Opened],
        true,
    );
    let e = r.err().expect("bootstrap must fail");
    assert!(matches!(&e, BootstrapError::InterfaceNotFound(n) if n == "wlan0"));
    let msg = e.message(Platform::Linux);
    assert_eq!(msg, "Cannot find interface wlan0");
    assert!(msg.contains("wlan0"));
}

#[test]
fn two_down_interfaces_yield_no_usable_interfaces() {
    let r = run(
        vec![iface("eth0", false, &["10.0.0.2"]), iface("wlan0", false, &["10.0.0.3"])],
        None,
        false,
        vec![OpenOutcome::Opened, OpenOutcome::Opened],
        true,
    );
    let e = r.err().expect("bootstrap must fail");
    assert!(matches!(e, BootstrapError::NoUsableInterfaces));
    assert_eq!(
        e.message(Platform::MacOsBsd),
        "Failed to find any network interface to listen on."
    );
}

#[test]
fn addressless_interfaces_yield_no_usable_interfaces() {
    let r = run(
        vec![iface("eth0", true, &[]), iface("wlan0", true, &[])],
        None,
        false,
        vec![OpenOutcome::Opened, OpenOutcome::Opened],
        true,
    );
    assert!(matches!(r.err().expect("must fail"), BootstrapError::NoUsableInterfaces));
}

#[test]
fn named_interface_open_denied_yields_permission_message() {
    let r = run(
        vec![iface("eth0", true, &["10.0.0.2"])],
        Some("eth0"),
        false,
        vec![OpenOutcome::Failed(OpenErrorKind::PermissionDenied)],
        true,
    );
    let e = r.err().expect("bootstrap must fail");
    assert!(matches!(e, BootstrapError::InsufficientPermissions));
    assert_eq!(
        e.message(Platform::MacOsBsd),
        "Insufficient permissions to listen on network interface(s). Try running with sudo."
    );
    assert_ne!(
        e.message(Platform::Linux),
        "Failed to find any network interface to listen on."
    );
}

#[test]
fn all_failures_permission_denied_yield_permission_error() {
    let r = run(
        vec![iface("eth0", true, &["10.0.0.2"]), iface("wlan0", true, &["10.0.0.3"])],
        None,
        false,
        vec![
            OpenOutcome::Failed(OpenErrorKind::PermissionDenied),
            OpenOutcome::Failed(OpenErrorKind::PermissionDenied),
        ],
        true,
    );
    assert!(matches!(r.err().expect("must fail"), BootstrapError::InsufficientPermissions));
}

#[test]
fn non_permission_failures_yield_generic_error() {
    let r = run(
        vec![iface("eth0", true, &["10.0.0.2"]), iface("wlan0", true, &["10.0.0.3"])],
        None,
        false,
        vec![
            OpenOutcome::Failed(OpenErrorKind::UnsupportedInterfaceType),
            OpenOutcome::Failed(OpenErrorKind::Other),
        ],
        true,
    );
    assert!(matches!(r.err().expect("must fail"), BootstrapError::NoUsableInterfaces));
}

#[test]
fn mixed_success_is_not_an_error() {
    let plan = run(
        vec![iface("eth0", true, &["10.0.0.2"]), iface("wlan0", true, &["10.0.0.3"])],
        None,
        false,
        vec![OpenOutcome::Failed(OpenErrorKind::PermissionDenied), OpenOutcome::Opened],
        true,
    )
    .expect("one opened channel suffices");
    assert_eq!(plan.interfaces.len(), 1);
    assert_eq!(plan.interfaces[0].name, "wlan0");
    assert_eq!(plan.channel_indices, vec![1]);
}

#[test]
fn interfaces_and_channels_are_paired_by_index() {
    let plan = run(
        vec![
            iface("eth0", true, &["10.0.0.2"]),
            iface("eth1", true, &["10.0.0.3"]),
            iface("wlan0", true, &["10.0.0.4"]),
        ],
        None,
        false,
        vec![OpenOutcome::Opened, OpenOutcome::Failed(OpenErrorKind::Other), OpenOutcome::Opened],
        true,
    )
    .expect("two channels opened");
    assert_eq!(plan.interfaces.len(), plan.channel_indices.len());
    assert_eq!(plan.interfaces.len(), 2);
    assert_eq!(plan.interfaces[0].name, "eth0");
    assert_eq!(plan.interfaces[1].name, "wlan0");
    assert_eq!(plan.channel_indices, vec![0, 2]);
}

#[test]
fn down_interfaces_are_filtered_in_discovery_order() {
    let plan = run(
        vec![
            iface("down0", false, &["10.0.0.1"]),
            iface("eth0", true, &["10.0.0.2"]),
            iface("bare0", true, &[]),
            iface("wlan0", true, &["10.0.0.4"]),
        ],
        None,
        false,
        vec![OpenOutcome::Opened, OpenOutcome::Opened, OpenOutcome::Opened, OpenOutcome::Opened],
        true,
    )
    .expect("usable interfaces open");
    assert_eq!(plan.channel_indices, vec![1, 3]);
    assert_eq!(plan.interfaces[0].name, "eth0");
    assert_eq!(plan.interfaces[1].name, "wlan0");
}

#[test]
fn resolution_disabled_ignores_resolver_health() {
    for dns_ok in [false, true] {
        let plan = run(
            vec![iface("eth0", true, &["10.0.0.2"])],
            None,
            false,
            vec![OpenOutcome::Opened],
            dns_ok,
        )
        .expect("bootstrap succeeds without resolution");
        assert!(!plan.dns_client);
    }
}

#[test]
fn resolution_enabled_with_failing_resolver_yields_dns_unavailable() {
    let r = run(
        vec![iface("eth0", true, &["10.0.0.2"])],
        None,
        true,
        vec![OpenOutcome::Opened],
        false,
    );
    let e = r.err().expect("bootstrap must fail");
    assert!(matches!(e, BootstrapError::DnsUnavailable));
    assert_eq!(
        e.message(Platform::Linux),
        "Could not initialize the DNS resolver. Are you offline?"
    );
}

#[test]
fn channel_failure_is_reported_before_dns_failure() {
    let r = run(
        vec![iface("eth0", true, &["10.0.0.2"])],
        None,
        true,
        vec![OpenOutcome::Failed(OpenErrorKind::Other)],
        false,
    );
    assert!(matches!(r.err().expect("must fail"), BootstrapError::NoUsableInterfaces));
}

#[test]
fn resolution_enabled_with_healthy_resolver_includes_client() {
    let plan = run(
        vec![iface("eth0", true, &["10.0.0.2"])],
        None,
        true,
        vec![OpenOutcome::Opened],
        true,
    )
    .expect("bootstrap succeeds");
    assert!(plan.dns_client);
}

#[test]
fn single_interface_bundle_is_complete() {
    let mut plan = run(
        vec![iface("eth0", true, &["192.168.0.7"])],
        Some("eth0"),
        false,
        vec![OpenOutcome::Opened],
        true,
    )
    .expect("bootstrap succeeds");
    assert_eq!(plan.interfaces.len(), 1);
    assert_eq!(plan.interfaces[0].name, "eth0");
    assert_eq!(plan.interfaces[0].ips, vec!["192.168.0.7".to_string()]);
    assert_eq!(plan.channel_indices, vec![0]);
    assert!(!plan.dns_client);
    assert_eq!(plan.sink.render_line("hello"), "hello\n");
    assert!(!plan.keyboard.ended);
    assert_eq!(plan.keyboard.next(Some(7u32)), Some(7u32));
    assert!(!plan.bridge.closed);
    plan.bridge.cleanup();
    assert!(plan.bridge.closed);
}

#[test]
fn named_interface_that_is_down_yields_generic_error() {
    let r = run(
        vec![iface("eth0", false, &["10.0.0.2"])],
        Some("eth0"),
        false,
        vec![OpenOutcome::Opened],
        true,
    );
    assert!(matches!(r.err().expect("must fail"), BootstrapError::NoUsableInterfaces));
}
