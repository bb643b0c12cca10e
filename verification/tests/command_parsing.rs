use starnet_relay::commands::kill_invocation;
use starnet_relay::commands::parse_kill_command;
use starnet_relay::commands::parse_start_command;
use starnet_relay::commands::KillRequest;
use starnet_relay::commands::SignalKind;
use starnet_relay::text::parse_u32_dec;
use starnet_relay::text::rem_first_and_last;
use starnet_relay::text::split_on;
use starnet_relay::text::u32_to_dec;

#[test]
fn split_empty_payload_is_one_empty_token() {
    let toks = split_on("", '"');
    assert_eq!(toks, vec![String::new()]);
}

#[test]
fn split_inner_and_edge_delimiters() {
    let toks = split_on("a\"b\"c", '"');
    assert_eq!(toks, vec!["a".to_string(), "b".to_string(), "c".to_string()]);
    let toks = split_on("\"x\"", '"');
    assert_eq!(toks, vec!["".to_string(), "x".to_string(), "".to_string()]);
    let toks = split_on("\"\"", '"');
    assert_eq!(toks, vec!["".to_string(), "".to_string(), "".to_string()]);
}

#[test]
fn rem_first_and_last_strips_enclosing_characters() {
    assert_eq!(rem_first_and_last(",4242]"), "4242");
    assert_eq!(rem_first_and_last("(a)"), "a");
    assert_eq!(rem_first_and_last("ab"), "");
    assert_eq!(rem_first_and_last("x"), "");
    assert_eq!(rem_first_and_last(""), "");
}

#[test]
fn parse_u32_dec_reads_decimal_ids() {
    assert_eq!(parse_u32_dec("4242"), Some(4242));
    assert_eq!(parse_u32_dec("0"), Some(0));
    assert_eq!(parse_u32_dec("4294967295"), Some(u32::MAX));
    assert_eq!(parse_u32_dec("4294967296"), None);
    assert_eq!(parse_u32_dec(""), None);
    assert_eq!(parse_u32_dec("12a"), None);
    assert_eq!(parse_u32_dec("-1"), None);
}

#[test]
fn u32_to_dec_writes_decimal_ids() {
    assert_eq!(u32_to_dec(0), "0");
    assert_eq!(u32_to_dec(7), "7");
    assert_eq!(u32_to_dec(4242), "4242");
    assert_eq!(u32_to_dec(u32::MAX), "4294967295");
}

#[test]
fn decimal_rendering_reads_back() {
    for v in [0u32, 1, 9, 10, 39, 4242, 100000, u32::MAX] {
        assert_eq!(parse_u32_dec(&u32_to_dec(v)), Some(v));
    }
}

#[test]
fn start_payload_parses_into_request() {
    let req = parse_start_command("{\"tool\",\"/tmp/job1\",\"a\",\"b\"}").unwrap();
    assert_eq!(req.executable, "tool");
    assert_eq!(req.working_directory, "/tmp/job1");
    assert_eq!(req.args, vec!["input.tiff".to_string(), "a".to_string(), "b".to_string()]);
}

#[test]
fn short_start_payload_is_rejected() {
    assert!(parse_start_command("{\"only\",\"three\"}").is_none());
    assert!(parse_start_command("").is_none());
}

#[test]
fn kill_payload_with_posix_discriminator() {
    let req = parse_kill_command("[\"kill\",4242]").unwrap();
    assert_eq!(req.signal_kind, SignalKind::Posix);
    assert_eq!(req.target_process_id, 4242);
}

#[test]
fn kill_payload_with_other_discriminator_is_windows() {
    let req = parse_kill_command("[\"terminate\",4242]").unwrap();
    assert_eq!(req.signal_kind, SignalKind::Windows);
    assert_eq!(req.target_process_id, 4242);
}

#[test]
fn malformed_kill_payloads_are_rejected() {
    assert!(parse_kill_command("no delimiters at all").is_none());
    assert!(parse_kill_command("[\"kill\",abc]").is_none());
    assert!(parse_kill_command("[\"kill\",]").is_none());
}

#[test]
fn posix_kill_resolves_to_one_kill_call() {
    let inv = kill_invocation(&KillRequest { signal_kind: SignalKind::Posix, target_process_id: 4242 });
    assert_eq!(inv.program, "kill");
    assert_eq!(inv.args, vec!["-s".to_string(), "9".to_string(), "4242".to_string()]);
}

#[test]
fn windows_kill_resolves_to_one_taskkill_call() {
    let inv = kill_invocation(&KillRequest { signal_kind: SignalKind::Windows, target_process_id: 77 });
    assert_eq!(inv.program, "taskkill");
    assert_eq!(inv.args, vec!["/f".to_string(), "/pid".to_string(), "77".to_string()]);
}

#[test]
fn kill_scenario_posix_4242_then_notification() {
    let req = parse_kill_command("[\"kill\",4242]").unwrap();
    assert_eq!(req.signal_kind, SignalKind::Posix);
    let inv = kill_invocation(&req);
    assert_eq!(inv.program, "kill");
    assert_eq!(inv.args, vec!["-s".to_string(), "9".to_string(), "4242".to_string()]);
    assert_eq!(
        starnet_relay::relay::Emission::Killed.channel(),
        "starnet-killed"
    );
    assert_eq!(starnet_relay::relay::killed_payload(), "starnet_killed");
}
