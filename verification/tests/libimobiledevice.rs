//! What the device tools print, and what is read out of it.
use cradle::libimobiledevice::{
    available_disk_space, captured, check_pairing, classify_error, conclude, device_info,
    domain_value, find_my_associated, has_stalled, holds_text, info_bool, info_domain, info_value,
    info_value_args, list_devices, not_started, parse_file_bytes, parse_human_bytes,
    parse_overall_percent, parse_received, parse_sending_file, push_tail, tool_missing,
    will_encrypt, LineSplitter, ProgressEvent, ProgressParser, Resolution, Transport,
    STALL_TIMEOUT_SECS, STDERR_TAIL_LINES,
};
use cradle::CradleError;

/// What `ideviceinfo` prints of a root domain, with a value over more than one
/// line.
const SAMPLE_DOMAIN: &str = "\
ActivationState: Activated
BasebandKeyHashInformation: AKeyStatus: 2
 SKeyHash: AAAAAAAAAAAAAAAAAAAAAAAAAAAAAAAAAAAAAAAAAAA=
 SKeyStatus: 0
DeviceName: Backup iPhone
ProductType: iPhone14,7
ProductVersion: 26.5.2";

#[test]
fn reads_simple_string_keys_around_a_nested_multiline_one() {
    assert_eq!(domain_value(SAMPLE_DOMAIN, "DeviceName").as_deref(), Some("Backup iPhone"));
    assert_eq!(domain_value(SAMPLE_DOMAIN, "ProductType").as_deref(), Some("iPhone14,7"));
    assert_eq!(domain_value(SAMPLE_DOMAIN, "ProductVersion").as_deref(), Some("26.5.2"));
}

#[test]
fn missing_key_is_none() {
    assert_eq!(domain_value(SAMPLE_DOMAIN, "NoSuchKey"), None);
}

#[test]
fn a_value_containing_a_colon_is_read_in_full() {
    let domain = "DeviceName: Vili's: iPhone";
    assert_eq!(domain_value(domain, "DeviceName").as_deref(), Some("Vili's: iPhone"));
}

#[test]
fn error_code_207_is_classified_as_a_wrong_backup_password() {
    assert!(matches!(
        classify_error("Restore Failed (Error Code 207)."),
        CradleError::WrongBackupPassword
    ));
}

#[test]
fn mobilebackup2_service_unavailable_is_classified_as_device_not_ready() {
    assert!(matches!(
        classify_error("ERROR: Could not start service com.apple.mobilebackup2: Invalid service"),
        CradleError::DeviceNotReadyForBackupService
    ));
}

#[test]
fn parses_a_restore_send_line_size() {
    assert_eq!(parse_sending_file("Sending 'ab/cd1234567890' (1.2 MB)"), Some(1_258_291));
}

#[test]
fn a_backup_receive_fraction_line_is_not_mistaken_for_a_restore_send_line() {
    assert_eq!(parse_sending_file("[===   ]  42% (1.2 MB/3.4 MB)"), None);
    assert!(parse_file_bytes("Sending 'ab/cd1234567890' (1.2 MB)").is_none());
}

#[test]
fn other_codes_are_told_apart() {
    assert!(matches!(classify_error("ErrorCode 208: locked"), CradleError::DeviceLocked));
    assert!(matches!(classify_error("Backup Failed (Error Code 104)."), CradleError::HostIoError));
    assert!(matches!(classify_error("208 before 104"), CradleError::DeviceLocked));
    match classify_error("code 2080 and 1104") {
        CradleError::ToolFailed(m) => assert_eq!(m, "code 2080 and 1104"),
        other => panic!("{other:?}"),
    }
}

#[test]
fn usb_devices_come_first_and_once() {
    let devices = list_devices("  A \n\nB\n", "B\nC\nC");
    let seen: Vec<(&str, Transport)> =
        devices.iter().map(|d| (d.udid.as_str(), d.transport)).collect();
    assert_eq!(
        seen,
        vec![
            ("A", Transport::Usb),
            ("B", Transport::Usb),
            ("C", Transport::Network),
            ("C", Transport::Network)
        ]
    );
    assert!(list_devices("", " ").is_empty());
    assert!(holds_text(&vec!["a".to_string()], "a"));
    assert!(!holds_text(&vec!["a".to_string()], "b"));
}

#[test]
fn captured_output_is_trimmed_and_mended() {
    let c = captured(true, b"  \xffok \n", b"\te\n");
    assert!(c.ok);
    assert_eq!(c.stdout, "\u{fffd}ok");
    assert_eq!(c.stderr, "e");
    assert_eq!(
        tool_missing(&CradleError::ToolNotFound("idevice_id")).message(),
        format!(
            "{} — install libimobiledevice with `brew install libimobiledevice`",
            CradleError::ToolNotFound("idevice_id").message()
        )
    );
}

#[test]
fn a_value_is_asked_for_by_domain_and_key() {
    assert_eq!(
        info_value_args("U", Some("com.apple.fmip"), "IsAssociated"),
        vec!["-u", "U", "-q", "com.apple.fmip", "-k", "IsAssociated"]
    );
    assert_eq!(info_value_args("U", None, "K"), vec!["-u", "U", "-k", "K"]);
    assert_eq!(info_value(captured(true, b"", b"")).unwrap(), None);
    assert_eq!(info_value(captured(true, b"v", b"")).unwrap().as_deref(), Some("v"));
    assert!(matches!(
        info_value(captured(false, b"out", b"")),
        Err(CradleError::ToolFailed(m)) if m == "out"
    ));
    assert!(matches!(
        info_value(captured(false, b"out", b"err")),
        Err(CradleError::ToolFailed(m)) if m == "err"
    ));
    assert_eq!(info_domain(captured(true, b"", b"")).unwrap(), "");
    assert!(info_domain(captured(false, b"", b"err")).is_err());
}

#[test]
fn what_is_not_known_is_taken_for_the_careful_answer() {
    let unknown = || Err(CradleError::ToolFailed("no".to_string()));
    let said = |s: &str| Ok(Some(s.to_string()));
    assert!(!will_encrypt(&unknown()));
    assert!(will_encrypt(&said("true")));
    assert!(find_my_associated(&unknown()));
    assert!(find_my_associated(&Ok(None)));
    assert!(!find_my_associated(&said("false")));
    assert!(info_bool(&Ok(None), true));
    assert!(!info_bool(&said("True"), true));
    assert_eq!(available_disk_space(&said("123")), Some(123));
    assert_eq!(available_disk_space(&said("12x")), None);
    assert_eq!(available_disk_space(&unknown()), None);
}

#[test]
fn a_device_without_answers_has_blank_names() {
    let info = device_info("U", SAMPLE_DOMAIN);
    assert_eq!((info.udid.as_str(), info.name.as_str()), ("U", "Backup iPhone"));
    assert_eq!(info.ios_version, "26.5.2");
    assert_eq!(device_info("U", "").name, "");
}

#[test]
fn a_pairing_that_fails_says_what_to_do() {
    let ok = check_pairing(captured(true, b"SUCCESS", b""));
    assert!(ok.valid && ok.message.is_none());
    let bad = check_pairing(captured(false, b"", b"ERROR: x"));
    assert!(!bad.valid);
    assert_eq!(
        bad.message.unwrap(),
        "No valid pairing record for this device — open it once with Finder or Xcode, unlock the \
         device, and tap Trust. (ERROR: x)"
    );
}

#[test]
fn silence_counts_as_a_stall_after_the_timeout() {
    assert!(!has_stalled(STALL_TIMEOUT_SECS - 1));
    assert!(has_stalled(STALL_TIMEOUT_SECS));
    assert_eq!(STALL_TIMEOUT_SECS, 300);
}

#[test]
fn lines_are_split_the_same_however_they_arrive() {
    let text = b"one\r\rtwo\n\nthree";
    let mut whole = LineSplitter::new();
    let mut lines = whole.feed(text);
    lines.extend(whole.finish());
    assert_eq!(lines, vec!["one", "two", "three"]);

    let mut bytewise = LineSplitter::new();
    let mut pieces = Vec::new();
    for b in text {
        pieces.extend(bytewise.feed(&[*b]));
    }
    pieces.extend(bytewise.finish());
    assert_eq!(pieces, lines);
    assert_eq!(LineSplitter::new().finish(), None);
}

#[test]
fn only_the_last_lines_are_kept() {
    let mut tail = Vec::new();
    for i in 0..60 {
        push_tail(&mut tail, format!("{i}"), STDERR_TAIL_LINES);
    }
    assert_eq!(tail.len(), STDERR_TAIL_LINES);
    assert_eq!(tail[0], "10");
    assert_eq!(tail[49], "59");
}

#[test]
fn percentages_are_read_off_finished_lines_only() {
    assert_eq!(parse_overall_percent("[==]  42.5% Finished").as_deref(), Some("42.5"));
    assert_eq!(parse_overall_percent("x% 7% Finished").as_deref(), Some("7"));
    assert_eq!(parse_overall_percent("[==]  42% (1 MB/2 MB)"), None);
    assert_eq!(parse_overall_percent("Finished"), None);
}

#[test]
fn sizes_are_read_as_binary_floats_are() {
    for (text, unit, mult) in [
        ("1.2 MB", "MB", 1024.0 * 1024.0),
        ("0.1 KB", "KB", 1024.0),
        ("999.9 GB", "GB", 1024.0 * 1024.0 * 1024.0),
        ("3.7 TB", "TB", 1024.0 * 1024.0 * 1024.0 * 1024.0),
        ("17 Bytes", "Bytes", 1.0),
        ("1e3 KB", "KB", 1024.0),
        (".5 MB", "MB", 1024.0 * 1024.0),
        ("-3 MB", "MB", 1024.0 * 1024.0),
        ("inf TB", "TB", 1024.0 * 1024.0 * 1024.0 * 1024.0),
        ("nan TB", "TB", 1024.0 * 1024.0 * 1024.0 * 1024.0),
    ] {
        let number: f64 = text.strip_suffix(unit).unwrap().trim().parse().unwrap();
        assert_eq!(parse_human_bytes(text), Some((number * mult) as u64), "{text}");
    }
    let mut x: u64 = 12345;
    for _ in 0..500 {
        x = x.wrapping_mul(6364136223846793005).wrapping_add(1442695040888963407);
        let text = format!("{}.{} GB", (x >> 40) % 100_000, (x >> 20) % 1000);
        let number: f64 = text.strip_suffix(" GB").unwrap().parse().unwrap();
        assert_eq!(
            parse_human_bytes(&text),
            Some((number * 1024.0 * 1024.0 * 1024.0) as u64),
            "{text}"
        );
    }
    assert_eq!(parse_human_bytes("1 PB"), None);
    assert_eq!(parse_human_bytes("1MB"), None);
    assert_eq!(parse_human_bytes("x MB"), None);
}

#[test]
fn fractions_and_counts_are_read() {
    assert_eq!(parse_file_bytes("[= ] 3% (1.0 KB/2.0 KB)"), Some((1024, 2048)));
    assert_eq!(parse_file_bytes(")("), None);
    assert_eq!(parse_received("Received 1234 files from device."), Some(1234));
    assert_eq!(parse_received("Received many files"), None);
}

fn feed(parser: &mut ProgressParser, line: &str) -> Vec<ProgressEvent> {
    assert!(parser.can_take(line));
    parser.on_line(line)
}

#[test]
fn a_backup_is_followed_line_by_line() {
    let mut p = ProgressParser::new();
    assert!(feed(&mut p, "   ").is_empty());
    let events = feed(&mut p, "*** Waiting for passcode to be entered on the device ***");
    assert!(matches!(events[..], [ProgressEvent::Attention(true)]));
    assert!(feed(&mut p, "Waiting for passcode").is_empty());
    let events = feed(&mut p, "[=  ] 50% (1.0 KB/2.0 KB)");
    assert!(matches!(events[..], [ProgressEvent::Attention(false)]));
    let events = feed(&mut p, "[===] 100% (2.0 KB/2.0 KB)");
    assert!(matches!(&events[..], [ProgressEvent::File { count: 1, .. }]));
    assert!(feed(&mut p, "[===] 100% (2.0 KB/2.0 KB)").is_empty());
    match &feed(&mut p, "[==] 12.5% Finished")[..] {
        [ProgressEvent::Overall { bytes_done, percent }] => {
            assert_eq!(*bytes_done, 4096);
            assert_eq!(percent, "12.5");
        }
        _ => panic!("an overall percentage was expected"),
    }
    feed(&mut p, "Received 17 files from device.");
    feed(&mut p, "Backup Successful.");
    let done = conclude(
        Resolution::Exited { success: true, status: "exit status: 0".to_string() },
        &p,
        &vec![],
    );
    assert!(done.outcome.is_ok());
    assert_eq!(done.files_received, 17);
    assert_eq!(done.bytes_transferred, 4096);
}

#[test]
fn a_restore_counts_each_file_it_sends() {
    let mut p = ProgressParser::new();
    let events = feed(&mut p, "Sending 'ab/cd' (1.0 KB)");
    match &events[..] {
        [ProgressEvent::File { line, count }] => {
            assert_eq!(line, "Sending 'ab/cd' (1.0 KB)");
            assert_eq!(*count, 1);
        }
        _ => panic!("a file was expected"),
    }
    feed(&mut p, "Sending 'ab/ce' (1.0 KB)");
    let stalled = conclude(Resolution::Stalled, &p, &vec![]);
    assert!(matches!(stalled.outcome, Err(CradleError::Stalled)));
    assert_eq!((stalled.files_received, stalled.bytes_transferred), (2, 2048));
    let lost = conclude(Resolution::WaitFailed("no child".to_string()), &p, &vec![]);
    assert!(matches!(lost.outcome, Err(CradleError::Io(m)) if m == "no child"));
}

#[test]
fn a_failure_is_named_by_what_was_printed_last() {
    let exited = |success: bool| Resolution::Exited { success, status: "exit status: 1".to_string() };
    let mut p = ProgressParser::new();
    feed(&mut p, "ERROR: first");
    feed(&mut p, "Backup Failed (Error Code 208).");
    let r = conclude(exited(false), &p, &vec!["stderr".to_string()]);
    assert!(matches!(r.outcome, Err(CradleError::DeviceLocked)));

    let quiet = ProgressParser::new();
    let r = conclude(exited(false), &quiet, &vec!["said".to_string(), "  ".to_string()]);
    assert!(matches!(r.outcome, Err(CradleError::ToolFailed(m)) if m == "said"));
    let r = conclude(exited(true), &quiet, &vec![]);
    assert!(r
        .outcome
        .unwrap_err()
        .message()
        .contains("idevicebackup2 exited unexpectedly (exit status: 1)"));
    let r = not_started(CradleError::DeviceLocked);
    assert_eq!((r.files_received, r.bytes_transferred), (0, 0));
}
