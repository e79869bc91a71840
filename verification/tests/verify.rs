//! What a backup has to pass before it counts as verified.
use aes::cipher::block_padding::NoPadding;
use aes::cipher::{BlockModeEncrypt, KeyIvInit};
use aes_kw::cipher::KeyInit;
use cradle::crypto::{WRAPPED_KEY_LEN, WRAP_BY_PASSWORD};
use cradle::dates::has_dates_that_fit;
use cradle::plists::{read_members, PlistValue};
use cradle::verify::{
    backup_is_encrypted, check_manifest, decrypt_manifest, decrypt_manifest_with, holds_payload,
    manifest_plan, missing_payload_files, on_disk_file_ids, payload_path, run_blocking,
    says_encrypted, says_finished, scan_backup_dir, status_finished, ManifestCheck, ManifestPlan, ManifestReading, Outcome, Report, TopEntry,
};
use cradle::CradleError;

fn plist_of(members: Vec<(&str, plist::Value)>) -> Vec<u8> {
    let mut dict = plist::Dictionary::new();
    for (key, value) in members {
        dict.insert(key.to_string(), value);
    }
    let mut out = Vec::new();
    plist::Value::Dictionary(dict).to_writer_xml(&mut out).unwrap();
    out
}

fn finished_status() -> Vec<u8> {
    plist_of(vec![("SnapshotState", plist::Value::String("finished".to_string()))])
}

fn manifest(encrypted: bool) -> Vec<u8> {
    plist_of(vec![("IsEncrypted", plist::Value::Boolean(encrypted))])
}

/// Verifies a backup whose manifest lists `ids`, of which `present` are there.
fn verify_plain(status: &Result<&[u8], String>, ids: &[&str], present: &[&str]) -> Report {
    let encrypted = backup_is_encrypted(&Ok(manifest(false).as_slice()));
    let plan = manifest_plan(encrypted, false);
    let check = check_manifest(
        plan,
        ManifestReading::Opened {
            integrity: Ok("ok".to_string()),
            files: Ok(ids.iter().map(|s| s.to_string()).collect()),
        },
    );
    let here: Vec<bool> = ids.iter().map(|id| present.contains(id)).collect();
    run_blocking(
        status_finished(status),
        scan_backup_dir(&present.iter().map(|_| 7u64).collect()),
        &check,
        &here,
        ids.len() as u64,
    )
}

#[test]
fn scan_is_zero_for_missing_directory() {
    assert!(!std::path::Path::new("/does/not/exist/cradle-test").exists());
    assert_eq!(scan_backup_dir(&vec![]), (0, 0));
}

#[test]
fn unencrypted_backup_with_every_file_present_is_verified() {
    let status = finished_status();
    let report = verify_plain(&Ok(status.as_slice()), &["aa11", "bb22"], &["aa11", "bb22"]);
    assert_eq!(report.outcome, Outcome::Verified);
    assert!(report.manifest_integrity_checked);
    assert_eq!(report.files_missing, 0);
    assert_eq!(report.files_expected, Some(2));
    assert_eq!((report.files_on_disk, report.total_bytes), (2, 14));
    assert!(report.passed());
}

#[test]
fn unencrypted_backup_missing_a_payload_file_is_invalid() {
    let status = finished_status();
    let report = verify_plain(&Ok(status.as_slice()), &["aa11", "bb22"], &["aa11"]);
    assert_eq!(report.outcome, Outcome::Invalid);
    assert_eq!(report.files_missing, 1);
    assert!(report.problems.iter().any(|p| p.contains("missing on disk")));
    assert_eq!(report.problems[0], "1 of 2 file(s) listed in Manifest.db are missing on disk.");
}

#[test]
fn unfinished_status_is_invalid_even_with_a_perfect_manifest() {
    let report = verify_plain(&Err("no such file".to_string()), &["aa11"], &["aa11"]);
    assert_eq!(report.outcome, Outcome::Invalid);
    assert!(!report.status_finished);
}

#[test]
fn encrypted_backup_without_a_password_needs_one_rather_than_passing() {
    let status = finished_status();
    let encrypted = backup_is_encrypted(&Ok(manifest(true).as_slice()));
    let plan = manifest_plan(encrypted, false);
    assert!(matches!(plan, ManifestPlan::NeedsPassword));
    let check = check_manifest(plan, ManifestReading::Absent);
    let report =
        run_blocking(status_finished(&Ok(status.as_slice())), (1, 32), &check, &vec![], 1);
    assert_eq!(report.outcome, Outcome::NeedsPassword);
    assert!(!report.manifest_integrity_checked);
    assert!(!report.passed());
}

#[test]
fn only_a_finished_snapshot_is_finished() {
    assert!(status_finished(&Ok(finished_status().as_slice())));
    let other = plist_of(vec![("SnapshotState", plist::Value::String("new".to_string()))]);
    assert!(!status_finished(&Ok(other.as_slice())));
    let odd = plist_of(vec![("SnapshotState", plist::Value::Boolean(true))]);
    assert!(!status_finished(&Ok(odd.as_slice())));
    assert!(!status_finished(&Ok(b"<plist><array/></plist>")));
}

#[test]
fn a_backup_counts_as_encrypted_unless_it_says_otherwise() {
    assert!(!backup_is_encrypted(&Ok(manifest(false).as_slice())));
    assert!(backup_is_encrypted(&Ok(manifest(true).as_slice())));
    assert!(backup_is_encrypted(&Ok(b"broken")));
    assert!(backup_is_encrypted(&Err("gone".to_string())));
    assert!(matches!(manifest_plan(false, true), ManifestPlan::Plain));
    assert!(matches!(manifest_plan(true, true), ManifestPlan::Decrypt));
}

fn failure(plan: ManifestPlan, reading: ManifestReading) -> String {
    match check_manifest(plan, reading) {
        ManifestCheck::Failed { reason, .. } => reason,
        _ => panic!("a failure was expected"),
    }
}

#[test]
fn each_way_a_manifest_fails_is_named() {
    assert_eq!(
        failure(ManifestPlan::Plain, ManifestReading::Absent),
        "Manifest.db is missing — the backup did not arrive intact."
    );
    assert!(failure(ManifestPlan::Plain, ManifestReading::NotOpened("busy".to_string()))
        .contains("busy"));
    assert_eq!(
        failure(
            ManifestPlan::Decrypt,
            ManifestReading::NotDecrypted(CradleError::Other("wrong".to_string()))
        ),
        "wrong"
    );
    assert_eq!(
        failure(
            ManifestPlan::Decrypt,
            ManifestReading::DecryptedNotOpened("bad".to_string())
        ),
        "could not open decrypted Manifest.db: bad"
    );
    let opened = |integrity: Result<&str, &str>, files: Result<Vec<String>, &str>| {
        ManifestReading::Opened {
            integrity: integrity.map(|s| s.to_string()).map_err(|s| s.to_string()),
            files: files.map_err(|s| s.to_string()),
        }
    };
    assert_eq!(
        failure(ManifestPlan::Plain, opened(Ok("row 1 missing"), Ok(vec![]))),
        "Manifest.db failed integrity check: row 1 missing"
    );
    assert_eq!(
        failure(ManifestPlan::Plain, opened(Err("locked"), Ok(vec![]))),
        "could not run integrity check on Manifest.db: locked"
    );
    assert_eq!(
        failure(ManifestPlan::Decrypt, opened(Ok("ok"), Err("no such table"))),
        "could not read Manifest.db's Files table: no such table"
    );
}

#[test]
fn a_failed_manifest_is_a_problem_of_its_own() {
    let check = ManifestCheck::Failed { reason: "broken".to_string(), checked: true };
    let report = run_blocking(true, (1, 1), &check, &vec![], 0);
    assert_eq!(report.outcome, Outcome::Invalid);
    assert_eq!(report.problems, vec!["broken"]);
    assert!(report.manifest_integrity_checked);
    assert_eq!(report.files_expected, None);
}

#[test]
fn only_a_manifest_that_was_opened_counts_as_checked() {
    let judged = |plan, reading| {
        run_blocking(true, (1, 1), &check_manifest(plan, reading), &vec![], 0)
    };
    let missing = judged(ManifestPlan::Plain, ManifestReading::Absent);
    assert_eq!(missing.outcome, Outcome::Invalid);
    assert!(!missing.manifest_integrity_checked);
    assert_eq!((missing.files_expected, missing.files_missing), (None, 0));
    assert_eq!(missing.problems.len(), 1);
    let wrong = ManifestReading::NotDecrypted(CradleError::WrongBackupPassword);
    let wrong = judged(ManifestPlan::Decrypt, wrong);
    assert_eq!(wrong.outcome, Outcome::Invalid);
    assert!(!wrong.manifest_integrity_checked);
    let opened = |integrity| ManifestReading::Opened { integrity, files: Ok(vec![]) };
    let damaged = judged(ManifestPlan::Plain, opened(Ok("row 3 missing".to_string())));
    assert!(damaged.manifest_integrity_checked);
    let stuck = judged(ManifestPlan::Plain, opened(Err("locked".to_string())));
    assert!(!stuck.manifest_integrity_checked);
}

fn status_with(date: &str) -> Vec<u8> {
    format!(
        "<?xml version=\"1.0\"?><!DOCTYPE plist PUBLIC \"-//A>\" \"http://a\">\
         <plist version=\"1.0\"><dict><key>Date</key>{date}\
         <key>SnapshotState</key><string>finished</string></dict></plist>"
    )
    .into_bytes()
}

#[test]
fn a_date_that_cannot_be_held_is_refused() {
    for date in [
        "<date>9999-12-31T23:59:59-01:00</date>",
        "<date>9999-12-31T23:00:00-01:00</date>",
        "<date>9999-12-31T00:30:00-23:30</date>",
        "<date>9999-12-31 23:59:59.25-00:01</date>",
        "<date>9999-12-31&lt;23:59:59-01:00</date>",
        "<x:date>9999-12-31T23:59:59-01:00</x:date>",
        "<date >9999-12-31T23:59:59-01:00</date>",
        "<date>&#57;999-12-31T23:59:59-01:00</date>",
        "<date>&#x039;999-12-31T23:59:59-01:0&#48;</date>",
        "<date>9999-12-31T23:59:59-01:00&unknown;</date>",
        "<date>9999<!-- -->-12-31T23:59:59-01:00</date>",
        "<date>9999<![CDATA[]]>-12-31T23:59:59-01:00</date>",
        "<date>9999<?p?>-12-31T23:59:59-01:00</date>",
        "<date>9999<!doctype a>-12-31T23:59:59-01:00</date>",
        "<date a='>'>9999-12-31T23:59:59-01:00</date>",
        "<a'>':date>9999-12-31T23:59:59-01:00</a'>':date>",
    ] {
        assert!(!has_dates_that_fit(&status_with(date)), "{date}");
        assert!(!status_finished(&Ok(status_with(date).as_slice())));
        let words = read_members(&Ok(status_with(date).as_slice())).unwrap_err();
        assert_eq!(words, "a date is out of range");
    }
    let declared = b"<!DOCTYPE p [<!ENTITY a '<b>'>]><date>9999-12-31T23:59:59-01:00</date>";
    assert!(!has_dates_that_fit(declared));
}

#[test]
fn any_other_date_is_read() {
    let past = "<date>9999-12-31T23:59:59-01:00</date>";
    for date in [
        "<date>2024-05-01T10:00:00Z</date>",
        "<date>9999-12-31T23:59:59Z</date>",
        "<date>9999-12-31T23:59:59+01:00</date>",
        "<date>9999-12-30T23:59:59-23:59</date>",
        "<date>9999-12-31T00:00:00-01:00</date>",
        "<date>9999-12-31T22:59:59.999-01:00</date>",
        "<date b=\"c\">2020-01-01T00:00:00Z</date>",
        "<date b='>'>2020-01-01T00:00:00Z</date>",
        "<date>&#50;020-01-01T00:00:00&#x5a;</date>",
        "<date>2020-01-01T00:00:00&unknown;Z</date>",
        "<date>2020<!-- -->-01-01T00:00:00Z</date>",
        "<date>2020-01-01<?p?>T00:00:00Z<![CDATA[-]]></date>",
        "<!-- <a'b> --><true/>",
        "<![CDATA[<a\"b>]]><true/>",
    ] {
        assert!(status_finished(&Ok(status_with(date).as_slice())), "{date}");
    }
    for hidden in [
        format!("<!-- {past} --><true/>"),
        format!("<![CDATA[{past}]]><true/>"),
        format!("<?p {past}?><true/>"),
        format!("<string a=\"{past}\">b</string>"),
        "<string>&lt;date>9999-12-31T23:59:59-01:00&lt;/date></string>".to_string(),
    ] {
        assert!(status_finished(&Ok(status_with(&hidden).as_slice())), "{hidden}");
    }
    let declared = "<!DOCTYPE plist [<!ENTITY a '<b>'>]><plist><dict><key>SnapshotState</key>\
                    <string>finished</string></dict></plist>";
    assert!(status_finished(&Ok(declared.as_bytes())));
    let plain = format!("{{ SnapshotState = finished; Date = \"{past}\"; }}");
    assert!(status_finished(&Ok(plain.as_bytes())));
}

#[test]
fn a_text_that_is_no_date_is_left_to_the_reader() {
    for date in [
        "<date>9999-12-31T23:59:60-01:00</date>",
        "<date>9999-12-31T23:59:59-01:60</date>",
        "<date>9999-12-31T24:00:00-01:00</date>",
        "<date>9999-12-31T23:59:59.-01:00</date>",
        "<date>9999-12-31T23:59:5-01:00</date>",
        "<date>9999-12-31T23:59:59-01:00 </date>",
        "<date>9999-12-31&#233;23:59:59-01:00</date>",
        "<date>9999-12-31&#0;23:59:59-01:00</date>",
        "<date>9999-12-31&#x;23:59:59-01:00</date>",
        "<date>9999-12-31&amp23:59:59-01:00</date>",
        "<date>9999-12-31T23:59:59-01:00<true/></date>",
        "<date>9999-12-31T23:59:59-01:00",
        "<date a='>9999-12-31T23:59:59-01:00</date>",
        "<date/>",
        "<date a='b'/>9999-12-31T23:59:59-01:00",
        "<!-- ",
        "<!X>",
    ] {
        assert!(has_dates_that_fit(&status_with(date)), "{date}");
        let words = read_members(&Ok(status_with(date).as_slice())).unwrap_err();
        assert_ne!(words, "a date is out of range");
    }
    assert!(has_dates_that_fit(b"bplist00<date>9999-12-31T23:59:59-01:00</date>"));
    assert!(has_dates_that_fit(b"<"));
    assert!(has_dates_that_fit(b""));
}

#[test]
fn payload_files_lie_below_their_first_two_bytes() {
    assert_eq!(payload_path("/b", "aa11").as_deref(), Some("/b/aa/aa11"));
    assert_eq!(payload_path("/b", "a"), None);
    assert_eq!(payload_path("/b", "aé1"), None);
    assert_eq!(payload_path("/b", "é1").as_deref(), Some("/b/é/é1"));
    let ids = vec!["aa11".to_string(), "a".to_string()];
    assert_eq!(missing_payload_files(&ids, &vec![true, true]), 1);
    assert_eq!(missing_payload_files(&ids, &vec![false, false]), 2);
    assert!(holds_payload(true, 2));
    assert!(!holds_payload(true, 3));
    assert!(!holds_payload(false, 2));
}

fn put_field(buf: &mut Vec<u8>, tag: &[u8; 4], value: &[u8]) {
    buf.extend_from_slice(tag);
    buf.extend_from_slice(&(value.len() as u32).to_be_bytes());
    buf.extend_from_slice(value);
}

#[test]
fn an_encrypted_manifest_is_decrypted_with_its_own_key() {
    let mut intermediate = [0u8; 32];
    pbkdf2::pbkdf2_hmac::<sha2::Sha256>(b"pw", b"stretch", 10, &mut intermediate);
    let mut root_key = [0u8; 32];
    pbkdf2::pbkdf2_hmac::<sha1::Sha1>(&intermediate, b"salt", 10, &mut root_key);
    let class_key = [9u8; 32];
    let item_key = [8u8; 32];
    let mut wrapped_class = [0u8; WRAPPED_KEY_LEN];
    aes_kw::KwAes256::new((&root_key).into()).wrap_key(&class_key, &mut wrapped_class).unwrap();
    let mut wrapped_item = [0u8; WRAPPED_KEY_LEN];
    aes_kw::KwAes256::new((&class_key).into()).wrap_key(&item_key, &mut wrapped_item).unwrap();

    let mut raw = Vec::new();
    put_field(&mut raw, b"SALT", b"salt");
    put_field(&mut raw, b"ITER", &10u32.to_be_bytes());
    put_field(&mut raw, b"DPSL", b"stretch");
    put_field(&mut raw, b"DPIC", &10u32.to_be_bytes());
    put_field(&mut raw, b"CLAS", &4u32.to_be_bytes());
    put_field(&mut raw, b"WRAP", &WRAP_BY_PASSWORD.to_be_bytes());
    put_field(&mut raw, b"WPKY", &wrapped_class);
    let mut manifest_key = 4u32.to_le_bytes().to_vec();
    manifest_key.extend_from_slice(&wrapped_item);
    let manifest = plist_of(vec![
        ("BackupKeyBag", plist::Value::Data(raw)),
        ("ManifestKey", plist::Value::Data(manifest_key)),
    ]);

    let plain = b"SQLite format 3\0SQLite format 3\0".to_vec();
    let mut db = plain.clone();
    let n = db.len();
    cbc::Encryptor::<aes::Aes256>::new(&item_key.into(), &[0u8; 16].into())
        .encrypt_padded::<NoPadding>(&mut db, n)
        .unwrap();
    let opened = decrypt_manifest(&Ok(manifest.as_slice()), "pw", Ok(db.clone())).unwrap();
    assert_eq!(opened, plain);

    assert!(decrypt_manifest(&Ok(manifest.as_slice()), "no", Ok(db)).is_err());
    let lost = decrypt_manifest(&Ok(manifest.as_slice()), "pw", Err("gone".to_string()));
    assert!(matches!(lost, Err(CradleError::Io(m)) if m == "gone"));
    let keyless = plist_of(vec![]);
    assert_eq!(
        decrypt_manifest(&Ok(keyless.as_slice()), "pw", Ok(vec![])).unwrap_err().message(),
        "Manifest.plist has no ManifestKey"
    );
}

#[test]
fn on_disk_file_ids_reads_the_fan_out_layout() {
    let dir = |name: &str, files: &[&str]| TopEntry {
        is_dir: true,
        name_len: name.len(),
        files: files.iter().map(|f| Some(f.to_string())).collect(),
    };
    let top = vec![
        dir("aa", &["aa112233"]),
        dir("bb", &["bb445566"]),
        dir("Snapshot", &["other"]),
        TopEntry { is_dir: true, name_len: 2, files: vec![None, Some("aa112233".to_string())] },
    ];
    assert_eq!(on_disk_file_ids(&top), vec!["aa112233".to_string(), "bb445566".to_string()]);
    assert!(on_disk_file_ids(&vec![]).is_empty());
}

#[test]
fn what_was_read_of_the_lists_decides() {
    let text = |s: &str| PlistValue::Text(s.to_string());
    let state = |v: PlistValue| Ok(vec![("SnapshotState".to_string(), v)]);
    assert!(says_finished(&state(text("finished"))));
    assert!(!says_finished(&state(text("moving"))));
    assert!(!says_finished(&state(PlistValue::Flag(true))));
    assert!(!says_finished(&Err("gone".to_string())));

    let flag = |b: bool| Ok(vec![("IsEncrypted".to_string(), PlistValue::Flag(b))]);
    assert!(says_encrypted(&flag(true)));
    assert!(!says_encrypted(&flag(false)));
    assert!(says_encrypted(&Ok(vec![])));

    let key = |name: &str| Ok(vec![(name.to_string(), PlistValue::Bytes(vec![1, 2]))]);
    assert_eq!(
        decrypt_manifest_with(&key("BackupKeyBag"), "pw", Ok(vec![])).unwrap_err().message(),
        "Manifest.plist has no ManifestKey"
    );
    assert_eq!(
        decrypt_manifest_with(&key("ManifestKey"), "pw", Ok(vec![])).unwrap_err().message(),
        "Manifest.plist has no BackupKeyBag"
    );
    assert_eq!(
        decrypt_manifest_with(&Err("gone".to_string()), "pw", Ok(vec![])).unwrap_err().message(),
        "could not read Manifest.plist: gone"
    );
}
