//! Paths, tools, memory, locks, notifications and the Keychain.
use cradle::keychain::{
    delete, destination_account, device_account, generate_and_store, generate_password, hex_text,
    new_destination_account, read, store, try_read, KeychainReply,
};
use cradle::lock::LockRegistry;
use cradle::memory::{free_bytes, free_in_listing};
use cradle::notify::{alert, applescript_string_literal};
use cradle::paths::{
    components_of, default_scratch_dir, default_working_dir, file_name_of, join, lies_within,
    parent_of, same_path,
};
use cradle::text::{
    begins, ends, lines_of, mentions, parse_u32, parse_u64, pieces_of, split_at_first, trimmed,
    words_of,
};
use cradle::tools::{candidates, resolve};

#[test]
fn finds_a_real_tool_on_path() {
    let dirs = vec!["/usr/bin".to_string(), "/bin".to_string()];
    let places = candidates(&dirs, "sh");
    let is_file: Vec<bool> = places.iter().map(|p| std::path::Path::new(p).is_file()).collect();
    assert!(resolve("sh", &places, &is_file).is_ok());
}

#[test]
fn reports_a_clear_error_for_a_tool_that_does_not_exist() {
    let dirs = vec!["/usr/bin".to_string(), "/bin".to_string()];
    let places = candidates(&dirs, "cradle-definitely-not-a-real-binary-xyz");
    let is_file: Vec<bool> = places.iter().map(|p| std::path::Path::new(p).is_file()).collect();
    let err = resolve("cradle-definitely-not-a-real-binary-xyz", &places, &is_file).unwrap_err();
    assert!(err.message().contains("not found"));
}

#[test]
fn the_usual_places_are_tried_last() {
    let places = candidates(&vec!["/a".to_string()], "restic");
    assert_eq!(places, vec!["/a/restic", "/opt/homebrew/bin/restic", "/usr/local/bin/restic"]);
    assert_eq!(resolve("restic", &places, &vec![false, true, true]).unwrap(), places[1]);
}

#[test]
fn paths_are_joined_and_taken_apart() {
    for (a, b) in [("/a", "b"), ("/a/", "b"), ("", "b"), ("/a", "/b"), ("/a", ""), ("a", "b/c")] {
        let std_join = std::path::Path::new(a).join(b);
        assert_eq!(join(a, b), std_join.to_str().unwrap());
    }
    for p in ["/", "/a", "/a/", "a", "", "a/b", "/a//b", "/a/.", "/a/b/..", "..", "./a", "/a/./b/"] {
        let std_path = std::path::Path::new(p);
        assert_eq!(parent_of(p).as_deref(), std_path.parent().map(|q| q.to_str().unwrap()), "{p}");
        assert_eq!(
            file_name_of(p).as_deref(),
            std_path.file_name().map(|q| q.to_str().unwrap()),
            "{p}"
        );
        for q in ["/", "/a", "/a/b", "a", "/a//b/", "", "/ab"] {
            let other = std::path::Path::new(q);
            assert_eq!(lies_within(p, q), std_path.starts_with(other), "{p} in {q}");
            assert_eq!(same_path(p, q), std_path == other, "{p} is {q}");
        }
    }
    assert_eq!(components_of("/a/./b//c").len(), std::path::Path::new("/a/./b//c").components().count());
    assert_eq!(default_working_dir(Some("/home/u"), "/tmp"), "/home/u/Cradle/working");
    assert_eq!(default_scratch_dir(None, "/tmp"), "/tmp/Cradle/scratch");
}

#[test]
fn texts_are_taken_apart_as_std_does() {
    for s in ["", " ", "a\nb", "a\r\nb\n", "\n\n", "a\r", " x  y\tz ", "\u{a0}n\u{2003}", "a,b,,c,"] {
        assert_eq!(trimmed(s), s.trim());
        assert_eq!(lines_of(s), s.lines().map(str::to_string).collect::<Vec<_>>(), "{s:?}");
        assert_eq!(words_of(s), s.split_whitespace().map(str::to_string).collect::<Vec<_>>());
        assert_eq!(pieces_of(s, ','), s.split(',').map(str::to_string).collect::<Vec<_>>());
        assert_eq!(
            split_at_first(s, ",b"),
            s.split_once(",b").map(|(a, b)| (a.to_string(), b.to_string()))
        );
        for p in ["", "a", "\n", "b"] {
            assert_eq!(mentions(s, p), s.contains(p));
            assert_eq!(begins(s, p), s.starts_with(p));
            assert_eq!(ends(s, p), s.ends_with(p));
        }
    }
    for s in ["0", "+7", "", "+", "-1", "00012", "18446744073709551615", "18446744073709551616", "1 "] {
        assert_eq!(parse_u64(s), s.parse::<u64>().ok(), "{s}");
        assert_eq!(parse_u32(s), s.parse::<u32>().ok(), "{s}");
    }
}

#[test]
fn free_memory_is_read_off_the_listing() {
    let listing = "Mach Virtual Memory Statistics: (page size of 16384 bytes)\n\
                   Pages free:                                3000.\n\
                   Pages active:                            200000.\n";
    assert_eq!(free_in_listing(listing), Some(3000 * 16384));
    assert_eq!(free_bytes(true, listing.as_bytes()), Some(3000 * 16384));
    assert_eq!(free_bytes(false, listing.as_bytes()), None);
    assert_eq!(free_in_listing("nothing"), None);
    assert_eq!(free_bytes(true, b"\xff(page size of 2 bytes)\nPages free: 5.\n"), Some(10));
}

#[test]
fn second_acquire_in_process_fails_while_first_is_held() {
    let mut locks = LockRegistry::new();
    let pending = locks.begin("/w", "udid-1").unwrap();
    assert_eq!(pending.lock_path, "/w/.udid-1.lock");
    let first = locks.locked(pending);

    let err = locks.begin("/w", "udid-1").unwrap_err();
    assert!(err.message().contains("already running"));

    locks.release(first);
    let _third = locks.begin("/w", "udid-1").unwrap();
}

#[test]
fn different_udids_do_not_contend() {
    let mut locks = LockRegistry::new();
    let a = locks.begin("/w", "udid-a").unwrap();
    let _a = locks.locked(a);
    let b = locks.begin("/w", "udid-b").unwrap();
    let _b = locks.locked(b);
}

#[test]
fn dropping_releases_it_for_a_later_acquire() {
    let mut locks = LockRegistry::new();
    let pending = locks.begin("/w", "udid-1").unwrap();
    let lock = locks.locked(pending);
    locks.release(lock);
    let _lock_again = locks.begin("/w", "udid-1").unwrap();
}

#[test]
fn a_lock_that_was_refused_is_held_by_nobody_here() {
    let mut locks = LockRegistry::new();
    let pending = locks.begin("/w", "U").unwrap();
    let err = locks.lock_refused(pending, "busy".to_string());
    assert!(err.message().contains("another Cradle process is already running against /w/U (busy)"));
    let pending = locks.begin("/w", "U").unwrap();
    let err = locks.open_failed(pending, "denied".to_string());
    assert!(err.message().contains("denied"));
    assert!(locks.begin("/w", "U").is_ok());
}

#[test]
fn notifications_are_quoted() {
    assert_eq!(applescript_string_literal("a\"b\\c"), "\"a\\\"b\\\\c\"");
    assert_eq!(
        alert("T", "say \"hi\""),
        "display notification \"say \\\"hi\\\"\" with title \"T\""
    );
}

#[test]
fn accounts_are_told_apart() {
    assert_eq!(device_account("U"), "cradle-device-backup-U");
    assert_eq!(destination_account("nas", &[1, 0xab]), "cradle-destination-nas-01ab");
    let a = new_destination_account("nas");
    let b = new_destination_account("nas");
    assert!(a.starts_with("cradle-destination-nas-"));
    assert_eq!(a.len(), "cradle-destination-nas-".len() + 16);
    assert_ne!(a, b);
    assert_eq!(hex_text(&[0, 255, 16]), "00ff10");
}

#[test]
fn passwords_are_random_and_sixty_four_digits_long() {
    let a = generate_password();
    assert_eq!(a.len(), 64, "32 bytes hex-encoded");
    assert!(a.chars().all(|c| c.is_ascii_hexdigit() && !c.is_ascii_uppercase()));
    assert_ne!(a, generate_password());
    assert_eq!(generate_and_store("p".to_string(), Ok(())).unwrap(), "p");
    assert_eq!(
        generate_and_store("p".to_string(), Err("denied".to_string())).unwrap_err().message(),
        "could not store Keychain entry: denied"
    );
}

#[test]
fn a_missing_entry_is_no_error_where_it_may_be_missing() {
    let found = |b: &[u8]| KeychainReply::Found(b.to_vec());
    assert_eq!(read(found(b"pw")).unwrap(), "pw");
    assert_eq!(read(found(b"\xff")).unwrap_err().message(), "Keychain entry was not valid UTF-8");
    assert!(read(KeychainReply::NotFound("none".to_string()))
        .unwrap_err()
        .message()
        .contains("could not read Keychain entry: none"));
    assert_eq!(try_read(found(b"pw")).unwrap().as_deref(), Some("pw"));
    assert_eq!(try_read(KeychainReply::NotFound("none".to_string())).unwrap(), None);
    assert!(try_read(KeychainReply::Failed("denied".to_string())).is_err());
    assert!(store(Ok(())).is_ok());
    assert!(delete(Err("gone".to_string())).unwrap_err().message().contains("could not delete"));
}
