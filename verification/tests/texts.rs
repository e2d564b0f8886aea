use enclaver::clock::{stamp_dir_name, Moment, LAST_SECOND};
use enclaver::messages::{FileEntry, SyncMessage};
use enclaver::text::render_number;

fn entry(name: &str, manifest_path: &str, size: u64) -> FileEntry {
    FileEntry {
        name: name.to_string(),
        manifest_path: manifest_path.to_string(),
        size,
    }
}

fn awkward() -> Vec<String> {
    [
        "",
        "plain",
        "two words",
        "quote \" and \\ and '",
        "line\nbreak\ttab\r\0",
        "\u{e9}\u{301}\u{200b}\u{1f600}",
        "\u{7f}\u{1b}",
    ]
    .iter()
    .map(|s| s.to_string())
    .collect()
}

#[test]
fn entries_are_described_as_debug_writes_them() {
    for a in awkward() {
        for b in awkward() {
            for size in [0, 9, 10, 1024, u64::MAX] {
                let e = entry(&a, &b, size);
                assert_eq!(e.describe(), format!("{:?}", e));
            }
        }
    }
    assert_eq!(
        entry("a", "/d/a", 3).describe(),
        "FileEntry { name: \"a\", manifest_path: \"/d/a\", size: 3 }"
    );
}

#[test]
fn messages_are_described_as_debug_writes_them() {
    let mut messages = vec![SyncMessage::InitialSyncComplete, SyncMessage::InitialSyncAck];
    for text in awkward() {
        messages.push(SyncMessage::ChangesetEnd {
            directory: text.clone(),
        });
        for success in [true, false] {
            messages.push(SyncMessage::ChangesetAck {
                directory: text.clone(),
                success,
                error: None,
            });
            messages.push(SyncMessage::ChangesetAck {
                directory: "/d".to_string(),
                success,
                error: Some(text.clone()),
            });
        }
        for count in 0..4 {
            messages.push(SyncMessage::ChangesetBegin {
                directory: text.clone(),
                files: (0..count).map(|i| entry(&text, "/d/x", i)).collect(),
            });
        }
    }
    for m in messages {
        assert_eq!(m.describe(), format!("{:?}", m));
    }
    assert_eq!(
        SyncMessage::ChangesetEnd {
            directory: "/etc \"x\"".to_string()
        }
        .describe(),
        "ChangesetEnd { directory: \"/etc \\\"x\\\"\" }"
    );
}

#[test]
fn numbers_are_written_in_decimal() {
    for n in [0, 1, 9, 10, 99, 100, 65536, 1234567890, u64::MAX] {
        assert_eq!(render_number(n), n.to_string());
    }
    assert_eq!(render_number(u64::MAX), "18446744073709551615");
}

#[test]
fn stamps_are_dates_with_microseconds() {
    let name = |secs: i64, nanos: u32| stamp_dir_name(Moment { secs, nanos });
    assert_eq!(name(0, 0), "..1970_01_01_00_00_00.000000");
    assert_eq!(name(1431648000, 0), "..2015_05_15_00_00_00.000000");
    assert_eq!(name(1709210096, 123_456_789), "..2024_02_29_12_34_56.123456");
    assert_eq!(name(253402300799, 999_999_999), "..9999_12_31_23_59_59.999999");
    assert_eq!(name(253402300800, 1_000), "..+10000_01_01_00_00_00.000001");
    assert_eq!(
        name(LAST_SECOND, 999_999_999),
        "..+262142_12_31_23_59_59.999999"
    );
}

#[test]
fn stamps_tell_microseconds_apart() {
    let name = |secs: i64, nanos: u32| stamp_dir_name(Moment { secs, nanos });
    assert_eq!(name(1700000000, 5_000), name(1700000000, 5_999));
    assert_ne!(name(1700000000, 5_999), name(1700000000, 6_000));
    assert_ne!(name(1700000000, 0), name(1700000001, 0));
    assert_ne!(name(1700000000, 999_999_999), name(1700000001, 0));
}
