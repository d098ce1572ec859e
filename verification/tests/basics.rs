use std::path::PathBuf;

use fast_resume::adapters::proto::{read_proto_varint, ProtoField, ProtoMessage};
use fast_resume::adapters::shared::{
    build_resume_command, deleted_ids_for_agent, incremental_scan, session_needs_update, sum_stats,
    FileStats, IgnoreSessions, IncrementalParse, KnownSessions, ScanEntry, SessionLog, StringSet,
};
use fast_resume::json::{parse_json, string_at};
use fast_resume::model::{truncate_title, Session};
use fast_resume::numbers::{decimal_text, parse_usize};
use fast_resume::paths::{name_extension, name_stem, FsPath};
use fast_resume::percent::percent_decode;
use fast_resume::string_map::StringMap;
use fast_resume::text::{
    find_last, join, starts_with, text_from_utf8, trim, trim_matches, trim_start_matches,
    CharClass,
};
use fast_resume::time::{is_later, latest_of, timestamp_from_ms, Timestamp};

fn session(id: &str) -> Session {
    Session::new(
        id.to_string(),
        "agent",
        "title".to_string(),
        String::new(),
        Timestamp { seconds: 0, nanos: 0 },
        String::new(),
        1,
    )
}

#[test]
fn character_classes_agree_with_the_standard_library() {
    for code in 0..=0x10ffffu32 {
        if let Some(c) = char::from_u32(code) {
            assert_eq!(CharClass::WhiteSpace.contains(c), c.is_whitespace(), "{code:x}");
            assert_eq!(CharClass::Control.contains(c), c.is_control(), "{code:x}");
            assert_eq!(CharClass::Nul.contains(c), code == 0);
        }
    }
}

#[test]
fn text_is_trimmed_and_joined() {
    assert_eq!(trim("\u{3000} a b \n"), "a b");
    assert_eq!(trim(" \t "), "");
    assert_eq!(trim_matches("\u{1}\ta\u{7f}", CharClass::Control), "a");
    assert_eq!(trim_start_matches("» » x» ", "» "), "x» ");
    assert_eq!(join(&vec!["a".to_string(), "".to_string(), "b".to_string()], ", "), "a, , b");
    assert!(starts_with("file:x", "file:"));
    assert!(!starts_with("fil", "file:"));
    assert_eq!(find_last(&['a', '$', 'b', '$'], '$'), Some(3));
    assert_eq!(find_last(&['a'], '$'), None);
    assert_eq!(text_from_utf8("é»".as_bytes()).as_deref(), Some("é»"));
    assert_eq!(text_from_utf8(b"\xc3"), None);
}

#[test]
fn titles_are_shortened() {
    assert_eq!(truncate_title("  short  ", 10, true), "short");
    assert_eq!(truncate_title("one two three", 9, true), "one two...");
    assert_eq!(truncate_title("one two three", 9, false), "one two t...");
    assert_eq!(truncate_title("unbroken", 3, true), "unb...");
    assert_eq!(truncate_title("éééé", 4, true), "éééé");
}

#[test]
fn numbers_are_written_and_read() {
    for number in [0, 7, 10, 1203, -1, i64::MAX, i64::MIN] {
        assert_eq!(decimal_text(number), number.to_string());
    }
    for text in ["0", "10", "+1", "", "+", "18446744073709551615", "18446744073709551616", "1_0"] {
        assert_eq!(parse_usize(text), text.parse::<usize>().ok(), "{text}");
    }
}

#[test]
fn escapes_are_decoded() {
    assert_eq!(percent_decode("%2Fwork%2fcursor"), "/work/cursor");
    assert_eq!(percent_decode("C%3A%5Cwork%5Ccursor"), "C:\\work\\cursor");
    assert_eq!(percent_decode("100%"), "100%");
    assert_eq!(percent_decode("%zz%2"), "%zz%2");
    assert_eq!(percent_decode("%C3%A9"), "é");
    assert_eq!(percent_decode("%ff"), "\u{fffd}");
    assert_eq!(percent_decode("plain é"), "plain é");
}

#[test]
fn names_are_divided_at_the_last_dot() {
    for name in ["a.b.c", "plain", ".hidden", ".hidden.x", "dot.", "a", "...", "...db", "..db"] {
        let path = std::path::Path::new(name);
        assert_eq!(name_extension(name).as_deref(), path.extension().and_then(|e| e.to_str()));
        assert_eq!(Some(name_stem(name).as_str()), path.file_stem().and_then(|s| s.to_str()));
    }
    let path = FsPath::at(PathBuf::from("/base")).join("dir").join("file.db");
    assert!(path.has_extension("db"));
    assert_eq!(path.file_stem().as_deref(), Some("file"));
    assert_eq!(path.name_above(1).map(String::as_str), Some("dir"));
    assert_eq!(path.name_above(2), None);
    assert_eq!(name_extension(".."), None);
    let up = FsPath::at(PathBuf::from("/base")).join("dir").join("..");
    assert_eq!(up.name_above(0), None);
    assert_eq!(up.extension(), None);
    assert_eq!(up.file_stem(), None);
    assert_eq!(up.name_above(1).map(String::as_str), Some("dir"));
    let same = FsPath::at(PathBuf::from("/base")).join("dir").join(".").join("");
    assert_eq!(*same.names(), vec!["dir"]);
}

#[test]
fn documents_are_read_by_path() {
    let document = parse_json(br#"{"a":{"b":"c","n":3,"n2":2.9},"l":[1,null,true],"a":{"b":"d"}}"#).unwrap();
    assert_eq!(string_at(&document, &["a", "b"]), "d");
    assert_eq!(string_at(&document, &["a", "x"]), "");
    assert_eq!(string_at(&document, &["l"]), "");
    assert_eq!(document.get("l").unwrap().as_array().unwrap().len(), 3);
    assert_eq!(document.get("l").unwrap().as_array().unwrap()[0].as_i64(), Some(1));
    assert_eq!(parse_json(b"2.9").unwrap().as_i64(), None);
    assert_eq!(parse_json(b"18446744073709551615").unwrap().as_i64(), None);
    assert!(parse_json(b"{\"a\":1} x").is_none());
    assert!(parse_json(b"").is_none());
    assert_eq!(parse_json("\"é\\u00e9\"".as_bytes()).unwrap().as_str().unwrap(), "éé");
}

#[test]
fn instants_are_ordered_and_bounded() {
    let early = Timestamp { seconds: 5, nanos: 1 };
    let late = Timestamp { seconds: 5, nanos: 2 };
    assert!(is_later(late, early));
    assert!(!is_later(early, early));
    assert_eq!(latest_of(Some(early), Some(late)), Some(late));
    assert_eq!(latest_of(None, Some(early)), Some(early));
    assert_eq!(latest_of(Some(early), None), Some(early));
    assert_eq!(timestamp_from_ms(None), None);
    assert_eq!(timestamp_from_ms(Some(-1)), Some(Timestamp { seconds: -1, nanos: 999_000_000 }));
    let last = 8_210_266_876_799_999;
    assert_eq!(
        timestamp_from_ms(Some(last)),
        Some(Timestamp { seconds: 8_210_266_876_799, nanos: 999_000_000 })
    );
    assert_eq!(timestamp_from_ms(Some(last + 1)), None);
    let first = -8_334_601_228_800_000;
    assert_eq!(
        timestamp_from_ms(Some(first)),
        Some(Timestamp { seconds: -8_334_601_228_800, nanos: 0 })
    );
    assert_eq!(timestamp_from_ms(Some(first - 1)), None);
}

#[test]
fn varints_and_fields_are_read() {
    let mut position = 0;
    assert_eq!(read_proto_varint(&[0xac, 0x02, 7], &mut position), Some(300));
    assert_eq!(position, 2);
    assert_eq!(read_proto_varint(&[0xac, 0x02, 7], &mut position), Some(7));
    assert_eq!(read_proto_varint(&[0xac, 0x02, 7], &mut position), None);
    let mut position = 0;
    assert_eq!(read_proto_varint(&[0x80], &mut position), None);
    let mut position = 0;
    let widest = [0xff, 0xff, 0xff, 0xff, 0xff, 0xff, 0xff, 0xff, 0xff, 0x01];
    assert_eq!(read_proto_varint(&widest, &mut position), Some(u64::MAX));
    let mut position = 0;
    assert_eq!(read_proto_varint(&[0x80; 11], &mut position), None);
    assert_eq!(position, 10);

    let data = [
        0x09, 1, 2, 3, 4, 5, 6, 7, 8, 0x15, 1, 2, 3, 4, 0x12, 2, b'h', b'i', 0x18, 5, 0x03,
    ];
    let mut fields = ProtoMessage::new(&data).fields();
    assert!(matches!(fields.next(), Some(ProtoField::Fixed64)));
    assert!(matches!(fields.next(), Some(ProtoField::Fixed32)));
    assert!(matches!(fields.next(), Some(ProtoField::LengthDelimited(2, b"hi"))));
    assert!(matches!(fields.next(), Some(ProtoField::Varint(3, 5))));
    assert!(fields.next().is_none());
    assert_eq!(ProtoMessage::new(&data).first_string(2).as_deref(), Some("hi"));
    assert_eq!(ProtoMessage::new(&data).first_i64(3), Some(5));
    assert!(ProtoMessage::new(&[0x12, 9, b'x']).first_message(2).is_none());
    assert!(ProtoMessage::new(&[0x00, 1]).first_i64(0).is_none());
}

#[test]
fn maps_keep_one_value_for_each_key() {
    let mut map = StringMap::new();
    map.insert("a".to_string(), "1".to_string());
    map.insert("b".to_string(), "2".to_string());
    map.insert("a".to_string(), "3".to_string());
    assert_eq!(map.len(), 2);
    assert_eq!(map.get("a").map(String::as_str), Some("3"));
    assert_eq!(map.get("b").map(String::as_str), Some("2"));
    assert!(map.get("c").is_none());
    assert_eq!(map.key(0), "a");
    assert_eq!(map.value(1), "2");
}

#[test]
fn known_sessions_tell_what_is_new_and_gone() {
    let mut known = KnownSessions::new();
    known.insert("agent".to_string(), "a".to_string(), 5);
    known.insert("agent".to_string(), "b".to_string(), 5);
    known.insert("other".to_string(), "c".to_string(), 5);
    known.insert("agent".to_string(), "a".to_string(), 6);
    assert!(!session_needs_update(&known, "agent", "a", 6));
    assert!(session_needs_update(&known, "agent", "a", 7));
    assert!(!session_needs_update(&known, "agent", "b", 4));
    assert!(session_needs_update(&known, "agent", "c", 0));
    let mut current = StringSet::new();
    current.insert("b".to_string());
    current.insert("x".to_string());
    assert_eq!(deleted_ids_for_agent(&known, "agent", &current), vec!["a"]);
    current.remove("b");
    assert!(!current.contains("b"));
    assert_eq!(deleted_ids_for_agent(&known, "agent", &current), vec!["a", "b"]);
}

#[test]
fn scans_report_changes_and_deletions() {
    let mut known = KnownSessions::new();
    for id in ["same", "changed", "emptied", "failed", "gone"] {
        known.insert("agent".to_string(), id.to_string(), 5);
    }
    let entries = || {
        let entry = |id: &str, mtime: u64, outcome: IncrementalParse| ScanEntry {
            id: id.to_string(),
            mtime,
            outcome,
        };
        vec![
            entry("same", 5, IncrementalParse::Session(session("same"))),
            entry("changed", 6, IncrementalParse::Session(session("changed"))),
            entry("emptied", 6, IncrementalParse::Delete),
            entry("failed", 6, IncrementalParse::Retain),
            entry("new", 1, IncrementalParse::Session(session("new"))),
        ]
    };
    let mut log = SessionLog::new();
    let scan = incremental_scan("agent", &known, Some((entries(), true)), &mut log);
    let handed: Vec<(&str, u64)> = log.sessions.iter().map(|s| (s.id.as_str(), s.mtime)).collect();
    assert_eq!(handed, vec![("changed", 6), ("new", 1)]);
    let ids: Vec<&str> = scan.new_or_modified.iter().map(|s| s.id.as_str()).collect();
    assert_eq!(ids, vec!["changed", "new"]);
    assert_eq!(scan.new_or_modified[0].mtime, 6);
    assert_eq!(scan.deleted_ids, vec!["emptied", "gone"]);
    let scan = incremental_scan(
        "agent",
        &known,
        Some((entries(), false)),
        &mut IgnoreSessions::new(),
    );
    assert_eq!(scan.new_or_modified.len(), 2);
    assert!(scan.deleted_ids.is_empty());
    let scan = incremental_scan("agent", &known, None, &mut log);
    assert!(scan.new_or_modified.is_empty());
    assert!(scan.deleted_ids.is_empty());
}

#[test]
fn stats_and_commands_are_put_together() {
    let sum = sum_stats(&vec![
        FileStats { files: 2, bytes: 10 },
        FileStats { files: 3, bytes: 5 },
    ]);
    assert_eq!((sum.files, sum.bytes), (5, 15));
    let command = build_resume_command("p", &["-y", "-z"], true, &["-r"], "id");
    assert_eq!(command, vec!["p", "-y", "-z", "-r", "id"]);
    let command = build_resume_command("p", &["-y"], false, &["-r"], "id");
    assert_eq!(command, vec!["p", "-r", "id"]);
}
