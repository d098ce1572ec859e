use std::path::PathBuf;

use fast_resume::adapters::cursor::records::{
    collect_cursor_records, cursor_content_text, cursor_plain_user_message, cursor_timestamp,
    decode_json, find_speaker, CursorRecords,
};
use fast_resume::adapters::cursor::tables::{
    key_value_columns, read_key_value_table, select_query, table_info_query, SqlCell, TableRead,
};
use fast_resume::adapters::cursor::{
    cursor_directory_from_path, directory_if_absolute, read_store, session_from_records, ChatPath,
    ChatStore, CursorAdapter, CursorStore, WalkEntry,
};
use fast_resume::adapters::shared::{
    FileName, FileStats, IncrementalParse, KnownSessions, Listing, NamedStats, ScanEntry,
    StoreError,
};
use fast_resume::json::{parse_json, Json};
use fast_resume::time::Timestamp;

/// The path below `/data` by these names.
fn path(names: &[&str]) -> ChatPath {
    let all: Vec<&str> = [&["data"], names].concat();
    let above = |up: usize| {
        all.len().checked_sub(up + 1).map(|place| all[place].to_string())
    };
    ChatPath {
        place: PathBuf::from(format!("/{}", all.join("/"))),
        name: above(0),
        parent: above(1),
        grandparent: above(2),
    }
}

fn table(rows: &[(&str, &str)]) -> TableRead {
    TableRead {
        columns: Ok(vec!["key".to_string(), "value".to_string()]),
        rows: Ok(rows
            .iter()
            .map(|(key, value)| {
                (
                    SqlCell::Text(key.as_bytes().to_vec()),
                    SqlCell::Blob(value.as_bytes().to_vec()),
                )
            })
            .collect()),
    }
}

fn chat(names: &[&str], meta: &[(&str, &str)], blobs: &[(&str, &str)], mtime: u64) -> ChatStore {
    ChatStore {
        path: path(names),
        store: CursorStore { meta: table(meta), blobs: table(blobs) },
        written: Timestamp { seconds: 3, nanos: 0 },
        mtime,
    }
}

fn adapter() -> CursorAdapter {
    CursorAdapter::new(PathBuf::from("/data"))
}

fn json(text: &str) -> Json {
    parse_json(text.as_bytes()).unwrap()
}

fn at(seconds: i64) -> Timestamp {
    Timestamp { seconds, nanos: 0 }
}

#[test]
fn parses_cursor_store_database() {
    let id = "cursor-session-id";
    let names = ["%2Fwork%2Fcursor", id, "store.db"];
    let adapter = adapter();
    let walk = Listing::Entries(vec![
        Some(WalkEntry { path: path(&[]), sqlite_mtime: 1 }),
        Some(WalkEntry { path: path(&["%2Fwork%2Fcursor"]), sqlite_mtime: 1 }),
        Some(WalkEntry { path: path(&["%2Fwork%2Fcursor", id]), sqlite_mtime: 1 }),
        Some(WalkEntry { path: path(&names), sqlite_mtime: 9 }),
    ]);
    let found = adapter.scan_session_files(&walk).unwrap();
    assert!(found.complete);
    assert_eq!(found.files.len(), 1);
    assert_eq!(found.files.get(id).unwrap().mtime, 9);
    let place = PathBuf::from("/data").join(names.join("/"));
    assert_eq!(found.files.get(id).unwrap().path.place, place);
    assert_eq!(found.files.get(id).unwrap().path.name.as_deref(), Some("store.db"));

    let chats = vec![chat(
        &names,
        &[("0", r#"{"createdAt":1784282400000,"name":"Cursor adapter work"}"#)],
        &[
            (
                "u1",
                r#"{"id":"u1","role":"user","content":[{"type":"text","text":"Add Cursor support"}]}"#,
            ),
            (
                "a1",
                r#"{"id":"a1","role":"assistant","content":[{"type":"text","text":"Added the adapter"}]}"#,
            ),
        ],
        9,
    )];
    let sessions = adapter.find_sessions(&chats);
    assert_eq!(sessions.len(), 1);
    assert_eq!(sessions[0].id, id);
    assert_eq!(sessions[0].agent, "cursor");
    assert_eq!(sessions[0].title, "Cursor adapter work");
    assert_eq!(sessions[0].directory, "/work/cursor");
    assert_eq!(sessions[0].message_count, 1);
    assert_eq!(sessions[0].content, "» Add Cursor support\n\n  Added the adapter");
    assert_eq!(sessions[0].timestamp, at(1_784_282_400));
    assert_eq!(sessions[0].mtime, 9);
    assert!(adapter.supports_yolo());
    assert_eq!(
        adapter.resume_command(&sessions[0], true),
        vec!["agent", "--yolo", "--resume", id]
    );
    assert_eq!(
        adapter.resume_command(&sessions[0], false),
        vec!["agent", "--resume", id]
    );

    let named = |name: &str, exact: bool, files: usize, bytes: u64| NamedStats {
        name: FileName { text: name.to_string(), exact },
        stats: FileStats { files, bytes },
    };
    let entries = Some(vec![
        named(id, true, 1, 4096),
        named("store.db", true, 3, 8192 + 3 + 3),
        named("store.db-wal", true, 1, 3),
        named("\u{fffd}store.db", false, 1, 1),
        named("", true, 1, 1),
    ]);
    let stats = adapter.raw_stats("/data".to_string(), &entries);
    assert!(stats.available);
    assert_eq!(stats.agent, "cursor");
    assert_eq!(stats.file_count, 3);
    assert_eq!(stats.total_bytes, 8192 + b"wal".len() as u64 + b"shm".len() as u64);
    let stats = adapter.raw_stats("/data".to_string(), &None);
    assert!(!stats.available);
    assert_eq!(stats.data_dir, "/data");
    assert_eq!(stats.file_count, 0);
    assert_eq!(stats.total_bytes, 0);
}

#[test]
fn incremental_scan_detects_wal_writes() {
    let id = "cursor-wal-session";
    let names = ["%2Fwork%2Fcursor", id, "store.db"];
    let prompt = ("u1", r#"{"role":"user","content":"Initial prompt"}"#);
    let answer = ("a1", r#"{"role":"assistant","content":"Written to the WAL"}"#);
    let adapter = adapter();
    let initial = adapter.find_sessions(&vec![chat(&names, &[], &[prompt], 10)]).pop().unwrap();
    let mut known = KnownSessions::new();
    known.insert("cursor".to_string(), id.to_string(), initial.mtime);

    let changed = chat(&names, &[], &[prompt, answer], 20);
    let entries = vec![ScanEntry {
        id: id.to_string(),
        mtime: 20,
        outcome: adapter.parse_incremental(&changed),
    }];
    let scan = adapter.find_sessions_incremental(&known, Some((entries, true)));
    assert_eq!(scan.new_or_modified.len(), 1);
    assert!(scan.new_or_modified[0].content.contains("Written to the WAL"));
    assert!(scan.new_or_modified[0].mtime > initial.mtime);
    assert!(scan.deleted_ids.is_empty());
}

#[test]
fn parses_plain_user_blob_format() {
    let id = "027f8b2f-d09c-4a69-98b0-b53f0118605d";
    let message = cursor_plain_user_message(format!("hello Cursor${id}").as_bytes());
    assert_eq!(message.as_deref(), Some("hello Cursor"));

    let message = cursor_plain_user_message(format!("price is $5${id}").as_bytes());
    assert_eq!(message.as_deref(), Some("price is $5"));
}

#[test]
fn plain_messages_are_framed_by_controls() {
    let message = cursor_plain_user_message(b"\0\0 \x01 hi \x02$\x03id-45678\x7f \0");
    assert_eq!(message.as_deref(), Some("hi"));
    assert_eq!(cursor_plain_user_message(b"hi$short-1"), None);
    assert_eq!(cursor_plain_user_message(b"hi$abcdefgh"), None);
    assert_eq!(cursor_plain_user_message(b"  $abcd-efgh"), None);
    assert_eq!(cursor_plain_user_message(b"no dollar-sign"), None);
    assert_eq!(cursor_plain_user_message(b"\xff$abcd-efgh"), None);
    assert_eq!(cursor_plain_user_message(b"\x01$abcd-efgh").as_deref(), Some(""));
    let wide = "x$é-é-é";
    assert_eq!(cursor_plain_user_message(wide.as_bytes()).as_deref(), Some("x"));
}

#[test]
fn framed_documents_are_decoded() {
    let title = |bytes: &[u8]| {
        decode_json(bytes).map(|value| value.get("a").unwrap().as_i64().unwrap())
    };
    assert_eq!(title(br#"{"a":1}"#), Some(1));
    assert_eq!(title(b"\x01\x02{\"a\":2}\xff"), Some(2));
    assert_eq!(title(b"}\"a\":3{"), None);
    assert_eq!(title(b"{"), None);
    assert_eq!(title(b"}{"), None);
    assert_eq!(title(b""), None);
    assert!(decode_json(b"[1]").is_some());
    assert!(decode_json(b"x[1]").is_none());
}

#[test]
fn timestamps_are_texts_milliseconds_or_seconds() {
    let instant = |text: &str| cursor_timestamp(Some(&json(text)));
    assert_eq!(instant("\"2026-07-17T10:00:00.5+02:00\""), Some(Timestamp {
        seconds: 1_784_275_200,
        nanos: 500_000_000,
    }));
    assert_eq!(instant("\"yesterday\""), None);
    assert_eq!(instant("100000000000"), Some(at(100_000_000_000)));
    assert_eq!(instant("100000000001"), Some(Timestamp { seconds: 100_000_000, nanos: 1_000_000 }));
    assert_eq!(instant("12.75"), Some(at(12)));
    assert_eq!(instant("-12.75"), Some(at(-12)));
    assert_eq!(instant("1e300"), None);
    assert_eq!(instant("-8334601228800"), Some(at(-8_334_601_228_800)));
    assert_eq!(instant("-8334601228801"), None);
    assert_eq!(instant("true"), None);
    assert_eq!(cursor_timestamp(None), None);
}

#[test]
fn speakers_are_told_by_role_and_kind() {
    let speaker = |text: &str| find_speaker(&json(text));
    assert_eq!(speaker(r#"{"role":"user","type":2}"#), Some(true));
    assert_eq!(speaker(r#"{"role":"assistant","type":1}"#), Some(false));
    assert_eq!(speaker(r#"{"role":"tool","type":1}"#), Some(true));
    assert_eq!(speaker(r#"{"type":2}"#), Some(false));
    assert_eq!(speaker(r#"{"type":3}"#), None);
    assert_eq!(speaker(r#"{"type":1.0}"#), None);
    assert_eq!(speaker(r#"{"type":"user"}"#), Some(true));
    assert_eq!(speaker(r#"{"type":"ai"}"#), Some(false));
    assert_eq!(speaker(r#"{"type":"assistant"}"#), Some(false));
    assert_eq!(speaker(r#"{"type":"other"}"#), None);
    assert_eq!(speaker("[]"), None);
}

#[test]
fn contents_are_texts_or_parts() {
    let text = |text: &str| cursor_content_text(&json(text));
    assert_eq!(text(r#"{"text":"t","content":"c"}"#), "t");
    assert_eq!(text(r#"{"text":1,"content":"c"}"#), "c");
    assert_eq!(
        text(r#"{"content":[{"text":"a"},{"data":"b"},{"text":1,"data":"c"},{},{"text":""}]}"#),
        "a\nb\n"
    );
    assert_eq!(text(r#"{"content":7}"#), "");
    assert_eq!(text("{}"), "");
}

#[test]
fn records_are_collected_from_inside_out() {
    let value = json(
        r#"{
            "title": "outer", "cwd": "/ignored", "createdAt": 5,
            "role": "user", "text": "last",
            "messages": [
                {"name": "inner", "role": "user", "text": "one", "timestamp": 7},
                {"conversation": [{"type": 2, "text": "two"}, {"type": 1, "text": "  "}]}
            ],
            "conversation": [{"role": "assistant", "content": ["x"]}, {"type": "user", "text": "three"}]
        }"#,
    );
    let mut records = CursorRecords::new();
    collect_cursor_records(&value, &mut records);
    assert_eq!(records.title, "outer");
    assert_eq!(records.directory, "");
    assert_eq!(records.created_at, Some(at(5)));
    let said: Vec<(bool, &str)> =
        records.messages.iter().map(|m| (m.user, m.text.as_str())).collect();
    assert_eq!(said, vec![(true, "one"), (false, "two"), (true, "three"), (true, "last")]);
    assert_eq!(records.messages[0].timestamp, Some(at(7)));
    records.apply_cursor_metadata(&json(r#"{"name": "later", "workspace": "/w"}"#));
    assert_eq!(records.title, "outer");
    assert_eq!(records.directory, "/w");
}

#[test]
fn sessions_need_a_word_of_the_user() {
    let session = |blobs: &[(&str, &str)]| {
        let parsed = chat(&["plain", "the-id", "store.db"], &[], blobs, 4);
        adapter().parse_session(&parsed).unwrap()
    };
    assert!(session(&[]).is_none());
    assert!(session(&[("a", r#"{"role":"assistant","text":"only me"}"#)]).is_none());
    let session = session(&[
        ("a", "\u{1}$abcd-efgh"),
        ("b", "binary rubbish"),
        ("c", " asked \n$abcd-efgh"),
        ("d", r#"{"role":"assistant","text":" answered ","timestamp":50}"#),
    ])
    .unwrap();
    assert_eq!(session.id, "the-id");
    assert_eq!(session.title, "asked");
    assert_eq!(session.directory, "");
    assert_eq!(session.content, "» asked\n\n  answered");
    assert_eq!(session.message_count, 2);
    assert_eq!(session.timestamp, at(50));
}

#[test]
fn sessions_fall_back_to_creation_and_file_times() {
    let said = [("u", r#"{"role":"user","text":"x"}"#)];
    let session = |meta: &[(&str, &str)]| {
        adapter().parse_session(&chat(&["d", "i", "store.db"], meta, &said, 4)).unwrap().unwrap()
    };
    assert_eq!(session(&[]).timestamp, at(3));
    assert_eq!(session(&[("m", r#"{"createdAt":8}"#)]).timestamp, at(8));
    let told = session(&[("m", r#"{"title":"  ","cwd":"/told"}"#), ("n", "not json")]);
    assert_eq!(told.title, "x");
    assert_eq!(told.directory, "/told");
}

#[test]
fn changed_chats_are_kept_deleted_or_read() {
    let adapter = adapter();
    let names = ["d", "i", "store.db"];
    assert!(matches!(
        adapter.parse_incremental(&chat(&names, &[], &[], 1)),
        IncrementalParse::Delete
    ));
    let mut broken = chat(&names, &[], &[("u", r#"{"role":"user","text":"x"}"#)], 1);
    assert!(matches!(adapter.parse_incremental(&broken), IncrementalParse::Session(_)));
    broken.store.blobs.rows = Err(StoreError);
    assert!(matches!(adapter.parse_incremental(&broken), IncrementalParse::Retain));
    assert!(read_store(&broken.store).is_err());
    broken.store.blobs.columns = Ok(vec!["other".to_string()]);
    assert!(matches!(adapter.parse_incremental(&broken), IncrementalParse::Delete));
    broken.store.meta.columns = Err(StoreError);
    assert!(matches!(adapter.parse_incremental(&broken), IncrementalParse::Retain));
}

#[test]
fn tables_of_either_naming_are_read() {
    let columns = |names: &[&str]| names.iter().map(|name| name.to_string()).collect::<Vec<_>>();
    assert_eq!(key_value_columns(&columns(&["id", "data", "key", "value"])), Some(("key", "value")));
    assert_eq!(key_value_columns(&columns(&["data", "id", "key"])), Some(("id", "data")));
    assert_eq!(key_value_columns(&columns(&["key", "data"])), None);
    assert_eq!(table_info_query("meta"), "PRAGMA table_info(meta)");
    assert_eq!(
        select_query("blobs", "id", "data"),
        "SELECT id, data FROM blobs WHERE data IS NOT NULL ORDER BY rowid"
    );
    let entries = read_key_value_table(&TableRead {
        columns: Ok(columns(&["id", "data"])),
        rows: Ok(vec![
            (SqlCell::Integer(-12), SqlCell::Integer(i64::MIN)),
            (SqlCell::Null, SqlCell::Null),
            (SqlCell::Real("1.5".to_string()), SqlCell::Real("2.5".to_string())),
            (SqlCell::Blob(b"a\xffb".to_vec()), SqlCell::Text(b"\xff".to_vec())),
            (SqlCell::Integer(0), SqlCell::Integer(i64::MAX)),
        ]),
    })
    .unwrap();
    assert_eq!(
        entries,
        vec![
            ("-12".to_string(), b"-9223372036854775808".to_vec()),
            (String::new(), vec![]),
            ("1.5".to_string(), b"2.5".to_vec()),
            ("a\u{fffd}b".to_string(), vec![0xff]),
            ("0".to_string(), b"9223372036854775807".to_vec()),
        ]
    );
}

#[test]
fn scan_takes_only_databases_of_chats() {
    let adapter = adapter();
    let walk = Listing::Entries(vec![
        Some(WalkEntry { path: path(&["store.db"]), sqlite_mtime: 1 }),
        Some(WalkEntry { path: path(&["a", "store.db"]), sqlite_mtime: 2 }),
        Some(WalkEntry { path: path(&["a", "store.db-wal"]), sqlite_mtime: 3 }),
        Some(WalkEntry { path: path(&["b", "a", "store.db"]), sqlite_mtime: 4 }),
        None,
    ]);
    let found = adapter.scan_session_files(&walk).unwrap();
    assert!(!found.complete);
    assert_eq!(found.files.len(), 2);
    assert_eq!(found.files.get("data").unwrap().mtime, 1);
    assert_eq!(found.files.get("a").unwrap().mtime, 4);
    let nameless = ChatPath { parent: None, ..path(&["a", "store.db"]) };
    let walk = Listing::Entries(vec![Some(WalkEntry { path: nameless, sqlite_mtime: 1 })]);
    assert_eq!(adapter.scan_session_files(&walk).unwrap().files.len(), 0);
    assert!(adapter.scan_session_files(&Listing::Unreadable).is_none());
    let nothing = adapter.scan_session_files(&Listing::Missing).unwrap();
    assert!(nothing.complete);
    assert_eq!(nothing.files.len(), 0);
}

#[test]
fn directories_are_decoded_from_paths() {
    let directory = |names: &[&str]| cursor_directory_from_path(&path(names));
    assert_eq!(directory(&["%2Fwork%2fmy%20app", "i", "store.db"]), "/work/my app");
    assert_eq!(directory(&["relative", "i", "store.db"]), "");
    assert_eq!(directory(&["i", "store.db"]), "");
    assert_eq!(directory(&["/100%", "i", "store.db"]), "/100%");
    let encoded = path(&["C%3A%5Cwork%5Ccursor", "i", "store.db"]);
    assert_eq!(directory_if_absolute(&encoded, true), "C:\\work\\cursor");
    assert_eq!(directory_if_absolute(&encoded, false), "");
}

#[test]
fn long_titles_are_cut_at_words() {
    let mut records = CursorRecords::new();
    records.title = format!("{} tail", "word ".repeat(19));
    let text = "{\"role\":\"user\",\"text\":\"x\"}";
    collect_cursor_records(&json(text), &mut records);
    let session =
        session_from_records(&path(&["i", "store.db"]), records, "/f".to_string(), at(1), 2).unwrap();
    assert_eq!(session.title, format!("{} tail", "word ".repeat(19)));
    assert_eq!(session.directory, "/f");
    let mut records = CursorRecords::new();
    records.title = "abcd ".repeat(30);
    collect_cursor_records(&json(text), &mut records);
    let session =
        session_from_records(&path(&["i", "store.db"]), records, String::new(), at(1), 2).unwrap();
    assert_eq!(session.title, format!("{}...", "abcd ".repeat(20).trim_end()));
}
