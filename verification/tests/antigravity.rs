use std::path::PathBuf;

use fast_resume::adapters::antigravity::files::{
    antigravity_session_id, is_sqlite_database, preferred_transcript, BrainEntry, DatabaseEntry,
    FileFacts,
};
use fast_resume::adapters::antigravity::steps::{
    antigravity_proto_timestamp, antigravity_sqlite_directory,
    antigravity_sqlite_metadata_timestamp, antigravity_sqlite_payload_timestamp,
    antigravity_sqlite_step_text, sqlite_workspace, stored_turn, StepRow, StepStore,
    AGY_SQLITE_PLANNER_RESPONSE, AGY_SQLITE_USER_INPUT,
};
use fast_resume::adapters::antigravity::transcript::{
    parse_lines, parse_transcript, unwrap_user_request,
};
use fast_resume::adapters::antigravity::{
    source_mtime, workspace_mtime, AntigravityAdapter, FileTimes, SessionFile, Transcript,
};
use fast_resume::adapters::proto::ProtoMessage;
use fast_resume::adapters::shared::{
    session_needs_update, FileName, FileStats, IncrementalParse, KnownSessions, Listing, NamedStats,
    ScanEntry, SessionLog, StoreError,
};
use fast_resume::model::RawAdapterStats;
use fast_resume::paths::FsPath;
use fast_resume::string_map::StringMap;
use fast_resume::time::Timestamp;

fn proto_varint(mut value: u64) -> Vec<u8> {
    let mut bytes = Vec::new();
    loop {
        let mut byte = (value & 0x7f) as u8;
        value >>= 7;
        if value != 0 {
            byte |= 0x80;
        }
        bytes.push(byte);
        if value == 0 {
            return bytes;
        }
    }
}

fn proto_int(number: u64, value: u64) -> Vec<u8> {
    let mut bytes = proto_varint(number << 3);
    bytes.extend(proto_varint(value));
    bytes
}

fn proto_bytes(number: u64, value: &[u8]) -> Vec<u8> {
    let mut bytes = proto_varint((number << 3) | 2);
    bytes.extend(proto_varint(value.len() as u64));
    bytes.extend(value);
    bytes
}

fn proto_string(number: u64, value: &str) -> Vec<u8> {
    proto_bytes(number, value.as_bytes())
}

fn sqlite_step_payload(step_type: u64, text: &str, timestamp: u64) -> Vec<u8> {
    let timestamp = [proto_int(1, timestamp), proto_int(2, 0)].concat();
    let metadata = proto_bytes(1, &timestamp);
    let text = if step_type == AGY_SQLITE_USER_INPUT as u64 {
        proto_bytes(19, &proto_string(2, text))
    } else {
        proto_bytes(20, &proto_string(1, text))
    };
    [
        proto_int(1, step_type),
        proto_int(4, 3),
        proto_bytes(5, &metadata),
        text,
    ]
    .concat()
}

fn step_row(step_type: i64, payload: Vec<u8>) -> StepRow {
    StepRow { step_type, status: 3, metadata: None, payload: Some(payload) }
}

fn at(seconds: i64) -> Timestamp {
    Timestamp { seconds, nanos: 0 }
}

fn times(mtime: u64) -> FileTimes {
    FileTimes { timestamp: at(77), file_mtime: mtime, sqlite_mtime: mtime }
}

fn path(names: &[&str]) -> FsPath {
    let data = FsPath::at(PathBuf::from("/data"));
    names.iter().fold(data, |path, name| path.join(name))
}

fn unreadable() -> StepStore {
    StepStore {
        cascade_id: Err(StoreError),
        metadata: Err(StoreError),
        steps: Err(StoreError),
    }
}

fn adapter() -> AntigravityAdapter {
    AntigravityAdapter::new(PathBuf::from("/data"))
}

#[test]
fn parses_transcript_and_workspace_history() {
    let id = "52d82992-7695-4d38-8d02-9747eecba839";
    let rows = [
        r#"{"source":"USER_EXPLICIT","type":"USER_INPUT","created_at":"2026-07-17T10:00:00Z","content":"<USER_REQUEST>\nAdd Antigravity support\n</USER_REQUEST>\n<ADDITIONAL_METADATA>ignored</ADDITIONAL_METADATA>"}"#,
        r#"{"source":"SYSTEM","type":"CONVERSATION_HISTORY","content":"ignore"}"#,
        r#"{"source":"MODEL","type":"VIEW_FILE","content":"large tool result that should not be indexed"}"#,
        r#"{"source":"MODEL","type":"PLANNER_RESPONSE","created_at":"2026-07-17T10:00:01Z","content":"Implemented the adapter"}"#,
    ];
    let lines: Vec<String> = rows.iter().map(|row| row.to_string()).collect();
    let history = vec![format!(
        "{{\"conversationId\":\"{id}\",\"workspace\":\"/work/antigravity\"}}"
    )];

    let adapter = adapter();
    let workspaces = adapter.workspace_map(&Some(history), &None);
    let brain = Listing::Entries(vec![Some(BrainEntry {
        is_dir: true,
        name: Some(id.to_string()),
        regular: Some(FileFacts { size: 700, mtime: 40 }),
        full: None,
    })]);
    let databases = Listing::Entries(vec![Some(DatabaseEntry {
        name: Some(format!("{id}.db")),
        sqlite_mtime: 41,
    })]);
    let found = adapter.scan_session_files(&brain, &databases, 39).unwrap();
    assert!(found.complete);
    assert_eq!(found.files.len(), 1);
    let scanned = found.files.get(id).unwrap();
    assert_eq!(*scanned.path.names(), vec!["conversations".to_string(), format!("{id}.db")]);
    assert_eq!(*scanned.path.base(), PathBuf::from("/data"));
    assert_eq!(scanned.mtime, 41);
    let transcript = adapter.transcript_for_id(id, Some(700), None).unwrap();
    assert_eq!(
        *transcript.names(),
        vec!["brain", id, ".system_generated", "logs", "transcript.jsonl"]
    );

    let files = vec![SessionFile {
        path: scanned.path.clone(),
        times: times(41),
        store: unreadable(),
        transcript: Some(Transcript { path: transcript, lines: Some(lines), times: times(40) }),
    }];
    let sessions = adapter.find_sessions(&files, &workspaces, 39);
    assert_eq!(sessions.len(), 1);
    assert_eq!(sessions[0].id, id);
    assert_eq!(sessions[0].agent, "antigravity");
    assert_eq!(sessions[0].directory, "/work/antigravity");
    assert_eq!(sessions[0].title, "Add Antigravity support");
    assert_eq!(sessions[0].message_count, 1);
    assert_eq!(
        sessions[0].content,
        "» Add Antigravity support\n\n  Implemented the adapter"
    );
    assert!(!sessions[0].content.contains("ADDITIONAL_METADATA"));
    assert!(!sessions[0].content.contains("large tool result"));
    assert_eq!(sessions[0].timestamp, at(1_784_282_401));
    assert_eq!(sessions[0].mtime, 40);
    assert!(adapter.supports_yolo());
    assert_eq!(
        adapter.resume_command(&sessions[0], false),
        vec!["agy", "--conversation", id]
    );
    assert_eq!(
        adapter.resume_command(&sessions[0], true),
        vec![
            "agy",
            "--dangerously-skip-permissions",
            "--conversation",
            id
        ]
    );
}

#[test]
fn parses_sqlite_and_detects_wal_updates() {
    let id = "52d82992-7695-4d38-8d02-9747eecba840";
    let workspace_path = PathBuf::from("/work/sqlite");
    let workspace_uri = url::Url::from_file_path(&workspace_path).unwrap().to_string();
    let workspace = proto_bytes(1, &proto_string(1, &workspace_uri));
    let rows = |more: bool| {
        let mut rows = vec![
            step_row(
                AGY_SQLITE_USER_INPUT,
                sqlite_step_payload(
                    AGY_SQLITE_USER_INPUT as u64,
                    "<USER_REQUEST>SQLite prompt</USER_REQUEST>",
                    1_784_282_400,
                ),
            ),
            step_row(
                AGY_SQLITE_PLANNER_RESPONSE,
                sqlite_step_payload(
                    AGY_SQLITE_PLANNER_RESPONSE as u64,
                    "SQLite response",
                    1_784_282_401,
                ),
            ),
        ];
        if more {
            rows.push(step_row(
                AGY_SQLITE_PLANNER_RESPONSE,
                sqlite_step_payload(
                    AGY_SQLITE_PLANNER_RESPONSE as u64,
                    "WAL response",
                    1_784_282_402,
                ),
            ));
        }
        rows
    };
    let file = |more: bool, mtime: u64| SessionFile {
        path: path(&["conversations", "52d82992-7695-4d38-8d02-9747eecba840.db"]),
        times: times(mtime),
        store: StepStore {
            cascade_id: Ok(Some(id.to_string())),
            metadata: Ok(Some(workspace.clone())),
            steps: Ok(rows(more)),
        },
        transcript: None,
    };
    let adapter = adapter();
    let workspaces = StringMap::new();
    let session = adapter.find_sessions(&vec![file(false, 100)], &workspaces, 0).pop().unwrap();
    assert_eq!(session.id, id);
    assert_eq!(session.directory, workspace_path.to_string_lossy());
    assert_eq!(session.title, "SQLite prompt");
    assert_eq!(session.message_count, 1);
    assert_eq!(session.content, "» SQLite prompt\n\n  SQLite response");
    assert_eq!(session.timestamp, at(1_784_282_401));
    let mut known = KnownSessions::new();
    known.insert("antigravity".to_string(), id.to_string(), session.mtime);

    let databases = Listing::Entries(vec![Some(DatabaseEntry {
        name: Some(format!("{id}.db")),
        sqlite_mtime: 110,
    })]);
    let found = adapter.scan_session_files(&Listing::Missing, &databases, 0).unwrap();
    let mtime = found.files.get(id).unwrap().mtime;
    assert!(session_needs_update(&known, "antigravity", id, mtime));
    let entries = vec![ScanEntry {
        id: found.files.key(0).clone(),
        mtime,
        outcome: adapter.parse_incremental(&file(true, 110), &workspaces, 0),
    }];
    let mut log = SessionLog::new();
    let scan = adapter.find_sessions_incremental_streaming(
        &known,
        Some((entries, found.complete)),
        &mut log,
    );
    assert_eq!(log.sessions.len(), 1);
    assert_eq!(log.sessions[0].content, scan.new_or_modified[0].content);
    assert_eq!(log.sessions[0].mtime, scan.new_or_modified[0].mtime);
    assert_eq!(scan.agent, "antigravity");
    assert_eq!(scan.new_or_modified.len(), 1);
    assert!(scan.new_or_modified[0].content.contains("WAL response"));
    assert!(scan.new_or_modified[0].mtime > session.mtime);
    assert!(scan.deleted_ids.is_empty());

    let brain = RawAdapterStats {
        agent: "antigravity",
        data_dir: "/data/brain".to_string(),
        available: false,
        file_count: 0,
        total_bytes: 0,
    };
    let named = |text: String, exact: bool, files: usize, bytes: u64| NamedStats {
        name: FileName { text, exact },
        stats: FileStats { files, bytes },
    };
    let entries = vec![
        named("conversations".to_string(), true, 1, 4096),
        named(format!("{id}.db"), true, 3, 20_000),
        named(String::new(), true, 1, 7),
    ];
    let stats = adapter.raw_stats("/data".to_string(), &brain, true, &entries);
    assert_eq!(stats.agent, "antigravity");
    assert_eq!(stats.data_dir, "/data");
    assert!(stats.available);
    assert_eq!(stats.file_count, 3);
    assert_eq!(stats.total_bytes, 20_000);
    let entries = vec![
        named("\u{fffd}.db".to_string(), false, 2, 30),
        named("a.\u{fffd}db".to_string(), false, 1, 5),
        named("..db".to_string(), true, 1, 4),
    ];
    let stats = adapter.raw_stats("/data".to_string(), &brain, false, &entries);
    assert_eq!(stats.file_count, 3);
    assert_eq!(stats.total_bytes, 34);
}

#[test]
fn ids_of_dots_are_no_directories() {
    let adapter = adapter();
    let databases = Listing::Entries(vec![
        Some(DatabaseEntry { name: Some("...db".to_string()), sqlite_mtime: 4 }),
        Some(DatabaseEntry { name: Some("..db".to_string()), sqlite_mtime: 5 }),
    ]);
    let found = adapter.scan_session_files(&Listing::Missing, &databases, 0).unwrap();
    assert_eq!(found.files.len(), 2);
    assert_eq!(found.files.get("..").unwrap().mtime, 4);
    assert_eq!(found.files.get(".").unwrap().mtime, 5);
    for id in [".", "..", "plain"] {
        let transcript = adapter.transcript_for_id(id, Some(1), None).unwrap();
        let mut whole = transcript.base().clone();
        for name in transcript.names() {
            whole.push(name);
        }
        let logs = format!("/data/brain/{id}/.system_generated/logs/transcript.jsonl");
        assert_eq!(whole, PathBuf::from(&logs));
        let conversation = std::path::Path::new(&logs).ancestors().nth(3).unwrap();
        assert_eq!(
            antigravity_session_id(&transcript).as_deref(),
            conversation.file_name().and_then(|name| name.to_str())
        );
    }
    let line = "{\"type\":\"USER_INPUT\",\"content\":\"x\"}".to_string();
    let file = |id: &str| SessionFile {
        path: found.files.get(id).unwrap().path.clone(),
        times: times(4),
        store: unreadable(),
        transcript: Some(Transcript {
            path: adapter.transcript_for_id(id, Some(1), None).unwrap(),
            lines: Some(vec![line.clone()]),
            times: times(4),
        }),
    };
    let workspaces = adapter.workspace_map(&None, &None);
    assert!(adapter.find_sessions(&vec![file("..")], &workspaces, 0).is_empty());
}

#[test]
fn prefers_larger_full_transcript() {
    let logs = path(&["logs"]);
    let chosen = preferred_transcript(&logs, Some("x".len() as u64), Some("longer".len() as u64));
    assert_eq!(*chosen.unwrap().names(), vec!["logs", "transcript_full.jsonl"]);
}

#[test]
fn prefers_regular_transcript_where_the_full_one_is_short_or_empty() {
    let logs = path(&[]);
    let name = |regular: Option<u64>, full: Option<u64>| {
        preferred_transcript(&logs, regular, full).map(|path| path.names()[0].clone())
    };
    assert_eq!(name(Some(6), Some(5)).as_deref(), Some("transcript.jsonl"));
    assert_eq!(name(Some(5), Some(5)).as_deref(), Some("transcript_full.jsonl"));
    assert_eq!(name(Some(0), Some(0)).as_deref(), Some("transcript.jsonl"));
    assert_eq!(name(Some(0), None).as_deref(), Some("transcript.jsonl"));
    assert_eq!(name(None, Some(1)).as_deref(), Some("transcript_full.jsonl"));
    assert_eq!(name(None, Some(0)), None);
    assert_eq!(name(None, None), None);
}

#[test]
fn unwraps_user_requests() {
    assert_eq!(unwrap_user_request("<USER_REQUEST>\n a < b \n</USER_REQUEST>tail"), "a < b");
    assert_eq!(unwrap_user_request("  plain  "), "plain");
    assert_eq!(unwrap_user_request("ask<USER_SETTINGS_CHANGE>x<ADDITIONAL_METADATA>"), "ask");
    assert_eq!(unwrap_user_request("ask <ADDITIONAL_METADATA>x<USER_SETTINGS_CHANGE>"), "ask");
    assert_eq!(unwrap_user_request("<USER_REQUEST>open only"), "<USER_REQUEST>open only");
    assert_eq!(
        unwrap_user_request("</USER_REQUEST><USER_REQUEST>in</USER_REQUEST>"),
        "in"
    );
    assert_eq!(unwrap_user_request(""), "");
}

#[test]
fn transcript_steps_make_turns() {
    let lines: Vec<String> = [
        r#"{"source":"USER","content":" hi "}"#,
        "not json",
        r#"{"source":"USER","type":"EPHEMERAL_MESSAGE","content":"no"}"#,
        r#"{"source":"MODEL","type":"PLANNER_RESPONSE","content":"  ","thinking":" thought "}"#,
        r#"{"source":"MODEL","type":"PLANNER_RESPONSE","content":""}"#,
        r#"{"source":"MODEL","type":"OTHER","content":"no"}"#,
        r#"{"source":"USER","content":7}"#,
    ]
    .iter()
    .map(|line| line.to_string())
    .collect();
    let documents = parse_lines(&lines);
    assert_eq!(documents.len(), 6);
    let turns = parse_transcript(&documents);
    assert_eq!(turns.len(), 2);
    assert!(turns[0].user);
    assert_eq!(turns[0].text, "hi");
    assert_eq!(turns[0].timestamp, None);
    assert!(!turns[1].user);
    assert_eq!(turns[1].text, "thought");
}

#[test]
fn stored_steps_follow_payload_over_columns() {
    let payload = sqlite_step_payload(AGY_SQLITE_USER_INPUT as u64, " hello ", 5);
    let turn = stored_turn(&step_row(99, payload.clone())).unwrap();
    assert!(turn.user);
    assert_eq!(turn.text, "hello");
    assert_eq!(turn.timestamp, Some(at(5)));

    let text = proto_bytes(20, &proto_string(8, "answer"));
    let running = [proto_int(4, 2), text.clone()].concat();
    assert!(stored_turn(&step_row(AGY_SQLITE_PLANNER_RESPONSE, running)).is_none());
    let undecided = [proto_int(4, 0), text.clone()].concat();
    let mut row = step_row(AGY_SQLITE_PLANNER_RESPONSE, undecided);
    row.status = 0;
    row.metadata = Some(proto_bytes(1, &[proto_int(1, 9), proto_int(2, 500)].concat()));
    let turn = stored_turn(&row).unwrap();
    assert!(!turn.user);
    assert_eq!(turn.text, "answer");
    assert_eq!(turn.timestamp, Some(Timestamp { seconds: 9, nanos: 500 }));
    row.status = 1;
    assert!(stored_turn(&row).is_none());
    row.payload = None;
    assert!(stored_turn(&row).is_none());
    assert!(stored_turn(&step_row(3, text)).is_none());
}

#[test]
fn proto_fields_are_read_from_nested_messages() {
    let payload = sqlite_step_payload(AGY_SQLITE_PLANNER_RESPONSE as u64, "said", 1_784_282_401);
    let message = ProtoMessage::new(&payload);
    assert_eq!(message.first_i64(1), Some(15));
    assert_eq!(message.first_i64(4), Some(3));
    assert_eq!(message.first_i64(9), None);
    assert_eq!(
        antigravity_sqlite_step_text(message, AGY_SQLITE_PLANNER_RESPONSE),
        Some((false, "said".to_string()))
    );
    assert_eq!(antigravity_sqlite_step_text(message, AGY_SQLITE_USER_INPUT), None);
    assert_eq!(antigravity_sqlite_payload_timestamp(message), Some(at(1_784_282_401)));
    let metadata = proto_bytes(1, &proto_int(1, 3));
    assert_eq!(antigravity_sqlite_metadata_timestamp(&metadata), Some(at(3)));
    assert_eq!(antigravity_sqlite_metadata_timestamp(b"\xff"), None);
}

#[test]
fn proto_timestamps_stay_in_range() {
    let instant = |seconds: u64, nanos: u64| {
        let bytes = [proto_int(1, seconds), proto_int(2, nanos)].concat();
        antigravity_proto_timestamp(ProtoMessage::new(&bytes))
    };
    assert_eq!(instant(5, 999_999_999), Some(Timestamp { seconds: 5, nanos: 999_999_999 }));
    assert_eq!(instant(5, 1_000_000_000), None);
    assert_eq!(instant(59, 1_500_000_000), None);
    assert_eq!(instant(8_210_266_876_799, 0), Some(at(8_210_266_876_799)));
    assert_eq!(instant(8_210_266_876_800, 0), None);
    assert_eq!(instant(u64::MAX, 0), None);
    let no_seconds = proto_int(2, 1);
    assert_eq!(antigravity_proto_timestamp(ProtoMessage::new(&no_seconds)), None);
}

#[test]
fn workspace_directories_are_decoded() {
    let named = |value: &str| proto_bytes(1, &proto_string(1, value));
    assert_eq!(antigravity_sqlite_directory(&named("/plain")).as_deref(), Some("/plain"));
    assert_eq!(
        antigravity_sqlite_directory(&named("file:///with%20space")).as_deref(),
        Some("/with space")
    );
    assert_eq!(antigravity_sqlite_directory(&named("file://[bad")), None);
    let second = proto_bytes(1, &proto_string(2, "second"));
    assert_eq!(antigravity_sqlite_directory(&second).as_deref(), Some("second"));
    let seventh = proto_string(7, "seventh");
    assert_eq!(sqlite_workspace(&seventh).as_deref(), Some("seventh"));
    assert_eq!(sqlite_workspace(b""), None);
}

#[test]
fn history_takes_precedence_over_cache() {
    let adapter = adapter();
    let cache = br#"{"/a":"one","/b":{"conversationId":"two"},"/c":{"conversation_id":"three"},"/d":4,"/e":{"conversationId":5,"conversation_id":"six"}}"#;
    let map = adapter.last_conversations_map(&Some(cache.to_vec()));
    assert_eq!(map.len(), 3);
    assert_eq!(map.get("one").map(String::as_str), Some("/a"));
    assert_eq!(map.get("two").map(String::as_str), Some("/b"));
    assert_eq!(map.get("three").map(String::as_str), Some("/c"));
    assert!(map.get("six").is_none());

    let history = vec![
        r#"{"conversationId":"two","workspace":"/old"}"#.to_string(),
        r#"{"conversationId":"two","workspace":"/new"}"#.to_string(),
        r#"{"conversationId":"","workspace":"/none"}"#.to_string(),
        r#"{"conversationId":"four"}"#.to_string(),
        "{".to_string(),
    ];
    let map = adapter.workspace_map(&Some(history), &Some(cache.to_vec()));
    assert_eq!(map.get("one").map(String::as_str), Some("/a"));
    assert_eq!(map.get("two").map(String::as_str), Some("/new"));
    assert_eq!(map.len(), 3);
    assert_eq!(adapter.workspace_map(&None, &Some(b"[1]".to_vec())).len(), 0);
    assert_eq!(adapter.workspace_map(&None, &Some(b"{".to_vec())).len(), 0);
    assert_eq!(adapter.workspace_map(&None, &None).len(), 0);
}

#[test]
fn scan_merges_transcripts_and_databases() {
    let adapter = adapter();
    let facts = |mtime| Some(FileFacts { size: 1, mtime });
    let brain = Listing::Entries(vec![
        Some(BrainEntry { is_dir: true, name: Some("a".into()), regular: facts(50), full: None }),
        Some(BrainEntry { is_dir: false, name: Some("b".into()), regular: facts(50), full: None }),
        Some(BrainEntry { is_dir: true, name: None, regular: facts(50), full: None }),
        Some(BrainEntry { is_dir: true, name: Some("c".into()), regular: None, full: None }),
        Some(BrainEntry { is_dir: true, name: Some("d".into()), regular: facts(1), full: facts(2) }),
    ]);
    let databases = Listing::Entries(vec![
        Some(DatabaseEntry { name: Some("a.db".into()), sqlite_mtime: 7 }),
        Some(DatabaseEntry { name: Some("a.db-wal".into()), sqlite_mtime: 900 }),
        Some(DatabaseEntry { name: Some(".db".into()), sqlite_mtime: 900 }),
        Some(DatabaseEntry { name: None, sqlite_mtime: 900 }),
        Some(DatabaseEntry { name: Some("e.db".into()), sqlite_mtime: 60 }),
    ]);
    let found = adapter.scan_session_files(&brain, &databases, 5).unwrap();
    assert!(found.complete);
    assert_eq!(found.files.len(), 3);
    let a = found.files.get("a").unwrap();
    assert!(is_sqlite_database(&a.path));
    assert_eq!(a.mtime, 50);
    let d = found.files.get("d").unwrap();
    assert_eq!(d.mtime, 5);
    assert!(!is_sqlite_database(&d.path));
    assert_eq!(antigravity_session_id(&d.path).as_deref(), Some("d"));
    assert_eq!(d.path.names().last().map(String::as_str), Some("transcript_full.jsonl"));
    assert_eq!(found.files.get("e").unwrap().mtime, 60);

    let failed: Listing<BrainEntry> = Listing::Entries(vec![None]);
    assert!(!adapter.scan_session_files(&failed, &Listing::Missing, 0).unwrap().complete);
    let failed: Listing<DatabaseEntry> = Listing::Entries(vec![None]);
    assert!(!adapter.scan_session_files(&Listing::Missing, &failed, 0).unwrap().complete);
    assert!(adapter.scan_session_files(&Listing::Unreadable, &Listing::Missing, 0).is_none());
    assert!(adapter.scan_session_files(&Listing::Missing, &Listing::Unreadable, 0).is_none());
    let nothing = adapter.scan_session_files(&Listing::Missing, &Listing::Missing, 0).unwrap();
    assert!(nothing.complete);
    assert_eq!(nothing.files.len(), 0);
}

#[test]
fn changed_databases_are_kept_deleted_or_read() {
    let adapter = adapter();
    let workspaces = StringMap::new();
    let file = |store: StepStore, transcript: Option<Transcript>| SessionFile {
        path: path(&["conversations", "x.db"]),
        times: times(1),
        store,
        transcript,
    };
    let empty = || StepStore { cascade_id: Ok(None), metadata: Ok(None), steps: Ok(vec![]) };
    let transcript = |lines: Option<Vec<String>>| {
        Some(Transcript {
            path: path(&["brain", "x", ".system_generated", "logs", "transcript.jsonl"]),
            lines,
            times: times(2),
        })
    };
    let said = vec![r#"{"source":"USER","content":"hello"}"#.to_string()];
    assert!(matches!(
        adapter.parse_incremental(&file(unreadable(), transcript(Some(said.clone()))), &workspaces, 0),
        IncrementalParse::Retain
    ));
    assert!(matches!(
        adapter.parse_incremental(&file(empty(), None), &workspaces, 0),
        IncrementalParse::Delete
    ));
    assert!(matches!(
        adapter.parse_incremental(&file(empty(), transcript(None)), &workspaces, 0),
        IncrementalParse::Retain
    ));
    assert!(matches!(
        adapter.parse_incremental(&file(empty(), transcript(Some(vec![]))), &workspaces, 0),
        IncrementalParse::Delete
    ));
    match adapter.parse_incremental(&file(empty(), transcript(Some(said))), &workspaces, 30) {
        IncrementalParse::Session(session) => {
            assert_eq!(session.id, "x");
            assert_eq!(session.title, "hello");
            assert_eq!(session.timestamp, at(77));
            assert_eq!(session.mtime, 30);
        }
        _ => panic!("expected a session"),
    }
}

#[test]
fn stored_conversations_fall_back_to_their_file_name() {
    let adapter = adapter();
    let mut workspaces = StringMap::new();
    workspaces.insert("stem".to_string(), "/mapped".to_string());
    let rows = || {
        vec![step_row(
            AGY_SQLITE_USER_INPUT,
            sqlite_step_payload(AGY_SQLITE_USER_INPUT as u64, "hey", 4),
        )]
    };
    let parse = |id: Option<&str>, name: &str, steps| {
        adapter.parse_sqlite_session(
            &path(&["conversations", name]),
            times(9),
            &StepStore { cascade_id: Ok(id.map(str::to_string)), metadata: Ok(None), steps },
            &workspaces,
            0,
        )
    };
    let session = parse(Some("  "), "stem.db", Ok(rows())).unwrap().unwrap();
    assert_eq!(session.id, "stem");
    assert_eq!(session.directory, "/mapped");
    assert_eq!(session.mtime, 9);
    let session = parse(Some("given"), "stem.db", Ok(rows())).unwrap().unwrap();
    assert_eq!(session.id, "given");
    assert_eq!(session.directory, "");
    assert!(parse(None, "stem.db", Ok(vec![])).unwrap().is_none());
    assert!(parse(None, "stem.db", Err(StoreError)).is_err());
    let nameless = adapter.parse_sqlite_session(
        &path(&[]),
        times(9),
        &StepStore { cascade_id: Ok(None), metadata: Err(StoreError), steps: Err(StoreError) },
        &workspaces,
        0,
    );
    assert!(nameless.unwrap().is_none());
}

#[test]
fn modification_times_follow_the_newest_source() {
    let times = FileTimes { timestamp: at(0), file_mtime: 10, sqlite_mtime: 20 };
    assert_eq!(source_mtime(&path(&["x.db"]), times, 15), 20);
    assert_eq!(source_mtime(&path(&["x.jsonl"]), times, 15), 15);
    assert_eq!(source_mtime(&path(&["x.jsonl"]), times, 5), 10);
    assert_eq!(workspace_mtime(3, 8), 8);
    assert_eq!(workspace_mtime(9, 8), 9);
}
