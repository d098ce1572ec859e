use std::path::PathBuf;

use fast_resume::adapters::copilot_vscode::directory::{
    chat_directory, choose_directory, directory_of_folder, workspace_directory,
};
use fast_resume::adapters::copilot_vscode::files::{ChatEntry, VscodeSessionFile, WorkspaceEntry};
use fast_resume::adapters::copilot_vscode::scan::VscodeSource;
use fast_resume::adapters::copilot_vscode::CopilotVsCodeAdapter;
use fast_resume::adapters::shared::{
    FileName, IncrementalScan, KnownSessions, Listing, SessionCallback, SessionLog,
};
use fast_resume::json::parse_json;
use fast_resume::model::Session;
use fast_resume::time::Timestamp;

const MTIME: u64 = 1_720_000_000_000_000_000;

fn adapter() -> CopilotVsCodeAdapter {
    CopilotVsCodeAdapter {
        chat_sessions_dir: PathBuf::from("/data/chat"),
        workspace_storage_dir: PathBuf::from("/data/workspaceStorage"),
    }
}

fn entry(name: &str) -> Option<ChatEntry> {
    Some(ChatEntry {
        path: PathBuf::from("/data/chat").join(name),
        name: FileName { text: name.to_string(), exact: true },
    })
}

fn source(file: VscodeSessionFile, contents: Option<&str>) -> VscodeSource {
    VscodeSource {
        file,
        contents: contents.map(|text| text.as_bytes().to_vec()),
        description: None,
        written: Timestamp { seconds: 1, nanos: 0 },
        mtime: MTIME,
    }
}

/// The files of a directory of chats, with their contents.
fn chats(files: &[(&str, Option<&str>)]) -> (Vec<VscodeSource>, bool) {
    let listing = Listing::Entries(files.iter().map(|(name, _)| entry(name)).collect());
    let found = adapter().session_files(&listing, &Listing::Missing).unwrap();
    let sources = found
        .files
        .into_iter()
        .zip(files)
        .map(|(file, (_, contents))| source(file, *contents))
        .collect();
    (sources, found.complete)
}

fn scan(files: &[(&str, Option<&str>)], known: &[(&str, u64)]) -> IncrementalScan {
    let mut sessions = KnownSessions::new();
    for (id, mtime) in known {
        sessions.insert("copilot-vscode".to_string(), id.to_string(), *mtime);
    }
    let mut log = SessionLog::new();
    let scan = adapter().find_sessions_incremental_with(&sessions, Some(chats(files)), &mut log);
    let plain = adapter().find_sessions_incremental(&sessions, Some(chats(files)));
    let described = |sessions: &[Session]| {
        sessions.iter().map(|session| format!("{session:?}")).collect::<Vec<_>>()
    };
    assert_eq!(described(&log.sessions), described(&scan.new_or_modified));
    assert_eq!(described(&plain.new_or_modified), described(&scan.new_or_modified));
    assert_eq!(plain.deleted_ids, scan.deleted_ids);
    assert_eq!(plain.agent, scan.agent);
    scan
}

#[test]
fn parses_session_and_opens_referenced_directory() {
    let text = r#"{
        "sessionId": "vscode-1",
        "customTitle": "VS Code thread",
        "lastMessageDate": 1720000000000,
        "requests": [{
            "message": {"text": "Open the failing file"},
            "contentReferences": [{
                "reference": {"uri": {"fsPath": "/work/vscode/main.rs"}}
            }],
            "response": [{"value": "Opened"}]
        }]
    }"#;
    let adapter = adapter();
    let (sources, _) = chats(&[("vscode-1.json", Some(text))]);
    let sessions = adapter.find_sessions(&sources);
    assert_eq!(sessions.len(), 1);
    assert_eq!(sessions[0].id, "vscode-1");
    assert_eq!(sessions[0].title, "VS Code thread");
    assert_eq!(sessions[0].directory, "/work/vscode");
    assert_eq!(sessions[0].message_count, 2);
    assert_eq!(sessions[0].content, "» Open the failing file\n\n  Opened");
    assert_eq!(sessions[0].timestamp, Timestamp { seconds: 1_720_000_000, nanos: 0 });
    assert_eq!(sessions[0].mtime, MTIME);
    assert_eq!(adapter.resume_command(&sessions[0], false), vec!["code"]);
}

#[test]
fn parses_session_id_from_json_instead_of_filename() {
    let text = r#"{
        "sessionId": "actual-session-id-from-json",
        "requests": [{
            "message": {"text": "Use the JSON identity"},
            "response": [{"value": "Done"}]
        }]
    }"#;
    let (sources, _) = chats(&[("random-uuid-filename.json", Some(text))]);
    let sessions = adapter().find_sessions(&sources);

    assert_eq!(sessions.len(), 1);
    assert_eq!(sessions[0].id, "actual-session-id-from-json");
}

#[test]
fn parses_filename_fallback_when_json_session_id_is_missing() {
    let text = r#"{
        "requests": [{
            "message": {"text": "No JSON identity"},
            "response": [{"value": "Done"}]
        }]
    }"#;
    let (sources, _) = chats(&[("fallback-id-test.json", Some(text))]);
    let sessions = adapter().find_sessions(&sources);

    assert_eq!(sessions.len(), 1);
    assert_eq!(sessions[0].id, "fallback-id-test");
}

#[test]
fn unchanged_incremental_scan_uses_json_session_id() {
    let text = r#"{
        "sessionId": "json-session-id-abc",
        "requests": [{
            "message": {"text": "Test for incremental"},
            "response": [{"value": "Response"}]
        }]
    }"#;
    let scan = scan(
        &[("uuid-filename-12345.json", Some(text))],
        &[("json-session-id-abc", MTIME)],
    );
    assert!(scan.new_or_modified.is_empty());
    assert!(scan.deleted_ids.is_empty());
}

#[test]
fn unchanged_filename_id_skips_json_parsing() {
    let text = "not parsed on the metadata fast path";
    let scan = scan(
        &[("stable-session.json", Some(text))],
        &[("stable-session", MTIME), ("deleted-session", 1)],
    );

    assert!(scan.new_or_modified.is_empty());
    assert_eq!(scan.deleted_ids, vec!["deleted-session"]);
}

#[test]
fn incremental_retains_malformed_changed_file() {
    let scan = scan(&[("vscode-malformed.json", Some("{"))], &[("vscode-malformed", 0)]);

    assert!(scan.new_or_modified.is_empty());
    assert!(scan.deleted_ids.is_empty());
}

#[test]
fn malformed_file_does_not_block_other_incremental_updates() {
    let good = r#"{
        "sessionId": "good",
        "requests": [{
            "message": {"text": "Updated request"},
            "response": [{"value": "Updated response"}]
        }]
    }"#;
    let scan = scan(
        &[("malformed.json", Some("{")), ("good.json", Some(good))],
        &[("malformed", 0), ("good", 0)],
    );

    assert_eq!(scan.new_or_modified.len(), 1);
    assert_eq!(scan.new_or_modified[0].id, "good");
    assert!(scan.deleted_ids.is_empty());
}

#[test]
fn incremental_deletes_valid_changed_file_that_no_longer_qualifies() {
    let text = r#"{"sessionId": "vscode-gone", "requests": []}"#;
    let scan = scan(&[("vscode-gone.json", Some(text))], &[("vscode-gone", 0)]);

    assert!(scan.new_or_modified.is_empty());
    assert_eq!(scan.deleted_ids, vec!["vscode-gone"]);
}

#[test]
fn incremental_read_dir_errors_do_not_delete_known_sessions() {
    let adapter = adapter();
    let mut known = KnownSessions::new();
    known.insert("copilot-vscode".to_string(), "vscode-1".to_string(), 1);
    let found = adapter.session_files(&Listing::Unreadable, &Listing::Missing);
    assert!(found.is_none());

    let scan = adapter.find_sessions_incremental(&known, None);

    assert_eq!(scan.agent, "copilot-vscode");
    assert!(scan.new_or_modified.is_empty());
    assert!(scan.deleted_ids.is_empty());
}

#[test]
fn session_files_come_from_windows_and_workspaces() {
    let adapter = adapter();
    let chats = Listing::Entries(vec![
        entry("one.json"),
        entry("notes.txt"),
        entry(".json"),
        Some(ChatEntry {
            path: PathBuf::from("/data/chat/bad.json"),
            name: FileName { text: "\u{fffd}.json".to_string(), exact: false },
        }),
    ]);
    let workspace = |chats| Some(WorkspaceEntry { dir: PathBuf::from("/data/ws"), chats });
    let workspaces = Listing::Entries(vec![
        workspace(Listing::Missing),
        workspace(Listing::Entries(vec![entry("two.json")])),
    ]);
    let found = adapter.session_files(&chats, &workspaces).unwrap();
    assert!(found.complete);
    assert_eq!(found.files.len(), 3);
    assert_eq!(found.files[0].fallback_session_id().as_deref(), Some("one"));
    assert_eq!(found.files[0].workspace_dir, None);
    assert_eq!(found.files[1].path, PathBuf::from("/data/chat/bad.json"));
    assert_eq!(found.files[1].fallback_session_id(), None);
    assert_eq!(found.files[2].fallback_session_id().as_deref(), Some("two"));
    assert_eq!(found.files[2].workspace_dir, Some(PathBuf::from("/data/ws")));

    let nothing = || Listing::Missing;
    for listing in [vec![None], vec![workspace(Listing::Unreadable)], vec![workspace(Listing::Entries(vec![None]))]] {
        let found = adapter.session_files(&nothing(), &Listing::Entries(listing)).unwrap();
        assert!(!found.complete);
        assert!(found.files.is_empty());
    }
    assert!(adapter.session_files(&nothing(), &Listing::Unreadable).is_none());
    let found = adapter.session_files(&Listing::Entries(vec![None]), &Listing::Missing).unwrap();
    assert!(!found.complete);
}

#[test]
fn unreadable_file_keeps_what_is_known() {
    let scan = scan(&[("gone.json", None)], &[("gone", 0), ("other", 0)]);
    assert!(scan.new_or_modified.is_empty());
    assert!(scan.deleted_ids.is_empty());
}

#[test]
fn new_chats_are_reported_with_the_time_of_their_file() {
    let text = r#"{"requests": [{"message": {"text": "» » ask  "}}, {"response": [{"value": ""}, {"value": "a"}, {"value": "b"}]}]}"#;
    let scan = scan(&[("new.json", Some(text))], &[("other", 0)]);
    assert_eq!(scan.new_or_modified.len(), 1);
    let session = &scan.new_or_modified[0];
    assert_eq!(session.id, "new");
    assert_eq!(session.agent, "copilot-vscode");
    assert_eq!(session.title, "ask");
    assert_eq!(session.content, "» » » ask  \n\n  a\n\n  b");
    assert_eq!(session.message_count, 2);
    assert_eq!(session.directory, "");
    assert_eq!(session.timestamp, Timestamp { seconds: 1, nanos: 0 });
    assert_eq!(session.mtime, MTIME);
    assert_eq!(scan.deleted_ids, vec!["other"]);
}

#[test]
fn creation_date_stands_in_only_where_the_last_date_is_missing() {
    let session = |dates: &str| {
        let text = format!("{{{dates}\"requests\":[{{\"message\":{{\"text\":\"x\"}}}}]}}");
        let (sources, _) = chats(&[("d.json", Some(text.as_str()))]);
        adapter().find_sessions(&sources).pop().unwrap().timestamp
    };
    assert_eq!(session("\"creationDate\":-1,").nanos, 999_000_000);
    assert_eq!(session("\"creationDate\":-1,").seconds, -1);
    assert_eq!(session("\"lastMessageDate\":5000,\"creationDate\":1,").seconds, 5);
    assert_eq!(session("\"lastMessageDate\":\"x\",\"creationDate\":7000,").seconds, 1);
    assert_eq!(session("\"lastMessageDate\":2.5,").seconds, 1);
    assert_eq!(session("\"lastMessageDate\":9223372036854775807,").seconds, 1);
}

#[test]
fn chats_without_requests_or_identity_are_no_sessions() {
    let none = |name: FileName, text: &str| {
        let file = VscodeSessionFile { path: PathBuf::from("/x"), name, workspace_dir: None };
        adapter().parse_session(&source(file, Some(text))).is_none()
    };
    let exact = || FileName { text: "n.json".to_string(), exact: true };
    assert!(none(exact(), "{}"));
    assert!(none(exact(), r#"{"requests": 3}"#));
    assert!(none(exact(), r#"{"requests": [{"message": {"text": ""}}]}"#));
    assert!(none(exact(), "[]"));
    let inexact = FileName { text: "n.json".to_string(), exact: false };
    assert!(none(inexact, r#"{"requests": [{"message": {"text": "x"}}]}"#));
}

#[test]
fn directories_come_from_the_workspace_first() {
    let data = parse_json(
        br#"[
            {"contentReferences": [{"reference": {"uri": {"fsPath": ""}}}, {"reference": {"uri": {"fsPath": "bare"}}}, {"reference": {"uri": {"fsPath": "/not/first"}}}]},
            {"contentReferences": 1},
            {"contentReferences": [{"reference": {"uri": {"fsPath": "/a/b"}}}]},
            {"contentReferences": [{"reference": {"uri": {"fsPath": "/c/d"}}}]}
        ]"#,
    )
    .unwrap();
    let requests = data.as_array().unwrap();
    assert_eq!(chat_directory(&None, requests), "/a");
    let described = Some(br#"{"folder": "file:///work/my%20app"}"#.to_vec());
    assert_eq!(chat_directory(&described, requests), "/work/my app");
    let remote = Some(br#"{"folder": "vscode-remote://host/work"}"#.to_vec());
    assert_eq!(chat_directory(&remote, requests), "/a");

    assert_eq!(workspace_directory(b""), "");
    assert_eq!(workspace_directory(br#"{"folder": "not a url"}"#), "");
    assert_eq!(workspace_directory(br#"{"folder": "file:///w"}"#), "/w");
    for path in ["/", "/a/b.c/", "/a b/.c/..d", "/a//b", "/{x}<y>\"~'`^", "/h\u{e9}\u{4e2d}"] {
        let description = format!("{{\"folder\": {}}}", serde_json::Value::from(format!("file://{path}")));
        assert_eq!(workspace_directory(description.as_bytes()), path);
    }
    assert_eq!(workspace_directory(br#"{"folder": "file://elsewhere/w"}"#), "");
    assert_eq!(workspace_directory(br#"{"folder": "file:///c%3A/work"}"#), "/c:/work");
    assert_eq!(workspace_directory(br#"{"folder": "file:///c%3A"}"#), "/c:/");

    let text = |text: &str| Some(text.to_string());
    assert_eq!(directory_of_folder(text("file"), text("/w")), "/w");
    assert_eq!(directory_of_folder(text("file"), None), "");
    assert_eq!(directory_of_folder(text("https"), text("/w")), "");
    assert_eq!(directory_of_folder(None, text("/w")), "");

    let parents = vec!["".to_string(), "/p".to_string(), "/q".to_string()];
    assert_eq!(choose_directory("".to_string(), &parents), "/p");
    assert_eq!(choose_directory("/f".to_string(), &parents), "/f");
    assert_eq!(choose_directory("".to_string(), &vec![]), "");
}

#[test]
fn stats_count_files_and_known_sizes() {
    let stats = adapter().raw_stats("/data/chat".to_string(), &vec![Some(5), None, Some(7)]);
    assert_eq!(stats.agent, "copilot-vscode");
    assert_eq!(stats.data_dir, "/data/chat");
    assert!(stats.available);
    assert_eq!(stats.file_count, 3);
    assert_eq!(stats.total_bytes, 12);
    let stats = adapter().raw_stats(String::new(), &vec![]);
    assert!(!stats.available);
    assert_eq!(stats.file_count, 0);
    assert_eq!(stats.total_bytes, 0);
}

#[test]
fn only_changed_or_unknown_files_need_reading() {
    let mut known = KnownSessions::new();
    known.insert("copilot-vscode".to_string(), "a".to_string(), 10);
    known.insert("cursor".to_string(), "b".to_string(), 10);
    let file = |text: &str, exact: bool| VscodeSessionFile {
        path: PathBuf::from("/x"),
        name: FileName { text: text.to_string(), exact },
        workspace_dir: None,
    };
    let adapter = adapter();
    assert!(!adapter.needs_reading(&known, &file("a.json", true), 10));
    assert!(adapter.needs_reading(&known, &file("a.json", true), 11));
    assert!(adapter.needs_reading(&known, &file("a.json", false), 10));
    assert!(adapter.needs_reading(&known, &file("b.json", true), 10));
}

#[test]
fn sessions_are_handed_out_once_and_in_order() {
    let text = |said: &str| format!("{{\"requests\":[{{\"message\":{{\"text\":\"{said}\"}}}}]}}");
    let (one, two) = (text("1"), text("2"));
    let files = [
        ("one.json", Some(one.as_str())),
        ("bad.json", Some("{")),
        ("old.json", Some("not read")),
        ("two.json", Some(two.as_str())),
    ];
    let mut known = KnownSessions::new();
    known.insert("copilot-vscode".to_string(), "old".to_string(), MTIME);
    let mut log = SessionLog::new();
    let mut before = chats(&[("zero.json", Some(one.as_str()))]).0;
    log.on_session(adapter().parse_session(&before.remove(0)).unwrap());
    let scan =
        adapter().find_sessions_incremental_streaming(&known, Some(chats(&files)), &mut log);
    let ids = |sessions: &[Session]| {
        sessions.iter().map(|session| session.id.clone()).collect::<Vec<_>>()
    };
    assert_eq!(ids(&scan.new_or_modified), vec!["one", "two"]);
    assert_eq!(ids(&log.sessions), vec!["zero", "one", "two"]);
    assert!(log.sessions.iter().all(|session| session.mtime == MTIME));
    assert!(scan.deleted_ids.is_empty());
    adapter().find_sessions_incremental_streaming(&known, None, &mut log);
    assert_eq!(log.sessions.len(), 3);
}

#[test]
fn references_belong_to_the_directory_above() {
    let directory = |path: &str| {
        let text = format!(
            "[{{\"contentReferences\":[{{\"reference\":{{\"uri\":{{\"fsPath\":\"{path}\"}}}}}}]}}]"
        );
        let data = parse_json(text.as_bytes()).unwrap();
        chat_directory(&None, data.as_array().unwrap())
    };
    assert_eq!(directory("/work/vscode/main.rs"), "/work/vscode");
    assert_eq!(directory("work/main.rs"), "work");
    assert_eq!(directory("./main.rs"), ".");
    assert_eq!(directory("a/../b"), "a/..");
    assert_eq!(directory("a/.."), "a");
    assert_eq!(directory("/main.rs"), "/");
    assert_eq!(directory("main.rs"), "");
    assert_eq!(directory("."), "");
    assert_eq!(directory("a.b/c d/é.rs"), "a.b/c d");
}
