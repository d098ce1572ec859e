use fast_resume::resume::{exec_resume_with, ResumeAction, ResumeEvent};
use fast_resume::windows::{
    eq_ignore_ascii_case, is_windows_shim, is_windows_shim_with_env, program_candidates,
    spawn_windows_command, split_extensions, windows_command, windows_command_line, SpawnRetry,
};

#[derive(Default)]
struct RecordingExec {
    directories: Vec<String>,
    commands: Vec<Vec<String>>,
}

impl RecordingExec {
    /// Does what is asked for until it is given up, and tells with which message.
    fn run(&mut self, command: Vec<String>, directory: String, directories_work: bool) -> String {
        let mut event = ResumeEvent::Started;
        loop {
            event = match exec_resume_with(&command, &directory, event) {
                ResumeAction::ChangeDirectory(directory) => {
                    self.directories.push(directory);
                    if directories_work {
                        ResumeEvent::DirectoryChanged
                    } else {
                        ResumeEvent::DirectoryFailed
                    }
                }
                ResumeAction::Execute(command) => {
                    self.commands.push(command);
                    ResumeEvent::ExecFailed
                }
                ResumeAction::Fail(message) => return message,
            };
        }
    }
}

fn words(words: &[&str]) -> Vec<String> {
    words.iter().map(|word| word.to_string()).collect()
}

#[test]
fn exec_resume_hands_off_directory_and_command() {
    let mut backend = RecordingExec::default();

    let error = backend.run(
        vec![
            "codex".to_string(),
            "resume".to_string(),
            "session-1".to_string(),
        ],
        "/repo/backend".to_string(),
        true,
    );

    assert_eq!(backend.directories, vec!["/repo/backend"]);
    assert_eq!(
        backend.commands,
        vec![vec![
            "codex".to_string(),
            "resume".to_string(),
            "session-1".to_string()
        ]]
    );
    assert!(error.contains("failed to exec codex"));
}

#[test]
fn exec_resume_skips_empty_directory_and_rejects_empty_command() {
    let mut backend = RecordingExec::default();

    let error = backend.run(vec!["code".to_string()], String::new(), true);

    assert!(backend.directories.is_empty());
    assert_eq!(backend.commands, vec![vec!["code".to_string()]]);
    assert!(error.contains("failed to exec code"));

    let mut backend = RecordingExec::default();
    let error = backend.run(Vec::new(), "/repo".to_string(), true);
    assert!(backend.directories.is_empty());
    assert!(backend.commands.is_empty());
    assert!(error.contains("no resume command"));
}

#[test]
fn exec_resume_stops_where_the_directory_is_missing() {
    let mut backend = RecordingExec::default();
    let error = backend.run(words(&["agy"]), "/gone".to_string(), false);
    assert_eq!(backend.directories, vec!["/gone"]);
    assert!(backend.commands.is_empty());
    assert_eq!(error, "failed to change directory to /gone");
}

#[test]
fn windows_command_quotes_shell_metacharacters() {
    let command_line = windows_command_line(&vec![
        "codex".to_string(),
        "resume".to_string(),
        "session&^1".to_string(),
    ])
    .unwrap();

    assert_eq!(command_line, "\"codex\" \"resume\" \"session&^^1\"");
}

#[test]
fn windows_command_escapes_quotes_and_refuses_expansions() {
    assert_eq!(windows_command_line(&words(&["a\"b", ""])).unwrap(), "\"a^\"b\" \"\"");
    assert_eq!(windows_command_line(&vec![]).unwrap(), "");
    assert_eq!(
        windows_command(&words(&["agent", "x y"])).unwrap(),
        " /D /S /C \"\"agent\" \"x y\"\""
    );
    for refused in ["%PATH%", "wow!", "a\rb", "a\nb"] {
        assert_eq!(
            windows_command_line(&words(&["agent", refused])).unwrap_err(),
            "Windows cmd.exe arguments cannot contain %, !, or newlines"
        );
        assert!(windows_command(&words(&[refused])).is_err());
    }
}

#[test]
fn windows_resume_does_not_fallback_for_non_shims() {
    let command = words(&["missing-agent.exe"]);
    let shim = is_windows_shim_with_env(&command, &vec![vec![true, true]], ".EXE;.CMD");
    assert!(!shim);
    assert!(matches!(spawn_windows_command(&command, shim), SpawnRetry::GiveUp));
}

#[test]
fn bare_windows_command_falls_back_to_cmd_shim() {
    let files = ["agent.cmd"];
    let candidates = program_candidates("agent", ".EXE;.CMD");
    assert_eq!(candidates, vec!["agent.EXE", "agent.CMD"]);
    let found = candidates
        .iter()
        .map(|name| files.iter().any(|file| file.eq_ignore_ascii_case(name)))
        .collect();

    assert!(is_windows_shim_with_env(&words(&["agent"]), &vec![found], ".EXE;.CMD"));
}

#[test]
fn bare_windows_command_falls_back_to_bat_shim() {
    let files = ["agent.bat"];
    let found = program_candidates("agent", ".EXE;.BAT")
        .iter()
        .map(|name| files.iter().any(|file| file.eq_ignore_ascii_case(name)))
        .collect();

    assert!(is_windows_shim_with_env(&words(&["agent"]), &vec![found], ".EXE;.BAT"));
}

#[test]
fn bare_windows_command_does_not_fallback_to_exe() {
    let files = ["agent.exe"];
    let found = program_candidates("agent", ".EXE;.CMD")
        .iter()
        .map(|name| files.iter().any(|file| file.eq_ignore_ascii_case(name)))
        .collect();

    assert!(!is_windows_shim_with_env(&words(&["agent"]), &vec![found], ".EXE;.CMD"));
}

#[test]
fn bare_windows_command_does_not_fallback_when_not_found() {
    assert!(!is_windows_shim_with_env(
        &words(&["agent"]),
        &vec![vec![false, false]],
        ".CMD;.BAT"
    ));
}

#[test]
fn windows_resume_falls_back_to_batch_shims() {
    for shim_dir in ["C:\\temp\\path with spaces\\", "C:/temp/path with spaces/", "C:", ""] {
        let shim = format!("{shim_dir}agent.cmd");
        let command = words(&[shim.as_str(), "23&^23"]);
        assert!(is_windows_shim_with_env(&command, &vec![], ""));
        match spawn_windows_command(&command, true) {
            SpawnRetry::Interpret(argument) => {
                assert_eq!(argument, format!(" /D /S /C \"\"{shim}\" \"23&^^23\"\""))
            }
            _ => panic!("expected the command interpreter"),
        }
        let other = format!("{shim_dir}agent.exe");
        assert!(!is_windows_shim_with_env(&words(&[other.as_str()]), &vec![vec![true]], ".CMD"));
    }
    match spawn_windows_command(&words(&["agent.cmd", "100%"]), true) {
        SpawnRetry::Refuse(message) => {
            assert_eq!(message, "Windows cmd.exe arguments cannot contain %, !, or newlines")
        }
        _ => panic!("expected a refusal"),
    }
}

#[test]
fn the_first_file_of_the_search_decides() {
    let shim = |rows: Vec<Vec<bool>>| {
        is_windows_shim_with_env(&words(&["agent"]), &rows, " .EXE ; ;.cmd;")
    };
    assert_eq!(split_extensions(" .EXE ; ;.cmd;"), vec![".EXE", ".cmd"]);
    assert!(!shim(vec![vec![true, true]]));
    assert!(shim(vec![vec![false, true], vec![true, false]]));
    assert!(!shim(vec![vec![false, false], vec![true, true]]));
    assert!(!shim(vec![]));
    assert!(!is_windows_shim_with_env(&vec![], &vec![vec![true]], ".CMD"));
    assert!(!is_windows_shim_with_env(&words(&["dir/agent"]), &vec![vec![true]], ".CMD"));
    assert!(!is_windows_shim_with_env(&words(&["a.cmd/agent"]), &vec![vec![true]], ".CMD"));
    assert!(!is_windows_shim_with_env(&words(&["dir\\agent"]), &vec![vec![true]], ".CMD"));
    assert!(is_windows_shim(&words(&["x"]), Some("BaT".to_string()), &vec![], ""));
    assert!(!is_windows_shim(&words(&["x"]), Some("exe".to_string()), &vec![vec![true]], ".CMD"));
}

#[test]
fn case_is_ignored_for_basic_letters_only() {
    assert!(eq_ignore_ascii_case(".CmD", ".cMd"));
    assert!(eq_ignore_ascii_case("[z", "[Z"));
    assert!(!eq_ignore_ascii_case("é", "É"));
    assert!(!eq_ignore_ascii_case("[", "{"));
    assert!(!eq_ignore_ascii_case("a", "ab"));
}
