use fast_resume::adapters::copilot_vscode::directory::workspace_directory;
use fast_resume::urls::file_url_path;

fn path(text: &str) -> Option<String> {
    file_url_path(text)
}

#[test]
fn plain_urls_stand_for_their_paths() {
    for plain in ["/", "/home/me", "/a//b/", "/with space/\u{e9}", "/~!$&'()*+,;=@^[]{}"] {
        assert_eq!(path(&format!("file://{plain}")).as_deref(), Some(plain));
    }
    assert_eq!(path("file:///with%20space/%C3%A9").as_deref(), Some("/with space/\u{e9}"));
    assert_eq!(path("file:///100%/%zz%2f").as_deref(), Some("/100%/%zz/"));
    assert_eq!(path("file:///%ff").as_deref(), Some("/\u{fffd}"));
    assert_eq!(path("file:///% \u{e9}%4\u{e9}").as_deref(), Some("/% \u{e9}%4\u{e9}"));
}

#[test]
fn drives_end_in_a_slash() {
    assert_eq!(path("file:///C:").as_deref(), Some("/C:/"));
    assert_eq!(path("file:///c%3A").as_deref(), Some("/c:/"));
    assert_eq!(path("file:///c%3a?q").as_deref(), Some("/c:/"));
    assert_eq!(path("file:///C:/").as_deref(), Some("/C:/"));
    assert_eq!(path("file:///C:/a%20b").as_deref(), Some("/C:/a b"));
    assert_eq!(path("file:///C%3a/a").as_deref(), Some("/C:/a"));
    assert_eq!(path("file:///a/b:").as_deref(), Some("/a/b:/"));
    assert_eq!(path("file:///a/b%7C").as_deref(), Some("/a/b|/"));
    assert_eq!(path("file:///1:").as_deref(), Some("/1:"));
    assert_eq!(workspace_directory(br#"{"folder": "file:///C:"}"#), "/C:/");
}

#[test]
fn urls_are_read_before_they_name_paths() {
    assert_eq!(path("file:///a/../b/./c").as_deref(), Some("/b/c"));
    assert_eq!(path("file:///a/%2e%2E/b").as_deref(), Some("/b"));
    assert_eq!(path("file:////a").as_deref(), Some("/a"));
    assert_eq!(path("file:///a\\b").as_deref(), Some("/a/b"));
    assert_eq!(path("file:///a?query#fragment").as_deref(), Some("/a"));
    assert_eq!(path(" file:///a ").as_deref(), Some("/a"));
    assert_eq!(path("file:///a\tb").as_deref(), Some("/ab"));
    assert_eq!(path("file://localhost/a").as_deref(), Some("/a"));
    assert_eq!(path("http://localhost/a").as_deref(), Some("/a"));
    assert_eq!(path("file:").as_deref(), Some("/"));
}

#[test]
fn urls_without_local_paths_name_none() {
    assert_eq!(path("file://host/share"), None);
    assert_eq!(path("file://host/"), None);
    assert_eq!(path("file://host/%5Cx"), None);
    assert_eq!(path("file://[bad"), None);
    assert_eq!(path("mailto:me"), None);
    assert_eq!(path("/a"), None);
    assert_eq!(path(""), None);
}
