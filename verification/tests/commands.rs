use std::path::Path;
use zj_agent::commands::{
    dir_entry, heartbeat_shell, join_path_str, list_dir_response, map_host_path,
    pane_contents_to_text, path_file_name, read_file_response, resolve_file_path,
    send_input_text, shell_name, sort_entries, write_file_response, PaneContents,
};
use zj_agent::protocol::SendInputPayload;

/// What std's paths give for the host mapping.
fn std_host_path(p: &str) -> String {
    let path = Path::new(p);
    if path.has_root() && !path.starts_with("/host") {
        if let Ok(stripped) = path.strip_prefix("/") {
            return Path::new("/host").join(stripped).to_string_lossy().to_string();
        }
    }
    p.to_string()
}

const PATHS: &[&str] = &[
    "",
    "/",
    "//",
    "/etc/passwd",
    "/etc/",
    "/etc/.",
    "/./a/./b",
    "/a//b/",
    "/host",
    "/host/",
    "/host/etc",
    "//host/x",
    "/./host/y",
    "/hostile",
    "/hos",
    "/..",
    "/../x",
    "relative/path",
    "./x",
    "host/x",
    "/é/ü",
];

#[test]
fn host_mapping_agrees_with_std_paths() {
    for p in PATHS {
        assert_eq!(map_host_path(p), std_host_path(p), "path {:?}", p);
    }
}

#[test]
fn host_mapping_examples() {
    assert_eq!(map_host_path("/etc/passwd"), "/host/etc/passwd");
    assert_eq!(map_host_path("/host/etc/passwd"), "/host/etc/passwd");
    assert_eq!(map_host_path("/"), "/host/");
    assert_eq!(map_host_path("notes.txt"), "notes.txt");
}

#[test]
fn host_mapping_twice_is_mapping_once() {
    for p in PATHS {
        let once = map_host_path(p);
        assert_eq!(map_host_path(&once), once, "path {:?}", p);
    }
}

#[test]
fn join_agrees_with_std_paths() {
    let bases = ["", "/", "/home/u", "/home/u/", "rel"];
    let parts = ["", "x", "x/y", "/abs", "./z"];
    for b in bases {
        for p in parts {
            let expected = Path::new(b).join(p).to_string_lossy().to_string();
            assert_eq!(join_path_str(b, p), expected, "{:?} + {:?}", b, p);
        }
    }
}

#[test]
fn file_name_agrees_with_std_paths() {
    let cases = [
        "", "/", "a", "/usr/bin/zsh", "/usr/bin/", "a/..", "..", ".", "a/.", "/a/b/./", "zsh",
        "a//b", "./", "x/../", "é",
    ];
    for c in cases {
        let expected = Path::new(c).file_name().map(|n| n.to_string_lossy().to_string());
        assert_eq!(path_file_name(c), expected, "path {:?}", c);
    }
}

#[test]
fn request_paths_are_resolved_against_cwd_and_mapped() {
    assert_eq!(resolve_file_path("/home/u", "notes.txt"), "/host/home/u/notes.txt");
    assert_eq!(resolve_file_path("/home/u", "/etc/hosts"), "/host/etc/hosts");
    assert_eq!(resolve_file_path("/host/home/u", "a/b"), "/host/home/u/a/b");
    assert_eq!(resolve_file_path("/", "."), "/host/");
    assert_eq!(resolve_file_path("rel", "x"), "rel/x");
}

#[test]
fn viewport_lines_are_joined_by_newlines() {
    let c = PaneContents { viewport: vec!["$ ls".to_string(), "a  b".to_string(), "".to_string()] };
    assert_eq!(pane_contents_to_text(&c), "$ ls\na  b\n");
    let empty = PaneContents { viewport: vec![] };
    assert_eq!(pane_contents_to_text(&empty), "");
}

#[test]
fn escaped_newlines_become_carriage_returns() {
    let p = SendInputPayload { input: "ls -la\\n".to_string() };
    assert_eq!(send_input_text(&p), "ls -la\r");
    let p = SendInputPayload { input: "a\\nb\\\\nc\n".to_string() };
    assert_eq!(send_input_text(&p), "a\rb\\\rc\n");
    let p = SendInputPayload { input: "\\".to_string() };
    assert_eq!(send_input_text(&p), "\\");
}

#[test]
fn shell_name_is_the_file_name_of_the_command() {
    assert_eq!(shell_name(&vec!["/bin/zsh".to_string(), "-l".to_string()]), "zsh");
    assert_eq!(shell_name(&vec!["bash".to_string()]), "bash");
    assert_eq!(shell_name(&vec![]), "");
    assert_eq!(shell_name(&vec!["/".to_string()]), "/");
    assert_eq!(shell_name(&vec!["..".to_string()]), "..");
}

#[test]
fn heartbeat_shell_falls_back_to_unknown() {
    assert_eq!(heartbeat_shell(Some(&vec!["/usr/bin/fish".to_string()])), "fish");
    assert_eq!(heartbeat_shell(Some(&vec![])), "unknown");
    assert_eq!(heartbeat_shell(Some(&vec!["/".to_string()])), "unknown");
    assert_eq!(heartbeat_shell(None), "unknown");
}

#[test]
fn whole_file_read_gives_back_the_file() {
    let r = read_file_response("a\nb\nc\n", 0, 2000).unwrap();
    assert_eq!(r.content, "a\nb\nc\n");
    assert_eq!(r.encoding, "utf-8");
    assert_eq!(r.total_lines, 3);
    let r = read_file_response("a\nb", 0, 2000).unwrap();
    assert_eq!(r.content, "a\nb");
    assert_eq!(r.total_lines, 2);
    let r = read_file_response("a\rb\n\r", 0, 2).unwrap();
    assert_eq!(r.content, "a\rb\n\r");
}

#[test]
fn read_window_selects_lines() {
    let r = read_file_response("a\nb\nc\n", 1, 1).unwrap();
    assert_eq!(r.content, "b");
    assert_eq!(r.total_lines, 3);
    let r = read_file_response("a\nb\nc\n", 1, 5).unwrap();
    assert_eq!(r.content, "b\nc\n");
    let r = read_file_response("a\nb\nc", 2, 1).unwrap();
    assert_eq!(r.content, "c");
}

#[test]
fn read_window_past_the_end_is_empty() {
    let r = read_file_response("a\nb\nc\n", 5, 10).unwrap();
    assert_eq!(r.content, "\n");
    assert_eq!(r.total_lines, 3);
    let r = read_file_response("a\nb\nc", 5, 10).unwrap();
    assert_eq!(r.content, "");
    let r = read_file_response("a\nb\nc\n", 0, 0).unwrap();
    assert_eq!(r.content, "");
}

#[test]
fn read_counts_lines_as_str_lines_does() {
    let r = read_file_response("a\r\nb\r\n", 0, 10).unwrap();
    assert_eq!(r.content, "a\nb\n");
    assert_eq!(r.total_lines, 2);
    let r = read_file_response("", 0, 10).unwrap();
    assert_eq!(r.content, "");
    assert_eq!(r.total_lines, 0);
    let r = read_file_response("\n\n", 0, 10).unwrap();
    assert_eq!(r.total_lines, 2);
    assert_eq!(r.content, "\n\n");
}

#[test]
fn read_window_that_overflows_is_refused() {
    assert!(read_file_response("a\nb\n", 1, usize::MAX).is_none());
    assert!(read_file_response("a\nb\n", 0, usize::MAX).is_some());
    assert!(read_file_response("", usize::MAX, usize::MAX).is_some());
}

#[test]
fn written_bytes_are_the_utf8_length() {
    let r = write_file_response("héllo");
    assert!(r.success);
    assert_eq!(r.bytes_written, 6);
    assert_eq!(write_file_response("").bytes_written, 0);
}

#[test]
fn dir_entries_report_size_only_for_files() {
    let d = dir_entry("src".to_string(), true, 4096, Some(1700000000));
    assert_eq!(d.name, "src");
    assert!(d.is_dir);
    assert_eq!(d.size, 0);
    assert_eq!(d.modified_at, Some("1700000000".to_string()));
    let f = dir_entry("a.txt".to_string(), false, 12, None);
    assert_eq!(f.size, 12);
    assert_eq!(f.modified_at, None);
}

#[test]
fn listing_puts_directories_first_then_names_in_order() {
    let entries = vec![
        dir_entry("b.txt".to_string(), false, 1, None),
        dir_entry("zeta".to_string(), true, 0, None),
        dir_entry("A.txt".to_string(), false, 2, None),
        dir_entry("alpha".to_string(), true, 0, None),
        dir_entry("a.txt".to_string(), false, 3, None),
    ];
    let r = list_dir_response(entries);
    let names: Vec<&str> = r.entries.iter().map(|e| e.name.as_str()).collect();
    assert_eq!(names, vec!["alpha", "zeta", "A.txt", "a.txt", "b.txt"]);
}

#[test]
fn sorting_is_stable_and_keeps_every_entry() {
    let entries = vec![
        dir_entry("same".to_string(), false, 1, None),
        dir_entry("same".to_string(), false, 2, None),
        dir_entry("é".to_string(), false, 3, None),
        dir_entry("z".to_string(), false, 4, None),
    ];
    let r = sort_entries(entries);
    let sizes: Vec<u64> = r.iter().map(|e| e.size).collect();
    assert_eq!(sizes, vec![1, 2, 4, 3]);
}
