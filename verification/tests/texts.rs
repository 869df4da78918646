use task_queue::command::{build_launch_command, shell_quote};
use task_queue::image::{
    is_jpeg_start_of_frame, jpeg_dimensions, png_dimensions, webp_chunk_dimensions,
    webp_dimensions,
};
use task_queue::numbers::{decimal_text, lower_hex_text, parse_decimal};
use task_queue::order::{compare_texts, Standing};
use task_queue::path::{compare_paths, normalize_path, LocalPath, PathComponent};
use task_queue::task::{timestamp_from_millis, task_timestamp_now, AgentKind, TaskQueueError};
use task_queue::text::{
    control_char, split_text_once, strip_text_prefix, text_contains, text_lines, trim_text,
    white_space,
};
use task_queue::workspace::{
    path_display_name, DiscoveredWorkspace, WorkspaceId, WorkspaceSource,
};

fn path(text: &str) -> LocalPath {
    LocalPath::from_text(text)
}

#[test]
fn the_launch_command_names_the_task_file() {
    assert_eq!(
        build_launch_command(AgentKind::Codex, &path("/tmp/task queue/LOCAL-004/task.md")),
        Ok(
            "codexauto 'Lee y ejecuta la tarea en /tmp/task queue/LOCAL-004/task.md, incluidos sus adjuntos.'"
                .to_string()
        )
    );
    assert_eq!(
        build_launch_command(AgentKind::ClaudeCode, &path("/O'Reilly/task.md")),
        Ok(
            "claudeauto 'Lee y ejecuta la tarea en /O'\\''Reilly/task.md, incluidos sus adjuntos.'"
                .to_string()
        )
    );
}

#[test]
fn shell_quote_preserves_single_quotes_in_task_paths() {
    assert_eq!(shell_quote("/tmp/O'Reilly/task.md"), "'/tmp/O'\\''Reilly/task.md'");
    assert_eq!(shell_quote(""), "''");
    assert_eq!(shell_quote("$(x) \"y\" `z` \\"), "'$(x) \"y\" `z` \\'");
}

#[test]
fn other_paths_are_not_launched() {
    let refused = build_launch_command(AgentKind::Codex, &path("task.md"));
    assert_eq!(refused, Err(TaskQueueError::RelativeTaskMarkdownPath(path("task.md"))));
    assert_eq!(
        refused.expect_err("it is relative").message(),
        "task Markdown path must be absolute: task.md"
    );
    let refused = build_launch_command(AgentKind::Codex, &path("/a/other.md"));
    assert_eq!(refused, Err(TaskQueueError::InvalidTaskMarkdownPath(path("/a/other.md"))));
    assert_eq!(
        refused.expect_err("it is another file").message(),
        "task Markdown path must be named task.md: /a/other.md"
    );
}

#[test]
fn white_space_and_control_characters_are_those_of_unicode() {
    for code in 0..=0x10ffff {
        if let Some(c) = char::from_u32(code) {
            assert_eq!(white_space(c), c.is_whitespace(), "{code:x}");
            assert_eq!(control_char(c), c.is_control(), "{code:x}");
        }
    }
}

#[test]
fn texts_are_cut_as_str_cuts_them() {
    for text in ["", " a ", "\u{3000}é\n", "\t\n", "a\r\nb\r\r\n\nc", "\n", "x: y: z", "---\n"] {
        assert_eq!(trim_text(text), text.trim());
        let lines: Vec<&str> = text.lines().collect();
        assert_eq!(text_lines(text), lines);
        let halves = text.split_once(": ").map(|(a, b)| (a.to_string(), b.to_string()));
        assert_eq!(split_text_once(text, ": "), halves);
        assert_eq!(
            strip_text_prefix(text, "---\n").as_deref(),
            text.strip_prefix("---\n")
        );
        assert_eq!(text_contains(text, "b"), text.contains("b"));
        assert!(text_contains(text, ""));
    }
}

#[test]
fn texts_are_ordered_as_str_orders_them() {
    let texts = ["", "a", "A", "aa", "b", "é", "z", "\u{ffff}", "\u{10000}"];
    for left in texts {
        for right in texts {
            let standing = if left < right {
                Standing::Earlier
            } else if left > right {
                Standing::Later
            } else {
                Standing::Same
            };
            assert_eq!(compare_texts(left, right), standing);
        }
    }
}

const PATHS: [&str; 24] = [
    "", "/", ".", "..", "a", "./a", "a/.", "a/..", "/..", "/../a", "../a", "a/../..", "a/../../b",
    "//a//b/", "a/b", "a/./b", "a.b", "a/", "/a/b/../c", ".../x", "-", "a-b/c", "a/b/c", "/.",
];

#[test]
fn paths_have_the_components_of_std() {
    for text in PATHS {
        let ours: Vec<String> = path(text)
            .components()
            .iter()
            .map(|component| match component {
                PathComponent::RootDir => "/".to_string(),
                PathComponent::CurDir => ".".to_string(),
                PathComponent::ParentDir => "..".to_string(),
                PathComponent::Normal(name) => {
                    String::from_utf8(name.clone()).expect("the name is text")
                }
            })
            .collect();
        let theirs: Vec<String> = std::path::Path::new(text)
            .components()
            .map(|component| component.as_os_str().to_string_lossy().into_owned())
            .collect();
        assert_eq!(ours, theirs, "{text}");
        assert_eq!(
            path(text).file_name().map(|name| String::from_utf8(name).expect("text")),
            std::path::Path::new(text)
                .file_name()
                .map(|name| name.to_string_lossy().into_owned()),
        );
        assert_eq!(path(text).is_absolute(), std::path::Path::new(text).is_absolute());
    }
}

#[test]
fn paths_are_joined_and_ordered_as_std_does() {
    for left in PATHS {
        for right in PATHS {
            let (a, b) = (std::path::Path::new(left), std::path::Path::new(right));
            assert_eq!(
                path(left).join_text(right).as_bytes(),
                a.join(b).as_os_str().as_encoded_bytes(),
                "{left} + {right}"
            );
            let standing = if a < b {
                Standing::Earlier
            } else if a > b {
                Standing::Later
            } else {
                Standing::Same
            };
            assert_eq!(compare_paths(&path(left), &path(right)), standing, "{left} ? {right}");
            assert_eq!(path(left) == path(right), a == b);
        }
    }
}

#[test]
fn redundant_components_are_removed() {
    let normal = |text: &str| {
        String::from_utf8(normalize_path(&path(text)).as_bytes().to_vec()).expect("text")
    };
    assert_eq!(normal("/a/./b/../c//d/"), "/a/c/d");
    assert_eq!(normal("/../.."), "/");
    assert_eq!(normal("a/../../b"), "../b");
    assert_eq!(normal("./a"), "a");
    assert_eq!(normal("../../x"), "../../x");
    assert_eq!(normal("a/.."), "");
}

#[test]
fn identifiers_hash_the_normalized_path() {
    assert_eq!(
        WorkspaceId::from_path(&path("")).0,
        "e3b0c44298fc1c149afbf4c8996fb92427ae41e4649b934ca495991b7852b855"
    );
    assert_eq!(
        WorkspaceId::from_path(&path("x/../abc")).0,
        "ba7816bf8f01cfea414140de5dae2223b00361a396177a9cb410ff61f20015ad"
    );
    assert_eq!(WorkspaceId::from_path(&path("/a//b")), WorkspaceId::from_path(&path("/a/./b/")));
    assert_ne!(WorkspaceId::from_path(&path("/a/b")), WorkspaceId::from_path(&path("/a/c")));
}

#[test]
fn workspaces_are_shown_by_their_folder() {
    assert_eq!(path_display_name(&path("/x/Name"), WorkspaceSource::Github), "Name");
    assert_eq!(path_display_name(&path("/"), WorkspaceSource::Github), "GitHub");
    assert_eq!(path_display_name(&path(".."), WorkspaceSource::ActiveProjects), "Active Projects");
    let bytes = LocalPath::from_bytes(vec![b'/', b'a', 0xff]);
    assert_eq!(path_display_name(&bytes, WorkspaceSource::Github), "a\u{fffd}");
    let lost = DiscoveredWorkspace::unavailable(WorkspaceSource::Github, path("/x"));
    assert!(!lost.is_available);
    assert_eq!(WorkspaceSource::from_storage_name("github"), Some(WorkspaceSource::Github));
    assert_eq!(WorkspaceSource::from_storage_name("GitHub"), None);
    assert_eq!(WorkspaceSource::ActiveProjects.storage_name(), "active_projects");
}

#[test]
fn numbers_are_written_as_std_writes_them() {
    for number in [0, 7, 10, 99, 1000, u64::MAX] {
        assert_eq!(decimal_text(number), number.to_string());
        assert_eq!(parse_decimal(&decimal_text(number)), Some(number));
    }
    assert_eq!(lower_hex_text(&vec![0, 9, 10, 255]), "00090aff");
}

#[test]
fn times_are_clamped() {
    assert_eq!(timestamp_from_millis(None), 0);
    assert_eq!(timestamp_from_millis(Some(5)), 5);
    assert_eq!(timestamp_from_millis(Some(u128::MAX)), u64::MAX);
    assert!(task_timestamp_now() > 1_600_000_000_000);
}

fn chunk(kind: &[u8], data: &[u8]) -> Vec<u8> {
    let mut bytes = (data.len() as u32).to_be_bytes().to_vec();
    bytes.extend(kind);
    bytes.extend(data);
    bytes.extend([9, 9, 9, 9]);
    bytes
}

fn png(chunks: &[Vec<u8>]) -> Vec<u8> {
    let mut bytes = vec![137, 80, 78, 71, 13, 10, 26, 10];
    for each in chunks {
        bytes.extend(each);
    }
    bytes
}

#[test]
fn a_png_needs_its_chunks_in_order() {
    let header = chunk(b"IHDR", &[0, 0, 1, 2, 0, 0, 0, 3, 8, 6, 0, 0, 0]);
    let data = chunk(b"IDAT", b"xyz");
    let end = chunk(b"IEND", b"");
    let text = chunk(b"tEXt", b"note");
    let size = Some((258, 3));
    assert_eq!(png_dimensions(&png(&[header.clone(), data.clone(), end.clone()])), size);
    assert_eq!(
        png_dimensions(&png(&[header.clone(), text.clone(), data.clone(), data.clone(), end.clone()])),
        size
    );
    assert_eq!(png_dimensions(&png(&[header.clone(), end.clone()])), None);
    assert_eq!(png_dimensions(&png(&[text, header.clone(), data.clone(), end.clone()])), None);
    assert_eq!(png_dimensions(&png(&[header.clone(), data.clone()])), None);
    assert_eq!(png_dimensions(&png(&[header, data.clone(), end, data])), None);
    assert_eq!(png_dimensions(b""), None);
}

#[test]
fn a_jpeg_needs_one_frame_and_an_end() {
    let frame = [0xff, 0xc2, 0, 8, 8, 1, 2, 0, 5, 1];
    let scan = [0xff, 0xda, 0, 2, 7, 7, 0xff, 0xd9];
    let join = |parts: &[&[u8]]| {
        let mut bytes = vec![0xff, 0xd8];
        for part in parts {
            bytes.extend_from_slice(part);
        }
        bytes
    };
    assert_eq!(jpeg_dimensions(&join(&[&frame, &scan])), Some((5, 258)));
    assert_eq!(
        jpeg_dimensions(&join(&[&[0xff, 0xff, 0xe0, 0, 3, 1], &[0xd0], &frame, &scan])),
        Some((5, 258))
    );
    assert_eq!(jpeg_dimensions(&join(&[&frame, &frame, &scan])), None);
    assert_eq!(jpeg_dimensions(&join(&[&scan])), None);
    assert_eq!(jpeg_dimensions(&join(&[&frame, &scan[..6]])), None);
    assert_eq!(jpeg_dimensions(&join(&[&frame, &[0xff, 0xd9]])), None);
    assert_eq!(jpeg_dimensions(&join(&[&[0xff, 0xe0, 0, 1]])), None);
    for marker in 0..=255u8 {
        let starts = (0xc0..=0xcf).contains(&marker) && ![0xc4, 0xc8, 0xcc].contains(&marker);
        assert_eq!(is_jpeg_start_of_frame(marker), starts);
    }
}

fn riff(chunks: &[(&[u8], &[u8])]) -> Vec<u8> {
    let mut body = b"WEBP".to_vec();
    for (kind, data) in chunks {
        body.extend_from_slice(kind);
        body.extend((data.len() as u32).to_le_bytes());
        body.extend_from_slice(data);
        if data.len() % 2 == 1 {
            body.push(0);
        }
    }
    let mut bytes = b"RIFF".to_vec();
    bytes.extend((body.len() as u32).to_le_bytes());
    bytes.extend(body);
    bytes
}

#[test]
fn a_webp_declares_its_size_in_three_ways() {
    let lossy = [0u8, 0, 0, 0x9d, 0x01, 0x2a, 0x34, 0xc1, 0x10, 0x40];
    assert_eq!(webp_chunk_dimensions(b"VP8 ", &lossy), Some((0x134, 0x10)));
    let lossless = [0x2f, 0xff, 0xff, 0xff, 0x0f, 1];
    assert_eq!(webp_chunk_dimensions(b"VP8L", &lossless), Some((16384, 16384)));
    let canvas = [0u8, 0, 0, 0, 1, 2, 3, 4, 5, 6];
    let size = Some((1 + 0x030201, 1 + 0x060504));
    assert_eq!(webp_chunk_dimensions(b"VP8X", &canvas), size);
    let animated = [2u8, 0, 0, 0, 1, 2, 3, 4, 5, 6];
    assert_eq!(webp_chunk_dimensions(b"VP8X", &animated), None);
    assert_eq!(webp_chunk_dimensions(b"ALPH", &lossy), None);

    assert_eq!(webp_dimensions(&riff(&[(b"VP8 ", &lossy)])), Some((0x134, 0x10)));
    assert_eq!(webp_dimensions(&riff(&[(b"VP8X", &canvas)])), None);
    assert_eq!(
        webp_dimensions(&riff(&[(b"VP8X", &canvas), (b"ICCP", b"odd"), (b"VP8L", &lossless)])),
        size
    );
    let mut short = riff(&[(b"VP8 ", &lossy)]);
    short.pop();
    assert_eq!(webp_dimensions(&short), None);
    let mut padded = riff(&[(b"VP8X", &canvas), (b"ICCP", b"odd"), (b"VP8L", &lossless)]);
    let at = 12 + 8 + 10 + 8 + 3;
    padded[at] = 1;
    assert_eq!(webp_dimensions(&padded), None);
}

#[test]
fn a_png_has_no_size_when_cut_short_or_continued() {
    let whole = png(&[
        chunk(b"IHDR", &[0, 0, 0, 7, 0, 0, 0, 5, 8, 6, 0, 0, 0]),
        chunk(b"IDAT", &[1, 2, 3]),
        chunk(b"IEND", &[]),
    ]);
    assert_eq!(png_dimensions(&whole), Some((7, 5)));
    for length in 0..whole.len() {
        assert_eq!(png_dimensions(&whole[..length]), None);
    }
    let mut longer = whole.clone();
    longer.push(0);
    assert_eq!(png_dimensions(&longer), None);
    let mut twice = whole;
    twice.extend(chunk(b"IEND", &[]));
    assert_eq!(png_dimensions(&twice), None);
}

#[test]
fn a_webp_has_no_size_when_cut_short_or_continued() {
    let lossy = [0u8, 0, 0, 0x9d, 0x01, 0x2a, 0x07, 0x00, 0x05, 0x00];
    let whole = riff(&[(b"VP8 ", &lossy)]);
    assert_eq!(webp_dimensions(&whole), Some((7, 5)));
    for length in 0..whole.len() {
        assert_eq!(webp_dimensions(&whole[..length]), None);
    }
    let mut longer = whole.clone();
    longer.push(0);
    assert_eq!(webp_dimensions(&longer), None);
    let mut twice = whole;
    twice.extend_from_slice(b"ICCP\0\0\0\0");
    assert_eq!(webp_dimensions(&twice), None);
}
