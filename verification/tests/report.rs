use better_folder_size::launch::{folder_argument, trim_quotes};
use better_folder_size::report::{
    clipboard_text, details_text, display_path, folder_title, skipped_text, window_origin,
};
use better_folder_size::scan::ScanStats;

fn stats(total_bytes: u64, file_count: u64, dir_count: u64, skipped_count: u64) -> ScanStats {
    ScanStats { total_bytes, file_count, dir_count, skipped_count }
}

#[test]
fn details_line_groups_the_counts() {
    assert_eq!(details_text(&stats(0, 12345, 7, 0)), "Files: 12 345    •    Folders: 7");
}

#[test]
fn skipped_note_only_when_something_was_skipped() {
    assert_eq!(skipped_text(&stats(0, 1, 1, 0)), None);
    assert_eq!(
        skipped_text(&stats(0, 1, 1, 1500)),
        Some("(skipped 1 500 inaccessible items)".to_string())
    );
}

#[test]
fn clipboard_text_of_finished_scan() {
    let s = stats(1331439812, 1234, 56, 0);
    assert_eq!(
        clipboard_text("C:\\Data", Some(&s)),
        "Folder: C:\\Data\r\nSize: 1.24 GB (1 331 439 812 B)\r\nContent: 1 234 files, 56 folders"
    );
    let s = stats(512, 1, 0, 3);
    assert_eq!(
        clipboard_text("C:\\Data", Some(&s)),
        "Folder: C:\\Data\r\nSize: 512 B\r\nContent: 1 files, 0 folders\r\n(skipped 3 inaccessible items)"
    );
}

#[test]
fn clipboard_text_while_scanning() {
    assert_eq!(
        clipboard_text("D:\\", None),
        "Folder: D:\\\r\nCalculating folder size in progress..."
    );
}

#[test]
fn title_names_the_folder() {
    assert_eq!(folder_title("Music"), "Folder: Music");
}

#[test]
fn short_paths_are_shown_whole() {
    let p = "C:\\Users\\someone\\Documents";
    assert_eq!(display_path(p), p);
    let p55 = "a".repeat(55);
    assert_eq!(display_path(&p55), p55);
}

#[test]
fn long_paths_keep_their_last_52_bytes() {
    let p = format!("C:\\{}", "x".repeat(60));
    assert_eq!(p.len(), 63);
    let shown = display_path(&p);
    assert_eq!(shown, format!("...{}", &p[11..]));
    assert_eq!(shown.len(), 55);
    let p = format!("{}é{}", "y".repeat(40), "z".repeat(50));
    assert!(p.is_char_boundary(p.len() - 52));
    assert_eq!(display_path(&p), format!("...é{}", "z".repeat(50)));
}

#[test]
fn window_is_centred() {
    assert_eq!(window_origin(1920, 1080), (740, 430));
    assert_eq!(window_origin(441, 221), (0, 0));
    assert_eq!(window_origin(300, 100), (-70, -60));
    assert_eq!(window_origin(299, 99), (-70, -60));
}

#[test]
fn quotes_around_the_argument_are_removed() {
    assert_eq!(trim_quotes("\"C:\\My Folder\""), "C:\\My Folder");
    assert_eq!(trim_quotes("\"\"C:\\x\""), "C:\\x");
    assert_eq!(trim_quotes("C:\\a\"b"), "C:\\a\"b");
    assert_eq!(trim_quotes("\"\"\""), "");
    assert_eq!(trim_quotes(""), "");
    assert_eq!(trim_quotes("\"é\""), "é");
}

#[test]
fn folder_argument_is_the_first_after_the_program() {
    let none: Vec<String> = vec!["BetterFolderSize.exe".to_string()];
    assert_eq!(folder_argument(&none), None);
    let args = vec![
        "BetterFolderSize.exe".to_string(),
        "\"C:\\Program Files\"".to_string(),
        "ignored".to_string(),
    ];
    assert_eq!(folder_argument(&args), Some("C:\\Program Files"));
}
