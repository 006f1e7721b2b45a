//! The texts shown for a folder and its scan results, and where the
//! result window stands.

use vstd::prelude::*;
use vstd::string::StringSliceAdditionalSpecFns;
use vstd::utf8::{decode_utf8, encode_utf8, is_char_boundary};
use crate::decimal::{decimal, digits_value};
use crate::format::{
    format_number, format_size_full, full_size, group_thousands, lemma_grouped_number_reads_back,
    not_space,
};
use crate::scan::ScanStats;

verus! {

/// The grouped decimal form of a counter.
pub open spec fn grouped(n: u64) -> Seq<char> {
    group_thousands(decimal(n as nat))
}

/// The window's heading for a folder named `name`.
pub open spec fn title_line(name: Seq<char>) -> Seq<char> {
    "Folder: "@ + name
}

/// The line with the numbers of files and folders.
pub open spec fn details_line(stats: ScanStats) -> Seq<char> {
    "Files: "@ + grouped(stats.file_count) + "    •    Folders: "@ + grouped(stats.dir_count)
}

/// The note on the items that could not be read.
pub open spec fn skipped_line(stats: ScanStats) -> Seq<char> {
    "(skipped "@ + grouped(stats.skipped_count) + " inaccessible items)"@
}

/// The text put on the clipboard for `folder`: its size, numbers of files
/// and folders and, where some were skipped, how many; or, while the scan
/// is still running, a note that it is.
pub open spec fn clipboard_lines(folder: Seq<char>, stats: Option<ScanStats>) -> Seq<char> {
    match stats {
        Some(s) => {
            let text = "Folder: "@ + folder + "\r\nSize: "@ + full_size(s.total_bytes as nat)
                + "\r\nContent: "@ + grouped(s.file_count) + " files, "@ + grouped(s.dir_count)
                + " folders"@;
            if s.skipped_count > 0 {
                text + "\r\n"@ + skipped_line(s)
            } else {
                text
            }
        },
        None => "Folder: "@ + folder + "\r\nCalculating folder size in progress..."@,
    }
}

/// The longest path, in bytes of UTF-8, that is shown whole.
pub open spec fn path_shown_whole() -> nat {
    55
}

/// The number of trailing bytes kept of a longer path.
pub open spec fn path_tail_kept() -> nat {
    52
}

/// The path as shown under the heading: whole when at most 55 bytes long,
/// else "..." and its last 52 bytes.
pub open spec fn shown_path(bytes: Seq<u8>, chars: Seq<char>) -> Seq<char> {
    if bytes.len() <= path_shown_whole() {
        chars
    } else {
        "..."@ + decode_utf8(bytes.subrange(bytes.len() - path_tail_kept(), bytes.len() as int))
    }
}

/// A grouped counter, read without its separators, is the counter.
pub proof fn lemma_grouped_reads_back(n: u64)
    ensures
        digits_value(grouped(n).filter(|c: char| not_space(c))) == n,
{
    lemma_grouped_number_reads_back(n as nat);
}

/// The details line shows the file count after "Files: " and the folder
/// count after "Folders: ", and nothing else of the results: two results
/// with the same numbers of files and folders give the same line.
pub proof fn lemma_details_show_files_and_folders(s: ScanStats, t: ScanStats)
    ensures
        details_line(s) == "Files: "@ + grouped(s.file_count) + "    •    Folders: "@ + grouped(
            s.dir_count,
        ),
        digits_value(grouped(s.file_count).filter(|c: char| not_space(c))) == s.file_count,
        digits_value(grouped(s.dir_count).filter(|c: char| not_space(c))) == s.dir_count,
        s.file_count == t.file_count && s.dir_count == t.dir_count ==> details_line(s)
            == details_line(t),
{
    lemma_grouped_reads_back(s.file_count);
    lemma_grouped_reads_back(s.dir_count);
}

/// The skipped note shows the number of skipped items.
pub proof fn lemma_skipped_note_shows_count(s: ScanStats)
    ensures
        skipped_line(s) == "(skipped "@ + grouped(s.skipped_count) + " inaccessible items)"@,
        digits_value(grouped(s.skipped_count).filter(|c: char| not_space(c))) == s.skipped_count,
{
    lemma_grouped_reads_back(s.skipped_count);
}

/// The results with no item skipped.
pub open spec fn without_skips(s: ScanStats) -> ScanStats {
    ScanStats {
        total_bytes: s.total_bytes,
        file_count: s.file_count,
        dir_count: s.dir_count,
        skipped_count: 0,
    }
}

/// For a finished scan, the clipboard text gets the line
/// "\r\n(skipped <n> inaccessible items)" exactly when at least one item was
/// skipped, and is otherwise the same text as with no skips; with no skips
/// it does not mention them.
pub proof fn lemma_clipboard_notes_skips(folder: Seq<char>, s: ScanStats)
    ensures
        s.skipped_count > 0 ==> clipboard_lines(folder, Some(s)) == clipboard_lines(
            folder,
            Some(without_skips(s)),
        ) + "\r\n"@ + skipped_line(s),
        s.skipped_count == 0 ==> clipboard_lines(folder, Some(s)) == clipboard_lines(
            folder,
            Some(without_skips(s)),
        ),
        clipboard_lines(folder, Some(without_skips(s))) == "Folder: "@ + folder + "\r\nSize: "@
            + full_size(s.total_bytes as nat) + "\r\nContent: "@ + grouped(s.file_count)
            + " files, "@ + grouped(s.dir_count) + " folders"@,
        clipboard_lines(folder, None) == "Folder: "@ + folder
            + "\r\nCalculating folder size in progress..."@,
{
}

/// `v / 2` rounded toward zero, as integer division does.
pub open spec fn half_toward_zero(v: int) -> int {
    if v >= 0 {
        v / 2
    } else {
        -((-v) / 2)
    }
}

/// Halving toward zero: twice the half is `v` or one step nearer zero.
pub proof fn lemma_half_toward_zero(v: int)
    ensures
        v >= 0 ==> 0 <= v - 2 * half_toward_zero(v) <= 1 && half_toward_zero(v) >= 0,
        v < 0 ==> -1 <= v - 2 * half_toward_zero(v) <= 0 && half_toward_zero(v) <= 0,
        half_toward_zero(-v) == -half_toward_zero(v),
{
}

/// The result window's width in pixels.
pub const WINDOW_WIDTH: i32 = 440;

/// The result window's height in pixels.
pub const WINDOW_HEIGHT: i32 = 220;

/// The top-left corner that centres the result window on a screen of the
/// given size (negative where the screen is smaller than the window).
pub fn window_origin(screen_width: i32, screen_height: i32) -> (origin: (i32, i32))
    requires
        screen_width >= i32::MIN + WINDOW_WIDTH,
        screen_height >= i32::MIN + WINDOW_HEIGHT,
    ensures
        origin.0 == half_toward_zero(screen_width - WINDOW_WIDTH),
        origin.1 == half_toward_zero(screen_height - WINDOW_HEIGHT),
        -1 <= screen_width - (2 * origin.0 + WINDOW_WIDTH) <= 1,
        -1 <= screen_height - (2 * origin.1 + WINDOW_HEIGHT) <= 1,
{
    proof {
        lemma_half_toward_zero(screen_width - WINDOW_WIDTH);
        lemma_half_toward_zero(screen_height - WINDOW_HEIGHT);
    }
    ((screen_width - WINDOW_WIDTH) / 2, (screen_height - WINDOW_HEIGHT) / 2)
}

/// A path of at most 55 bytes is shown whole; a longer one as "..." and a
/// text whose UTF-8 bytes are exactly the path's last 52 bytes.
pub proof fn lemma_shown_path_keeps_last_bytes(chars: Seq<char>)
    requires
        encode_utf8(chars).len() > path_shown_whole() ==> is_char_boundary(
            encode_utf8(chars),
            encode_utf8(chars).len() - path_tail_kept(),
        ),
    ensures
        encode_utf8(chars).len() <= 55 ==> shown_path(encode_utf8(chars), chars) == chars,
        encode_utf8(chars).len() > 55 ==> {
            let shown = shown_path(encode_utf8(chars), chars);
            let bytes = encode_utf8(chars);
            &&& shown.subrange(0, 3) == seq!['.', '.', '.']
            &&& encode_utf8(shown.subrange(3, shown.len() as int)) == bytes.subrange(
                bytes.len() - 52,
                bytes.len() as int,
            )
        },
{
    let bytes = encode_utf8(chars);
    if bytes.len() > 55 {
        broadcast use vstd::utf8::encode_utf8_valid_utf8;

        reveal_strlit("...");
        let cut = bytes.len() - 52;
        vstd::utf8::valid_utf8_split(bytes, cut);
        let tail = bytes.subrange(cut, bytes.len() as int);
        vstd::utf8::decode_utf8_encode_utf8(tail);
        let shown = shown_path(bytes, chars);
        assert(shown.subrange(3, shown.len() as int) =~= decode_utf8(tail));
        assert(shown.subrange(0, 3) =~= seq!['.', '.', '.']);
    }
}

/// The heading is "Folder: " followed by the folder's name, unchanged.
pub proof fn lemma_title_names_folder(name: Seq<char>)
    ensures
        title_line(name).len() == 8 + name.len(),
        title_line(name).subrange(0, 8) == seq!['F', 'o', 'l', 'd', 'e', 'r', ':', ' '],
        title_line(name).subrange(8, title_line(name).len() as int) == name,
{
    reveal_strlit("Folder: ");
    assert(title_line(name).subrange(0, 8) =~= seq!['F', 'o', 'l', 'd', 'e', 'r', ':', ' ']);
    assert(title_line(name).subrange(8, title_line(name).len() as int) =~= name);
}

/// The heading "Folder: <name>".
pub fn folder_title(name: &str) -> (t: String)
    ensures
        t@ == title_line(name@),
{
    let mut t = String::new();
    t.append("Folder: ");
    t.append(name);
    t
}

/// "Files: <n>    •    Folders: <m>", the numbers grouped by thousands.
pub fn details_text(stats: &ScanStats) -> (t: String)
    ensures
        t@ == details_line(*stats),
{
    let mut t = String::new();
    t.append("Files: ");
    t.append(format_number(stats.file_count).as_str());
    t.append("    •    Folders: ");
    t.append(format_number(stats.dir_count).as_str());
    t
}

/// The note "(skipped <n> inaccessible items)", where some items were
/// skipped; none otherwise.
pub fn skipped_text(stats: &ScanStats) -> (t: Option<String>)
    ensures
        t is Some <==> stats.skipped_count > 0,
        t matches Some(s) ==> s@ == skipped_line(*stats),
{
    if stats.skipped_count > 0 {
        let mut t = String::new();
        t.append("(skipped ");
        t.append(format_number(stats.skipped_count).as_str());
        t.append(" inaccessible items)");
        Some(t)
    } else {
        None
    }
}

/// The clipboard text for `folder` and the results, if the scan is done.
pub fn clipboard_text(folder: &str, stats: Option<&ScanStats>) -> (t: String)
    ensures
        t@ == clipboard_lines(
            folder@,
            match stats {
                Some(s) => Some(*s),
                None => None,
            },
        ),
{
    let mut t = String::new();
    t.append("Folder: ");
    t.append(folder);
    match stats {
        Some(s) => {
            t.append("\r\nSize: ");
            t.append(format_size_full(s.total_bytes).as_str());
            t.append("\r\nContent: ");
            t.append(format_number(s.file_count).as_str());
            t.append(" files, ");
            t.append(format_number(s.dir_count).as_str());
            t.append(" folders");
            match skipped_text(s) {
                Some(note) => {
                    t.append("\r\n");
                    t.append(note.as_str());
                },
                None => {},
            }
        },
        None => {
            t.append("\r\nCalculating folder size in progress...");
        },
    }
    t
}

/// The path as shown under the heading: whole up to 55 bytes, else "..."
/// and the last 52 bytes, which must start a character.
pub fn display_path(full: &str) -> (t: String)
    requires
        full.spec_bytes().len() > path_shown_whole() ==> is_char_boundary(
            full.spec_bytes(),
            full.spec_bytes().len() - path_tail_kept(),
        ),
    ensures
        t@ == shown_path(full.spec_bytes(), full@),
{
    let len = full.as_bytes().len();
    let mut t = String::new();
    if len > 55 {
        assert(is_char_boundary(full.spec_bytes(), (len - 52) as int));
        let (_, tail) = full.split_at(len - 52);
        proof {
            broadcast use vstd::utf8::encode_utf8_decode_utf8;
            assert(decode_utf8(tail.spec_bytes()) == tail@);
        }
        t.append("...");
        t.append(tail);
    } else {
        t.append(full);
    }
    t
}

} // verus!
