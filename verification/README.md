# better_folder_size

A folder-size tool for Windows Explorer: scan a folder in parallel,
then show its size, file and folder counts, and copy them to the clipboard.

- `src/` is the verified library (Verus):
  - `decimal.rs`: decimal digits of integers;
  - `format.rs`: `format_number` (digit grouping), `format_human_size`
    (B/KB/MB/GB/TB with two decimals, computed in integers exactly as the
    `f64` quotient is printed with `{:.2}`), `format_size_full`;
  - `scan.rs`: `ScanStats` and what each directory entry met during a scan
    adds to it, with the laws that make per-subtree counts combinable;
  - `report.rs`: the texts of the result window and the clipboard, and the
    window's placement;
  - `launch.rs`: the folder named on the command line.
- `app/` is the program around it: the file-system walk (Rayon threads,
  cancellation flag) and the native-windows-gui window.
- `tests/` runs the library, among others against Rust's own `f64`
  formatting.
