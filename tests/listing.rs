use ansi_term::Colour::White;
use ansi_term::Style;
use treelines::lines::count_lines;
use treelines::listing::{label, layout_rows, listing, order_entries, row, Entry, Row};
use treelines::order::{bytes_leq, stable_order, SortKey};
use treelines::style::{Hue, Look, Palette};

fn bare() -> Look {
    Look { open: String::new(), close: String::new() }
}

fn plain_palette() -> Palette {
    Palette { dir: bare(), name: bare(), count: bare() }
}

fn texts(rows: &[Row]) -> Vec<String> {
    rows.iter().map(|r| r.text.clone()).collect()
}

fn names(entries: &[Entry], rows: &[Row]) -> Vec<String> {
    rows.iter().map(|r| entries[r.entry].name.clone()).collect()
}

#[test]
fn count_lines_empty_input_has_no_lines() {
    assert_eq!(count_lines(b""), 0);
}

#[test]
fn count_lines_terminated_lines() {
    assert_eq!(count_lines(b"one\ntwo\nthree\n"), 3);
}

#[test]
fn count_lines_trailing_partial_line_counts() {
    assert_eq!(count_lines(b"one\ntwo\nthree"), 3);
    assert_eq!(count_lines(b"one\ntwo\n"), 2);
    assert_eq!(count_lines(b"single"), 1);
}

#[test]
fn count_lines_blank_lines_count() {
    assert_eq!(count_lines(b"\n\n\n"), 3);
    assert_eq!(count_lines(b"a\n\nb"), 3);
}

#[test]
fn bytes_order_is_lexicographic() {
    assert!(bytes_leq(&b"abc".to_vec(), &b"abd".to_vec()));
    assert!(!bytes_leq(&b"abd".to_vec(), &b"abc".to_vec()));
    assert!(bytes_leq(&b"ab".to_vec(), &b"abc".to_vec()));
    assert!(!bytes_leq(&b"abc".to_vec(), &b"ab".to_vec()));
    assert!(bytes_leq(&b"same".to_vec(), &b"same".to_vec()));
    assert!(bytes_leq(&Vec::new(), &Vec::new()));
}

#[test]
fn stable_order_keeps_ties_in_place() {
    let keys = vec![
        SortKey { count: 3, text: Vec::new() },
        SortKey { count: 1, text: Vec::new() },
        SortKey { count: 3, text: Vec::new() },
        SortKey { count: 0, text: Vec::new() },
        SortKey { count: 1, text: Vec::new() },
    ];
    assert_eq!(stable_order(&keys), vec![3, 1, 4, 0, 2]);
}

#[test]
fn stable_order_of_nothing_is_empty() {
    assert_eq!(stable_order(&Vec::new()), Vec::<usize>::new());
}

#[test]
fn name_order_ignores_case() {
    let entries = vec![
        Entry::file("banana", 1),
        Entry::file("Apple", 1),
        Entry::dir("cherry"),
        Entry::file("apricot", 1),
    ];
    let order = order_entries(&entries, false);
    assert_eq!(order, vec![1, 3, 0, 2]);
}

#[test]
fn name_order_lowercases_before_comparing() {
    // Byte order alone would put "B" (66) before "a" (97).
    let entries = vec![Entry::file("B", 1), Entry::file("a", 1)];
    assert_eq!(order_entries(&entries, false), vec![1, 0]);
}

#[test]
fn line_order_is_ascending_with_directories_first() {
    let entries = vec![
        Entry::file("x", 10),
        Entry::file("y", 2),
        Entry::dir("d"),
        Entry::file("z", 7),
    ];
    assert_eq!(order_entries(&entries, true), vec![2, 1, 3, 0]);
}

#[test]
fn line_order_ties_keep_listing_order() {
    let entries = vec![Entry::file("q", 4), Entry::file("p", 4), Entry::file("r", 1)];
    assert_eq!(order_entries(&entries, true), vec![2, 0, 1]);
}

#[test]
fn file_label_plain() {
    let e = Entry::file("notes.txt", 1234);
    assert_eq!(label(&e, &plain_palette()), "notes.txt, 1234 lines");
}

#[test]
fn file_label_zero_lines() {
    let e = Entry::file("empty", 0);
    assert_eq!(label(&e, &plain_palette()), "empty, 0 lines");
}

#[test]
fn dir_label_plain() {
    let e = Entry::dir("src");
    assert_eq!(label(&e, &plain_palette()), "src/");
}

#[test]
fn standard_palette_codes() {
    let p = Palette::standard(White.underline());
    assert_eq!(p.dir.open, "\x1b[36m");
    assert_eq!(p.dir.close, "\x1b[0m");
    assert_eq!(p.name.open, "\x1b[37m");
    assert_eq!(p.name.close, "\x1b[0m");
    assert_eq!(p.count.open, "\x1b[4;37m");
    assert_eq!(p.count.close, "\x1b[0m");
}

#[test]
fn standard_palette_with_plain_count_style() {
    let p = Palette::standard(Style::default());
    assert_eq!(p.count.open, "");
    assert_eq!(p.count.close, "");
}

#[test]
fn hue_looks() {
    let c = Look::of_hue(Hue::Cyan);
    assert_eq!(c.paint("x"), "\x1b[36mx\x1b[0m");
    let w = Look::of_hue(Hue::White);
    assert_eq!(w.paint(""), "\x1b[37m\x1b[0m");
}

#[test]
fn styled_labels() {
    let p = Palette::standard(White.underline());
    assert_eq!(label(&Entry::dir("sub"), &p), "\x1b[36msub/\x1b[0m");
    assert_eq!(
        label(&Entry::file("a.txt", 5), &p),
        "\x1b[37ma.txt\x1b[0m\x1b[4;37m, 5 lines\x1b[0m"
    );
}

#[test]
fn last_sibling_gets_corner_others_tee() {
    let entries = vec![Entry::file("a", 1), Entry::file("b", 2), Entry::file("c", 3)];
    let rows = listing(&entries, "", false, &plain_palette());
    assert!(rows[0].text.starts_with("├── "));
    assert!(rows[1].text.starts_with("├── "));
    assert!(rows[2].text.starts_with("└── "));
}

#[test]
fn single_entry_is_last() {
    let entries = vec![Entry::dir("only")];
    let rows = listing(&entries, "│   ", false, &plain_palette());
    assert_eq!(texts(&rows), vec!["│   └── only/".to_string()]);
    assert_eq!(rows[0].child_prefix, Some("│       ".to_string()));
}

#[test]
fn child_prefixes_extend_parent_prefix() {
    let entries = vec![Entry::dir("alpha"), Entry::file("beta", 1), Entry::dir("gamma")];
    let rows = listing(&entries, "    ", false, &plain_palette());
    assert_eq!(rows[0].child_prefix, Some("    │   ".to_string()));
    assert_eq!(rows[1].child_prefix, None);
    assert_eq!(rows[2].child_prefix, Some("        ".to_string()));
}

#[test]
fn grandchildren_indentation() {
    let p = plain_palette();
    let top = vec![Entry::dir("a"), Entry::dir("b")];
    let rows = listing(&top, "", false, &p);
    let under_a = listing(&vec![Entry::file("x", 1)], rows[0].child_prefix.as_ref().unwrap(), false, &p);
    let under_b = listing(&vec![Entry::file("y", 1)], rows[1].child_prefix.as_ref().unwrap(), false, &p);
    assert_eq!(texts(&under_a), vec!["│   └── x, 1 lines".to_string()]);
    assert_eq!(texts(&under_b), vec!["    └── y, 1 lines".to_string()]);
}

#[test]
fn empty_directory_has_no_rows() {
    let rows = listing(&Vec::new(), "", true, &plain_palette());
    assert!(rows.is_empty());
}

#[test]
fn scenario_default_mode() {
    let entries = vec![Entry::file("b.txt", 2), Entry::file("a.txt", 5), Entry::dir("sub")];
    let rows = listing(&entries, "", false, &plain_palette());
    assert_eq!(
        texts(&rows),
        vec![
            "├── a.txt, 5 lines".to_string(),
            "├── b.txt, 2 lines".to_string(),
            "└── sub/".to_string(),
        ]
    );
    assert_eq!(rows[2].child_prefix, Some("    ".to_string()));
}

#[test]
fn scenario_line_mode() {
    let entries = vec![Entry::file("b.txt", 2), Entry::file("a.txt", 5), Entry::dir("sub")];
    let rows = listing(&entries, "", true, &plain_palette());
    let order = names(&entries, &rows);
    let b = order.iter().position(|n| n == "b.txt").unwrap();
    let a = order.iter().position(|n| n == "a.txt").unwrap();
    assert!(b < a);
    assert_eq!(order, vec!["sub".to_string(), "b.txt".to_string(), "a.txt".to_string()]);
}

#[test]
fn layout_rows_follows_given_order() {
    let entries = vec![Entry::file("a", 1), Entry::file("b", 2)];
    let rows = layout_rows(&entries, &vec![1, 0], "", &plain_palette());
    assert_eq!(texts(&rows), vec!["├── b, 2 lines".to_string(), "└── a, 1 lines".to_string()]);
    assert_eq!(rows[0].entry, 1);
}

#[test]
fn single_row() {
    let r = row(&Entry::file("f", 3), 7, "│   ", false, &plain_palette());
    assert_eq!(r.text, "│   ├── f, 3 lines");
    assert_eq!(r.entry, 7);
    assert_eq!(r.child_prefix, None);
}

#[test]
fn style_look_follows_the_style() {
    let bold = Look::of_style(Style::new().bold());
    assert_eq!(bold.paint("n"), "\x1b[1mn\x1b[0m");
    let plain = Look::of_style(Style::new());
    assert_eq!(plain.paint("n"), "n");
}
