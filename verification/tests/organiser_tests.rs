use maid::organiser::{
    archived_name_on, cleanup_dirs, conversion_command, conversion_targets, entry_file_name, extension_text,
    is_notes_ext, needs_notes_check, plan, preview_line, scan, shown_name, swap_ext, undo_steps, with_frontmatter,
    Action, DirItem, Outcome, Stamped, Tally, UndoStep,
};
use maid::{Config, ConfigFile, ConvertConfig, FileEntry, LogEntry, MaidError};

fn s(x: &str) -> String {
    x.to_string()
}

fn item(name: &str, is_file: bool) -> DirItem {
    DirItem { name: Some(s(name)), is_file }
}

fn converting_config() -> Config {
    Config::from_file_with(
        ConfigFile {
            directories: vec![],
            categories: vec![],
            destinations: vec![(s("notes"), s("/notes"))],
            convert: Some(ConvertConfig { pandoc: vec![s("docx")], marker: vec![s("pdf")], mutool: vec![], fallback: None }),
            actions: vec![],
            stale: vec![],
        },
        None,
    )
}

#[test]
fn scan_refuses_non_directory() {
    let c = Config::defaults_with(None);
    match scan("/nope", false, &vec![], &c) {
        Err(MaidError::InvalidDirectory(d)) => assert_eq!(d, "/nope"),
        _ => panic!("expected an invalid directory"),
    }
}

#[test]
fn scan_keeps_visible_files() {
    let c = Config::defaults_with(None);
    let items = vec![
        item("photo.JPG", true),
        item(".hidden.png", true),
        item("sub", false),
        DirItem { name: None, is_file: true },
        item("notes.md", true),
        item("README", true),
    ];
    let entries = scan("/d", true, &items, &c).unwrap();
    let got: Vec<(&str, &str)> = entries.iter().map(|e| (e.path.as_str(), e.folder.as_str())).collect();
    assert_eq!(got, vec![("/d/photo.JPG", "images"), ("/d/notes.md", "unknown"), ("/d/README", "unknown")]);
}

#[test]
fn notes_extensions() {
    assert!(is_notes_ext("md"));
    assert!(is_notes_ext("MD"));
    assert!(is_notes_ext("mdx"));
    assert!(!is_notes_ext("txt"));
    assert!(!is_notes_ext(""));
}

#[test]
fn swap_ext_cases() {
    assert_eq!(swap_ext("report.pdf", "md"), "report.md");
    assert_eq!(swap_ext("a.tar.gz", "md"), "a.tar.md");
    assert_eq!(swap_ext("README", "md"), "README.md");
    assert_eq!(swap_ext(".bashrc", "md"), ".md");
    assert_eq!(swap_ext(&swap_ext("x.pdf", "md"), "md"), "x.md");
}

#[test]
fn file_names_of_entries() {
    assert_eq!(entry_file_name("/d/a.pdf"), Ok(s("a.pdf")));
    assert_eq!(entry_file_name("/"), Err(MaidError::Io(s("Invalid filename"))));
    assert_eq!(shown_name("/d/a.pdf"), "a.pdf");
    assert_eq!(shown_name("/"), "unknown");
    assert_eq!(extension_text("/d/a.PDF"), "PDF");
    assert_eq!(extension_text("/d/a"), "");
}

#[test]
fn plan_converts_marker_files() {
    let c = converting_config();
    let e = FileEntry { path: s("/d/paper.pdf"), folder: s("documents") };
    match plan(&e, "paper.pdf", "/d", &c, true, true) {
        Action::Convert { tool, md_name, md_path } => {
            assert_eq!(tool, "marker");
            assert_eq!(md_name, "paper.md");
            assert_eq!(md_path, "/d/paper.md");
        }
        _ => panic!("expected a conversion"),
    }
    match plan(&e, "paper.pdf", "/d", &c, false, true) {
        Action::Convert { tool, .. } => assert_eq!(tool, "pandoc"),
        _ => panic!("expected a conversion"),
    }
}

#[test]
fn plan_moves_and_quarantines() {
    let c = Config::defaults_with(None);
    let img = FileEntry { path: s("/d/a.png"), folder: s("images") };
    match plan(&img, "a.png", "/d", &c, false, false) {
        Action::Move { dest_dir, frontmatter } => {
            assert_eq!(dest_dir, "/d/images");
            assert!(!frontmatter);
        }
        _ => panic!("expected a move"),
    }
    let note = FileEntry { path: s("/d/n.md"), folder: s("unknown") };
    assert!(needs_notes_check(&note, &c, false));
    assert!(!needs_notes_check(&img, &c, false));
    match plan(&note, "n.md", "/d", &c, false, true) {
        Action::Move { dest_dir, frontmatter } => {
            assert_eq!(dest_dir, "/d/unknown");
            assert!(frontmatter);
        }
        _ => panic!("expected a move"),
    }
    assert!(matches!(plan(&note, "n.md", "/d", &c, false, false), Action::Quarantine { frontmatter: true }));
}

#[test]
fn quarantined_notes_get_a_header() {
    let c = Config::defaults_with(None);
    let note = FileEntry { path: s("/d/secret.md"), folder: s("unknown") };
    match plan(&note, "secret.md", "/d", &c, false, false) {
        Action::Quarantine { frontmatter } => assert!(frontmatter),
        _ => panic!("expected quarantine"),
    }
}

#[test]
fn preview_lines_for_each_action() {
    let moved = Action::Move { dest_dir: s("/d/images"), frontmatter: false };
    assert_eq!(preview_line("a.png", &moved, ""), " a.png -> /d/images");
    let held = Action::Quarantine { frontmatter: true };
    assert_eq!(preview_line("n.md", &held, "/q"), " n.md -> QUARANTINE (/q)");
    let converted = Action::Convert { tool: s("pandoc"), md_name: s("a.md"), md_path: s("/d/a.md") };
    assert_eq!(
        preview_line("a.docx", &converted, ""),
        " a.docx -> CONVERT (pandoc) -> a.md + archive original"
    );
}

#[test]
fn conversion_targets_by_check() {
    let c = converting_config();
    let t = conversion_targets(&c, "/d", "a.md", "20240101-a.pdf", true, "/q", "/arch");
    assert_eq!(t.md_dest_dir, "/notes");
    assert_eq!(t.md_destination, "/notes/a.md");
    assert_eq!(t.archive_dest, "/arch/20240101-a.pdf");
    let u = conversion_targets(&Config::defaults_with(None), "/d", "a.md", "x", false, "/q", "/arch");
    assert_eq!(u.md_dest_dir, "/q");
    assert_eq!(u.md_destination, "/q/a.md");
    let v = conversion_targets(&Config::defaults_with(None), "/d", "a.md", "x", true, "/q", "/arch");
    assert_eq!(v.md_dest_dir, "/d/notes");
}

#[test]
fn archived_names() {
    assert_eq!(archived_name_on("20240131", "a.pdf"), "20240131-a.pdf");
}

#[test]
fn tally_records_and_counts() {
    let mut t = Tally::new();
    t.record_move("/d/a.png", "/d/images/a.png", false);
    t.record_move("/d/n.md", "/q/n.md", true);
    t.record_conversion("/d/p.pdf", "/arch/x-p.pdf", "/notes/p.md", false);
    assert_eq!(t.moved(), 1);
    assert_eq!(t.quarantined(), 2);
    assert_eq!(t.converted(), 1);
    let log = t.log();
    assert_eq!(log.len(), 4);
    assert_eq!(log[3], LogEntry { from: s("(converted)"), to: s("/notes/p.md") });
}

#[test]
fn undo_reverses_the_record() {
    let mut t = Tally::new();
    t.record_move("/d/a.png", "/d/images/a.png", false);
    t.record_conversion("/d/p.pdf", "/arch/x-p.pdf", "/notes/p.md", true);
    let steps = undo_steps(t.log());
    assert_eq!(steps.len(), 3);
    match &steps[0] {
        UndoStep::Restore { current, previous } => {
            assert_eq!(current, "/d/images/a.png");
            assert_eq!(previous, "/d/a.png");
        }
        _ => panic!("expected a restore"),
    }
    match &steps[1] {
        UndoStep::Restore { current, previous } => {
            assert_eq!(current, "/arch/x-p.pdf");
            assert_eq!(previous, "/d/p.pdf");
        }
        _ => panic!("expected a restore"),
    }
    match &steps[2] {
        UndoStep::RemoveConverted { path } => assert_eq!(path, "/notes/p.md"),
        _ => panic!("expected a removal"),
    }
}

#[test]
fn cleanup_skips_source_and_repeats() {
    let log = vec![
        LogEntry { from: s("/d/a.png"), to: s("/d/images/a.png") },
        LogEntry { from: s("/d/b.png"), to: s("/d/images//b.png") },
        LogEntry { from: s("/d/c"), to: s("/d/c2") },
        LogEntry { from: s("(converted)"), to: s("/notes/p.md") },
        LogEntry { from: s("/x"), to: s("/") },
    ];
    assert_eq!(cleanup_dirs(&log, "/d/"), vec![s("/d/images"), s("/notes")]);
}

#[test]
fn frontmatter_added_once() {
    assert_eq!(with_frontmatter("---\nx", "/n/a.md", "T", "/d/Downloads", None), None);
    let got = with_frontmatter("body", "/n/a.md", "2024-01-01T00:00:00Z", "/d/Downloads", None).unwrap();
    assert_eq!(
        got,
        "---\nsource: /n/a.md\nmoved_by: maid\nmoved_at: 2024-01-01T00:00:00Z\noriginal_dir: Downloads\n---\n\nbody"
    );
    let conv = with_frontmatter("", "/n/a.md", "T", "/", Some("/d/a.pdf")).unwrap();
    assert_eq!(conv, "---\nsource: /n/a.md\nmoved_by: maid\nmoved_at: T\noriginal_dir: unknown\nconverted_from: /d/a.pdf\n---\n\n");
}

#[test]
fn conversion_commands() {
    let m = conversion_command("marker", "/d/a.pdf", "/d/a.md");
    assert_eq!(m.program, "marker");
    assert_eq!(m.args, vec![s("/d/a.pdf"), s("-o"), s("/d/a.md")]);
    let p = conversion_command("mutool", "in", "out");
    assert_eq!(p.program, "pandoc");
    assert_eq!(p.args, vec![s("in"), s("-t"), s("markdown"), s("-o"), s("out")]);
}

#[test]
fn header_is_added_only_once() {
    let first = with_frontmatter("body", "/n/a.md", "T", "/d/x", None).unwrap();
    assert_eq!(with_frontmatter(&first, "/n/a.md", "T", "/d/x", None), None);
    let now = match maid::organiser::with_frontmatter_now("body", "/n/a.md", "/d/x", Some("/d/a.pdf")) {
        Stamped::Marked(t) => t,
        _ => panic!("expected a header"),
    };
    assert!(now.starts_with("---\nsource: /n/a.md\nmoved_by: maid\nmoved_at: "));
    assert!(now.ends_with("\noriginal_dir: x\nconverted_from: /d/a.pdf\n---\n\nbody"));
    assert!(matches!(
        maid::organiser::with_frontmatter_now(&now, "/n/a.md", "/d/x", None),
        Stamped::AlreadyMarked
    ));
}

#[test]
fn archived_name_is_dated() {
    let name = maid::organiser::archived_name("a.pdf").unwrap();
    assert!(name.ends_with("-a.pdf"));
    assert_eq!(name.len(), 8 + 1 + 5);
    assert!(name[..8].chars().all(|c| c.is_ascii_digit()));
}

#[test]
fn scanned_paths_keep_listed_names() {
    let c = Config::defaults_with(None);
    let entries = scan("/d/", true, &vec![item("b.tar.gz", true)], &c).unwrap();
    assert_eq!(entries[0].path, "/d/b.tar.gz");
    assert_eq!(entry_file_name(&entries[0].path), Ok(s("b.tar.gz")));
    assert_eq!(entries[0].folder, "archives");
}

#[test]
fn undo_log_location() {
    assert_eq!(maid::organiser::undo_log_path("/d"), "/d/.maid_log.json");
    assert_eq!(
        maid::organiser::no_undo_log(),
        MaidError::UndoFailed(s("No undo log found. Has maid been run here?"))
    );
}

#[test]
fn failed_conversion_leaves_no_record() {
    let outcomes = vec![
        Outcome::Moved { from: s("/d/a.png"), to: s("/d/images/a.png"), quarantined: false },
        Outcome::ConversionFailed,
        Outcome::Converted {
            source: s("/d/p.pdf"),
            archive_dest: s("/arch/x-p.pdf"),
            md_destination: s("/q/p.md"),
            clean: false,
        },
        Outcome::ConversionFailed,
        Outcome::Moved { from: s("/d/n.md"), to: s("/q/n.md"), quarantined: true },
    ];
    let t = Tally::from_outcomes(&outcomes);
    assert_eq!(t.moved(), 1);
    assert_eq!(t.converted(), 1);
    assert_eq!(t.quarantined(), 2);
    let lines: Vec<(&str, &str)> = t.log().iter().map(|e| (e.from.as_str(), e.to.as_str())).collect();
    assert_eq!(
        lines,
        vec![
            ("/d/a.png", "/d/images/a.png"),
            ("/d/p.pdf", "/arch/x-p.pdf"),
            ("(converted)", "/q/p.md"),
            ("/d/n.md", "/q/n.md"),
        ]
    );
    let mut only_failed = Tally::new();
    only_failed.record(&Outcome::ConversionFailed);
    assert!(only_failed.log().is_empty());
    assert_eq!(only_failed.moved() + only_failed.converted() + only_failed.quarantined(), 0);
}

#[test]
fn move_destinations() {
    assert_eq!(maid::organiser::move_destination("/d/images", "a.png"), "/d/images/a.png");
    assert_eq!(maid::organiser::move_destination("/d/images/", "a.png"), "/d/images/a.png");
}

#[test]
fn error_messages() {
    assert_eq!(MaidError::Io(s("Invalid filename")).message(), "IO error: Invalid filename");
    assert_eq!(MaidError::InvalidDirectory(s("/x")).message(), "Invalid directory: /x");
    assert_eq!(MaidError::UndoFailed(s("gone")).message(), "Undo failed: gone");
    assert_eq!(MaidError::ConfigError(s("bad")).message(), "Config error: bad");
}

#[test]
fn clock_renders_a_timestamp() {
    let t = maid::platform::utc_now_text("%Y-%m-%dT%H:%M:%SZ").unwrap();
    assert_eq!(t.len(), 20);
    assert_eq!(&t[4..5], "-");
    assert_eq!(&t[10..11], "T");
    assert!(t.ends_with('Z'));
}
