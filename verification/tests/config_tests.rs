use maid::config::{config_candidates_with, expand_path_with, resolve_dirs};
use maid::{Config, ConfigFile, ConvertConfig};

fn s(x: &str) -> String {
    x.to_string()
}

fn file() -> ConfigFile {
    ConfigFile {
        directories: vec![],
        categories: vec![],
        destinations: vec![],
        convert: None,
        actions: vec![],
        stale: vec![],
    }
}

#[test]
fn defaults_list_home_directories() {
    let c = Config::defaults_with(Some("/home/u"));
    assert_eq!(c.directories, vec![s("/home/u/Documents"), s("/home/u/Downloads"), s("/home/u/Desktop")]);
}

#[test]
fn defaults_without_home_list_nothing() {
    let c = Config::defaults_with(None);
    assert!(c.directories.is_empty());
}

#[test]
fn defaults_classify_known_extensions() {
    let c = Config::defaults_with(None);
    assert_eq!(c.classify("jpg"), "images");
    assert_eq!(c.classify("webp"), "images");
    assert_eq!(c.classify("pdf"), "documents");
    assert_eq!(c.classify("mkv"), "video");
    assert_eq!(c.classify("flac"), "audio");
    assert_eq!(c.classify("json"), "code");
    assert_eq!(c.classify("gz"), "archives");
}

#[test]
fn classify_ignores_case() {
    let c = Config::defaults_with(None);
    assert_eq!(c.classify("JPG"), "images");
    assert_eq!(c.classify("Pdf"), "documents");
}

#[test]
fn classify_unknown_extension() {
    let c = Config::defaults_with(None);
    assert_eq!(c.classify("xyz"), "unknown");
    assert_eq!(c.classify(""), "unknown");
}

#[test]
fn default_categories_are_six() {
    let cats = Config::default_categories();
    let names: Vec<&str> = cats.iter().map(|(n, _)| n.as_str()).collect();
    assert_eq!(names, vec!["images", "documents", "video", "audio", "code", "archives"]);
    assert_eq!(cats[4].1.len(), 7);
}

#[test]
fn destination_defaults_to_subdirectory() {
    let c = Config::defaults_with(None);
    assert_eq!(c.destination("images", "/d"), "/d/images");
    assert_eq!(c.destination("images", "/d/"), "/d/images");
    assert_eq!(c.destination("images", ""), "images");
}

#[test]
fn configured_destination_wins() {
    let mut f = file();
    f.destinations = vec![(s("images"), s("~/Pictures")), (s("notes"), s("/srv/notes"))];
    let c = Config::from_file_with(f, Some("/home/u"));
    assert_eq!(c.destination("images", "/d"), "/home/u/Pictures");
    assert_eq!(c.destination("notes", "/d"), "/srv/notes");
    assert_eq!(c.destination("video", "/d"), "/d/video");
}

#[test]
fn quarantine_and_archive_defaults() {
    let c = Config::defaults_with(None);
    assert_eq!(c.quarantine_dir_with(Some("/home/u/.local/share")), "/home/u/.local/share/maid/quarantine");
    assert_eq!(c.quarantine_dir_with(None), "/tmp/maid/quarantine");
    assert_eq!(c.archive_dir_with(Some("/home/u")), "/home/u/Documents/_RepoArchive/maid");
    assert_eq!(c.archive_dir_with(None), "/tmp/Documents/_RepoArchive/maid");
}

#[test]
fn quarantine_and_archive_configured() {
    let mut f = file();
    f.destinations = vec![(s("quarantine"), s("/q")), (s("archive"), s("~/arch"))];
    let c = Config::from_file_with(f, Some("/home/u"));
    assert_eq!(c.quarantine_dir_with(Some("/data")), "/q");
    assert_eq!(c.archive_dir_with(Some("/home/u")), "/home/u/arch");
}

#[test]
fn actions_and_stale() {
    let mut f = file();
    f.actions = vec![(s("notes"), s("note"))];
    f.stale = vec![(s("downloads"), 30), (s("downloads"), 14)];
    let c = Config::from_file_with(f, None);
    assert_eq!(c.action_for("notes"), "note");
    assert_eq!(c.action_for("images"), "move");
    assert_eq!(c.stale_days("downloads"), Some(14));
    assert_eq!(c.stale_days("images"), None);
}

#[test]
fn converter_precedence() {
    let mut f = file();
    f.convert = Some(ConvertConfig {
        pandoc: vec![s("docx"), s("pdf")],
        marker: vec![s("pdf")],
        mutool: vec![s("epub"), s("docx")],
        fallback: None,
    });
    let c = Config::from_file_with(f, None);
    assert_eq!(c.converter_for("PDF", true), Some("marker"));
    assert_eq!(c.converter_for("pdf", false), Some("pandoc"));
    assert_eq!(c.converter_for("docx", false), Some("mutool"));
    assert_eq!(c.converter_for("epub", true), Some("mutool"));
    assert_eq!(c.converter_for("txt", true), None);
    assert!(c.uses_marker("Pdf"));
    assert!(!c.uses_marker("docx"));
}

#[test]
fn converter_fallback_configured_or_empty() {
    let mut f = file();
    f.convert = Some(ConvertConfig { pandoc: vec![], marker: vec![s("pdf")], mutool: vec![], fallback: Some(s("mutool")) });
    let c = Config::from_file_with(f, None);
    assert_eq!(c.converter_for("pdf", false), Some("mutool"));
    let mut g = file();
    g.convert = Some(ConvertConfig { pandoc: vec![s("pdf")], marker: vec![s("pdf")], mutool: vec![], fallback: Some(s("")) });
    let c = Config::from_file_with(g, None);
    assert_eq!(c.converter_for("pdf", false), None);
}

#[test]
fn no_converters_by_default() {
    let c = Config::defaults_with(None);
    assert_eq!(c.converter_for("pdf", true), None);
    assert!(!c.uses_marker("pdf"));
}

#[test]
fn file_categories_replace_defaults() {
    let mut f = file();
    f.categories = vec![(s("pics"), vec![s("JPG"), s("heic")]), (s("raw"), vec![s("heic")])];
    let c = Config::from_file_with(f, None);
    assert_eq!(c.classify("jpg"), "pics");
    assert_eq!(c.classify("HEIC"), "raw");
    assert_eq!(c.classify("pdf"), "unknown");
}

#[test]
fn file_directories_are_expanded() {
    let mut f = file();
    f.directories = vec![s("~/Inbox"), s("/abs"), s("~user/x")];
    let c = Config::from_file_with(f, Some("/home/u"));
    assert_eq!(c.directories, vec![s("/home/u/Inbox"), s("/abs"), s("~user/x")]);
    let mut g = file();
    g.directories = vec![];
    let c = Config::from_file_with(g, Some("/h"));
    assert_eq!(c.directories, vec![s("/h/Documents"), s("/h/Downloads"), s("/h/Desktop")]);
}

#[test]
fn expand_path_cases() {
    assert_eq!(expand_path_with("~/a/b", Some("/home/u")), "/home/u/a/b");
    assert_eq!(expand_path_with("~/a", None), "~/a");
    assert_eq!(expand_path_with("~", Some("/home/u")), "~");
    assert_eq!(expand_path_with("a/~/b", Some("/home/u")), "a/~/b");
    assert_eq!(expand_path_with("~//etc", Some("/home/u")), "/etc");
}

#[test]
fn default_directories_cases() {
    assert_eq!(Config::default_directories_with(Some("/r/")), vec![s("/r/Documents"), s("/r/Downloads"), s("/r/Desktop")]);
    assert!(Config::default_directories_with(None).is_empty());
}

#[test]
fn resolve_dirs_prefers_named_path() {
    let c = Config::defaults_with(Some("/h"));
    assert_eq!(resolve_dirs(Some(s("/x")), &c), vec![s("/x")]);
    assert_eq!(resolve_dirs(None, &c), c.directories);
}

#[test]
fn config_candidate_paths() {
    let c = config_candidates_with(Some("/home/u"), Some("/home/u/.config"));
    assert_eq!(c.home_config, Some(s("/home/u/.config/maid/config.toml")));
    assert_eq!(c.platform_config, Some(s("/home/u/.config/maid/config.toml")));
    let d = config_candidates_with(None, Some("/etc/xdg"));
    assert_eq!(d.home_config, None);
    assert_eq!(d.platform_config, Some(s("/etc/xdg/maid/config.toml")));
}

#[test]
fn fallback_defaults_to_pandoc() {
    let mut f = file();
    f.convert = Some(ConvertConfig { pandoc: vec![], marker: vec![s("pdf")], mutool: vec![], fallback: None });
    let c = Config::from_file_with(f, None);
    assert_eq!(c.converter_for("pdf", false), Some("pandoc"));
}

#[test]
fn environment_defaults_classify() {
    let c = Config::defaults();
    assert_eq!(c.classify("PNG"), "images");
    assert_eq!(c.action_for("images"), "move");
    let q = c.quarantine_dir();
    assert!(q.ends_with("maid/quarantine"));
    let a = c.archive_dir();
    assert!(a.ends_with("Documents/_RepoArchive/maid"));
    assert_eq!(maid::config::expand_path("/abs/x"), "/abs/x");
}

#[test]
fn defaults_leave_notes_unknown() {
    let c = Config::defaults_with(Some("/h"));
    assert_eq!(c.classify("md"), "unknown");
    assert_eq!(c.classify("MDX"), "unknown");
    assert_eq!(c.directories(), &c.directories);
    assert_eq!(c.classify("Json"), c.classify(&"Json".to_lowercase()));
}
