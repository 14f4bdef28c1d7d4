use elx::config_updater::{choose_option, ConfigUpdater, HyperlinkChoice, UpdateError, CURRENT_SCHEMA_VERSION};

fn updater(config: &str) -> ConfigUpdater {
    let mut u = ConfigUpdater::new("config.toml", config, false).ok().unwrap();
    u.dry_run = true;
    u
}

#[test]
fn rejects_newer_schema_without_modifying_it() {
    let mut updater = updater("schema_version = 99\n");
    let error = updater.apply_migrations(HyperlinkChoice::KeepTypes).unwrap_err();

    assert!(error.message().contains("newer than the supported version"));
    assert_eq!(updater.detect_version(), 99);
    assert!(!updater.changed());
}

#[test]
fn migrates_legacy_schema_to_current_version() {
    let mut updater = updater("icons = false\n");
    updater.apply_migrations(HyperlinkChoice::KeepTypes).unwrap();

    assert_eq!(updater.detect_version(), CURRENT_SCHEMA_VERSION);
    assert!(updater.document()["hyperlinks"].is_table());
    assert!(updater.changed());
}

#[test]
fn unparsable_text_is_refused_with_the_path() {
    let r = ConfigUpdater::new("conf/elx.toml", "icons = = true", false);
    match r {
        Err(e) => {
            assert!(matches!(e, UpdateError::Parse(_, _)));
            assert_eq!(e.message(), "Failed to parse config file: conf/elx.toml");
        }
        Ok(_) => panic!("parsed"),
    }
}

#[test]
fn newer_schema_message_names_both_versions() {
    let mut u = updater("schema_version = 7\n");
    let e = u.apply_migrations(HyperlinkChoice::KeepTypes).unwrap_err();
    assert_eq!(e.message(), "Config schema version 7 is newer than the supported version 3");
    assert!(u.report().is_empty());
}

#[test]
fn boolean_hyperlinks_become_a_table_with_types_kept() {
    let mut u = updater("hyperlinks = false\n");
    u.apply_migrations(HyperlinkChoice::DisableAll).unwrap();
    let h = &u.document()["hyperlinks"];
    assert_eq!(h["enabled"].as_bool(), Some(false));
    assert_eq!(h["files"].as_bool(), Some(true));
    assert_eq!(h["dirs"].as_bool(), Some(false));
    assert_eq!(h["symlinks"].as_bool(), Some(true));
    assert_eq!(h["executables"].as_bool(), Some(true));
    assert_eq!(u.report()[0], "Migrated `hyperlinks` from boolean to `[hyperlinks]` table format");
}

#[test]
fn interactive_choice_decides_switched_off_hyperlinks() {
    let mut u = ConfigUpdater::new("config.toml", "hyperlinks = false\n", true).ok().unwrap();
    assert!(u.needs_hyperlink_choice());
    u.apply_migrations(HyperlinkChoice::DisableAll).unwrap();
    let h = &u.document()["hyperlinks"];
    assert_eq!(h["enabled"].as_bool(), Some(false));
    assert_eq!(h["files"].as_bool(), Some(false));
    assert_eq!(h["symlinks"].as_bool(), Some(false));
    assert_eq!(h["executables"].as_bool(), Some(false));
    assert!(!u.needs_hyperlink_choice());
}

#[test]
fn old_when_not_tty_flags_are_inverted() {
    let mut u = updater("[when_not_tty]\nno_icons = true\nno_color = false\n");
    u.apply_migrations(HyperlinkChoice::KeepTypes).unwrap();
    let w = &u.document()["when_not_tty"];
    assert_eq!(w["icons"].as_bool(), Some(false));
    assert_eq!(w["color"].as_bool(), Some(true));
    assert!(w.get("no_icons").is_none());
    assert_eq!(
        u.report()[0],
        "Migrated `no_icons`/`no_color` to `icons`/`color` in `[when_not_tty]` table"
    );
}

#[test]
fn version_two_tables_are_cleaned() {
    let text = "schema_version = 2\nexclude_env = []\n[hyperlinks]\nenabled = true\nfiles = true\ndirectories = true\nsymlinks = true\nunderline_files = true\n[when_not_tty]\nhyperlinks = false\n";
    let mut u = updater(text);
    u.apply_migrations(HyperlinkChoice::KeepTypes).unwrap();
    let h = &u.document()["hyperlinks"];
    assert_eq!(h["dirs"].as_bool(), Some(true));
    assert!(h.get("directories").is_none());
    assert!(h.get("underline_files").is_none());
    assert_eq!(h["executables"].as_bool(), Some(true));
    assert!(u.document().get("exclude_env").is_none());
    assert!(u.document()["when_not_tty"].get("hyperlinks").is_none());
    assert_eq!(u.detect_version(), 3);
}

#[test]
fn current_complete_config_is_left_alone() {
    let mut u = updater("");
    u.apply_migrations(HyperlinkChoice::KeepTypes).unwrap();
    let text = u.document().to_string();
    let mut again = updater(&text);
    again.apply_migrations(HyperlinkChoice::KeepTypes).unwrap();
    assert!(!again.changed());
    assert!(again.report().is_empty());
    assert_eq!(again.document().to_string(), text);
}

#[test]
fn a_key_that_is_not_a_table_is_an_error() {
    let mut u = updater("schema_version = 3\nlong = 5\n");
    let e = u.apply_migrations(HyperlinkChoice::KeepTypes).unwrap_err();
    assert_eq!(e.message(), "long is not a table");
}

#[test]
fn answers_pick_options_exactly_then_by_prefix() {
    let opts = vec!["y", "n", "customize"];
    assert_eq!(choose_option("", &opts, 0), Some(0));
    assert_eq!(choose_option("  \n", &opts, 2), Some(2));
    assert_eq!(choose_option("N\n", &opts, 0), Some(1));
    assert_eq!(choose_option("cust", &opts, 0), Some(2));
    assert_eq!(choose_option("x", &opts, 0), None);
}

#[test]
fn written_document_keeps_comments_and_marks_the_schema() {
    let mut u = updater("# mine\nicons = false\n");
    u.apply_migrations(HyperlinkChoice::KeepTypes).unwrap();
    let text = u.document().to_string();
    assert!(text.starts_with("# mine\nicons = false\n"), "{text}");
    assert!(text.contains("\n# Config schema version\nschema_version = 3"), "{text}");
    assert!(text.contains("# Use colors in output\ncolor = true"), "{text}");
}

#[test]
fn summary_lists_changes_and_the_outcome() {
    let mut u = updater("schema_version = 3\nicons = true\ncolor = true\ngit_ignore = true\nignore = []\nclassify = false\n[hyperlinks]\nenabled = true\nfiles = true\ndirs = false\nsymlinks = true\nexecutables = true\n[long]\nheaders = true\nautohide_columns = true\ncolumns = []\n[when_not_tty]\nicons = false\ncolor = false\n");
    u.apply_migrations(HyperlinkChoice::KeepTypes).unwrap();
    assert_eq!(
        u.summary(3),
        "\nChanges applied:\n  \u{2022} Added 1 new fields with default values\n\n[dry-run] Config would be updated to schema version 3: config.toml\n"
    );
    let mut done = updater(&u.document().to_string());
    done.apply_migrations(HyperlinkChoice::KeepTypes).unwrap();
    assert_eq!(done.summary(3), "Config is up to date (schema version 3). No changes needed.\n");
}

#[test]
fn refusal_leaves_the_document_text_alone() {
    let mut u = updater("# keep\nschema_version = 99 # newer\n");
    assert!(u.apply_migrations(HyperlinkChoice::KeepTypes).is_err());
    assert_eq!(u.document().to_string(), "# keep\nschema_version = 99 # newer\n");
    assert!(u.report().is_empty());
}

#[test]
fn a_second_update_leaves_the_text_identical() {
    let mut u = updater("# mine\nhyperlinks = false\n[long]\nheaders = false\n");
    u.apply_migrations(HyperlinkChoice::KeepTypes).unwrap();
    let text = u.document().to_string();
    let report = u.report().clone();
    u.apply_migrations(HyperlinkChoice::DisableAll).unwrap();
    assert_eq!(u.document().to_string(), text);
    assert_eq!(u.report(), &report);
    assert_eq!(u.detect_version(), 3);
}
