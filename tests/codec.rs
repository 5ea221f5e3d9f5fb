use launcher_studio::desktop_entry::{escape, icon_is_path, DesktopEntry, EntryError};
use launcher_studio::desktop_reader::{is_desktop_file_name, parse_desktop_content, split_semicolon};
use launcher_studio::entry_form::parse_desktop_source;

fn s(v: &str) -> String {
    v.to_string()
}

fn app(name: &str, exec: &str) -> DesktopEntry {
    let mut e = DesktopEntry::new();
    e.name = s(name);
    e.exec_command = s(exec);
    e
}

#[test]
fn new_entry_is_an_empty_application() {
    let e = DesktopEntry::new();
    assert_eq!(e.type_field, "Application");
    assert_eq!(e.name, "");
    assert!(e.generic_name.is_none());
    assert!(!e.terminal && !e.no_display && !e.startup_notify);
    assert!(e.categories.is_empty() && e.extra.is_empty() && e.name_localized.is_empty());
    let d = DesktopEntry::default();
    assert_eq!(d.type_field, "Application");
}

#[test]
fn validate_rejects_application_without_exec() {
    let e = app("Foo", "");
    assert_eq!(e.validate(), Err(EntryError::MissingExec));
    let blank = app("Foo", "   ");
    assert_eq!(blank.validate(), Err(EntryError::MissingExec));
}

#[test]
fn validate_accepts_directory_without_exec_or_url() {
    let mut e = app("Games", "");
    e.type_field = s("Directory");
    assert_eq!(e.validate(), Ok(()));
}

#[test]
fn validate_rejects_unknown_type() {
    let mut e = app("Foo", "/bin/foo");
    e.type_field = s("Folder");
    assert_eq!(e.validate(), Err(EntryError::InvalidType));
}

#[test]
fn validate_reports_missing_type_first() {
    let mut e = app("", "");
    e.type_field = s("");
    assert_eq!(e.validate(), Err(EntryError::MissingType));
}

#[test]
fn validate_reports_missing_name() {
    let e = app("  \t ", "/bin/foo");
    assert_eq!(e.validate(), Err(EntryError::MissingName));
}

#[test]
fn validate_link_needs_url() {
    let mut e = app("Site", "");
    e.type_field = s("Link");
    assert_eq!(e.validate(), Err(EntryError::MissingUrl));
    e.url = Some(s("  "));
    assert_eq!(e.validate(), Err(EntryError::MissingUrl));
    e.url = Some(s("https://example.org"));
    assert_eq!(e.validate(), Ok(()));
}

#[test]
fn validate_accepts_application() {
    assert_eq!(app("Foo", "/bin/foo").validate(), Ok(()));
}

#[test]
fn error_messages() {
    assert_eq!(EntryError::MissingType.message(), "Type is required");
    assert_eq!(EntryError::MissingName.message(), "Name is required");
    assert_eq!(EntryError::MissingExec.message(), "Exec is required for Type=Application");
    assert_eq!(EntryError::MissingUrl.message(), "URL is required for Type=Link");
    assert_eq!(
        EntryError::InvalidType.message(),
        "Type must be one of Application, Link, Directory"
    );
}

#[test]
fn escape_writes_line_feeds_as_backslash_n() {
    assert_eq!(escape("a\nb\n"), "a\\nb\\n");
    assert_eq!(escape("plain"), "plain");
    assert_eq!(escape(""), "");
}

#[test]
fn encode_minimal_entry() {
    let e = app("Test", "/bin/true");
    assert_eq!(
        e.to_ini_string(),
        "[Desktop Entry]\nType=Application\nName=Test\nExec=/bin/true\nTerminal=false\nNoDisplay=false\nStartupNotify=false\n"
    );
}

#[test]
fn encode_full_entry_in_fixed_order() {
    let mut e = app("Na\nme", "  run --x  ");
    e.name_localized = vec![(s("fr"), s("Nom")), (s("de"), s("Na\nme"))];
    e.generic_name = Some(s("Gen"));
    e.generic_name_localized = vec![(s("fr"), s("Gén"))];
    e.comment = Some(s("Com"));
    e.comment_localized = vec![(s("it"), s("Commento"))];
    e.try_exec = Some(s(" tryme "));
    e.icon = Some(s("/usr/share/icons/x.png"));
    e.path = Some(s("/tmp"));
    e.url = Some(s("https://x"));
    e.terminal = true;
    e.no_display = true;
    e.startup_notify = true;
    e.categories = vec![s("Utility"), s("Development")];
    e.mime_type = vec![s("text/plain")];
    e.keywords = vec![s("a"), s("b")];
    e.only_show_in = vec![s("GNOME")];
    e.not_show_in = vec![s("KDE")];
    e.actions = vec![s("New")];
    e.extra = vec![(s(" X-Key "), s(" v ")), (s("  "), s("dropped"))];
    let expected = "[Desktop Entry]\nType=Application\nName=Na\\nme\nName[fr]=Nom\nName[de]=Na\\nme\nGenericName=Gen\nGenericName[fr]=Gén\nComment=Com\nComment[it]=Commento\nExec=run --x\nTryExec=tryme\nIcon=/usr/share/icons/x.png\nPath=/tmp\nURL=https://x\nTerminal=true\nNoDisplay=true\nStartupNotify=true\nCategories=Utility;Development;\nMimeType=text/plain;\nKeywords=a;b;\nOnlyShowIn=GNOME;\nNotShowIn=KDE;\nActions=New;\nX-Key=v\n";
    assert_eq!(e.to_ini_string(), expected);
}

#[test]
fn concrete_scenario() {
    let text = "[Desktop Entry]\nType=Application\nName=Test\nExec=/bin/true\nTerminal=true\nCategories=Utility;\n";
    let e = parse_desktop_content(text);
    assert_eq!(e.type_field, "Application");
    assert_eq!(e.name, "Test");
    assert_eq!(e.exec_command, "/bin/true");
    assert!(e.terminal);
    assert_eq!(e.categories, vec![s("Utility")]);
    assert_eq!(e.validate(), Ok(()));
    let out = e.to_ini_string();
    assert!(out.contains("Type=Application\n"));
    assert!(out.contains("Name=Test\n"));
    assert!(out.contains("Exec=/bin/true\n"));
    assert!(out.contains("Terminal=true\n"));
    assert!(out.contains("NoDisplay=false\n"));
    assert!(out.contains("StartupNotify=false\n"));
    assert!(out.contains("Categories=Utility;\n"));
}

#[test]
fn list_field_semantics() {
    let e = parse_desktop_content("[Desktop Entry]\nCategories=Utility;Development;;\n");
    assert_eq!(e.categories, vec![s("Utility"), s("Development")]);
    assert!(e.to_ini_string().contains("\nCategories=Utility;Development;\n"));
}

#[test]
fn split_semicolon_trims_and_drops_empty_pieces() {
    assert_eq!(split_semicolon(" a ; ;b;;c "), vec![s("a"), s("b"), s("c")]);
    assert!(split_semicolon("").is_empty());
    assert!(split_semicolon(";;  ;").is_empty());
}

#[test]
fn localized_field_accumulation() {
    let e = parse_desktop_content("[Desktop Entry]\nName=Foo\nName[fr]=Bar\n");
    assert_eq!(e.name, "Foo");
    assert_eq!(e.name_localized, vec![(s("fr"), s("Bar"))]);
    let out = e.to_ini_string();
    assert!(out.contains("\nName=Foo\nName[fr]=Bar\n"));
}

#[test]
fn localized_variants_repeat_and_keep_order() {
    let text = "[Desktop Entry]\nName[fr]=A\nGenericName[de]=B\nComment[fr]=C\nName[fr]=D\nComment[x y]=E\n";
    let e = parse_desktop_content(text);
    assert_eq!(e.name_localized, vec![(s("fr"), s("A")), (s("fr"), s("D"))]);
    assert_eq!(e.generic_name_localized, vec![(s("de"), s("B"))]);
    assert_eq!(e.comment_localized, vec![(s("fr"), s("C")), (s("x y"), s("E"))]);
}

#[test]
fn other_sections_are_ignored() {
    let text = "[Desktop Entry]\nName=Foo\n[Desktop Action Foo]\nName=Other\nExec=other\nX-Thing=1\n[Desktop Entry]\nExec=foo\n";
    let e = parse_desktop_content(text);
    assert_eq!(e.name, "Foo");
    assert_eq!(e.exec_command, "foo");
    assert!(e.extra.is_empty());
    let without = parse_desktop_content("[Desktop Entry]\nName=Foo\n[Desktop Entry]\nExec=foo\n");
    assert_eq!(e.to_ini_string(), without.to_ini_string());
}

#[test]
fn lines_before_any_section_are_ignored() {
    let e = parse_desktop_content("Name=Early\n[Desktop Entry]\nName=Late\n");
    assert_eq!(e.name, "Late");
}

#[test]
fn empty_text_gives_an_application() {
    let e = parse_desktop_content("");
    assert_eq!(e.type_field, "Application");
    assert_eq!(e.name, "");
    assert!(e.extra.is_empty());
    let no_type = parse_desktop_content("[Desktop Entry]\nType=\nName=x\n");
    assert_eq!(no_type.type_field, "Application");
}

#[test]
fn scalar_keys_last_occurrence_wins() {
    let e = parse_desktop_content("[Desktop Entry]\nName=One\nName=Two\nType=Link\nType=Directory\n");
    assert_eq!(e.name, "Two");
    assert_eq!(e.type_field, "Directory");
}

#[test]
fn flags_compare_to_true_ignoring_case() {
    let e = parse_desktop_content("[Desktop Entry]\nTerminal=TRUE\nNoDisplay=1\nStartupNotify=True\n");
    assert!(e.terminal);
    assert!(!e.no_display);
    assert!(e.startup_notify);
    let f = parse_desktop_content("[Desktop Entry]\nTerminal=false\nNoDisplay=\nStartupNotify=yes\n");
    assert!(!f.terminal && !f.no_display && !f.startup_notify);
}

#[test]
fn keys_and_values_are_trimmed_and_split_at_first_equals() {
    let e = parse_desktop_content("  [Desktop Entry]  \r\n  Exec =  env A=B run  \r\n  X-Custom = a=b \n");
    assert_eq!(e.exec_command, "env A=B run");
    assert_eq!(e.extra, vec![(s("X-Custom"), s("a=b"))]);
}

#[test]
fn comments_blank_lines_and_lines_without_equals_are_skipped() {
    let text = "[Desktop Entry]\n# Name=Hidden\n\n   \nnot a pair\n; X-Semi=1\nName=Shown\n";
    let e = parse_desktop_content(text);
    assert_eq!(e.name, "Shown");
    assert!(e.extra.is_empty());
}

#[test]
fn source_buffer_reads_semicolon_lines() {
    let text = "[Desktop Entry]\n; X-Semi=1\n# Name=Hidden\nName=Shown\n";
    let e = parse_desktop_source(text);
    assert_eq!(e.name, "Shown");
    assert_eq!(e.extra, vec![(s("; X-Semi"), s("1"))]);
}

#[test]
fn unknown_keys_go_to_extra_in_order() {
    let text = "[Desktop Entry]\nX-B=2\nX-A=1\nX-B=3\nName[fr=broken\n=no key\n";
    let e = parse_desktop_content(text);
    assert_eq!(
        e.extra,
        vec![(s("X-B"), s("2")), (s("X-A"), s("1")), (s("X-B"), s("3")), (s("Name[fr"), s("broken"))]
    );
}

#[test]
fn optional_fields_are_present_even_when_empty() {
    let e = parse_desktop_content("[Desktop Entry]\nIcon=\nGenericName=\nURL= https://a \n");
    assert_eq!(e.icon, Some(s("")));
    assert_eq!(e.generic_name, Some(s("")));
    assert_eq!(e.url, Some(s("https://a")));
    assert!(e.comment.is_none());
}

#[test]
fn decode_encode_decode_gives_the_same_entry() {
    let text = "junk\n[Desktop Entry]\nName= Foo \nName[fr]=Bar\nExec=foo %U\nIcon=foo\nCategories=A; ;B;\nX-Odd=x=y\n;c=1\nKeywords=k\n[Other]\nName=zzz\n";
    let e = parse_desktop_content(text);
    assert_eq!(parse_desktop_content(&e.to_ini_string()), e);
    let s1 = parse_desktop_source(text);
    assert_eq!(s1.extra, vec![(s("X-Odd"), s("x=y")), (s(";c"), s("1"))]);
    assert_eq!(parse_desktop_source(&s1.to_ini_string()), s1);
}

#[test]
fn encoding_is_idempotent_for_a_valid_entry() {
    let mut e = app("Foo", " /usr/bin/foo --flag ");
    e.comment = Some(s("Multi\nline"));
    e.categories = vec![s("Utility")];
    e.extra = vec![(s("X-A"), s(" 1 "))];
    let text = e.to_ini_string();
    assert_eq!(parse_desktop_content(&text).to_ini_string(), text);
}

#[test]
fn encode_omits_empty_exec_and_absent_optionals() {
    let mut e = app("Dir", "");
    e.type_field = s("Directory");
    let out = e.to_ini_string();
    assert!(!out.contains("Exec="));
    assert!(!out.contains("Icon="));
    assert!(!out.contains("Categories="));
}

#[test]
fn desktop_file_names() {
    assert!(is_desktop_file_name("firefox.desktop"));
    assert!(is_desktop_file_name("a.desktop"));
    assert!(!is_desktop_file_name(".desktop"));
    assert!(!is_desktop_file_name("firefox.desktop.bak"));
    assert!(!is_desktop_file_name("firefox.Desktop"));
    assert!(!is_desktop_file_name(""));
}

#[test]
fn icons_with_a_separator_are_paths() {
    assert!(icon_is_path("/usr/share/icons/a.png"));
    assert!(icon_is_path("icons/a.png"));
    assert!(!icon_is_path("firefox"));
    assert!(!icon_is_path(""));
}

#[test]
fn save_name_falls_back_when_blank() {
    let mut e = DesktopEntry::new();
    assert_eq!(e.save_name(), "desktop-entry");
    e.name = s("  ");
    assert_eq!(e.save_name(), "desktop-entry");
    e.name = s("My App");
    assert_eq!(e.save_name(), "My App");
}
