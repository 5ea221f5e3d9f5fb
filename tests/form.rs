use launcher_studio::desktop_entry::{DesktopEntry, EntryError};
use launcher_studio::entry_form::{
    apply_type_rules, collect_entry, join_list, pairs_text, parse_kv_lines, parse_lang_lines,
    set_form_from_entry, FormFields,
};

fn s(v: &str) -> String {
    v.to_string()
}

fn empty_form() -> FormFields {
    FormFields {
        type_field: None,
        name: String::new(),
        generic_name: String::new(),
        comment: String::new(),
        exec_command: String::new(),
        icon: String::new(),
        terminal: false,
        no_display: false,
        startup_notify: false,
        categories: String::new(),
        mime_type: String::new(),
        keywords: String::new(),
        only_show_in: String::new(),
        not_show_in: String::new(),
        try_exec: String::new(),
        path: String::new(),
        url: String::new(),
        actions: String::new(),
        localized_name: String::new(),
        localized_generic_name: String::new(),
        localized_comment: String::new(),
        extra: String::new(),
    }
}

#[test]
fn lang_lines_need_tag_and_value() {
    let r = parse_lang_lines(" fr = Bonjour \n\nde=\n=x\nno pair\nit=Ciao=ciao\r\n");
    assert_eq!(r, vec![(s("fr"), s("Bonjour")), (s("it"), s("Ciao=ciao"))]);
    assert!(parse_lang_lines("").is_empty());
}

#[test]
fn kv_lines_keep_empty_values() {
    let r = parse_kv_lines("X-A = 1\nX-B=\n = lost\nnothing\n");
    assert_eq!(r, vec![(s("X-A"), s("1")), (s("X-B"), s(""))]);
}

#[test]
fn join_list_puts_semicolons_between_items() {
    assert_eq!(join_list(&vec![s("a"), s("b"), s("c")]), "a;b;c");
    assert_eq!(join_list(&vec![s("only")]), "only");
    assert_eq!(join_list(&vec![]), "");
}

#[test]
fn pairs_text_puts_one_pair_per_line() {
    assert_eq!(pairs_text(&vec![(s("fr"), s("Bonjour")), (s("de"), s("Hallo"))]), "fr=Bonjour\nde=Hallo");
    assert_eq!(pairs_text(&vec![]), "");
}

#[test]
fn collect_entry_builds_and_validates() {
    let mut f = empty_form();
    f.name = s("Editor");
    f.exec_command = s("gedit %U");
    f.icon = s("  ");
    f.comment = s(" Edit text ");
    f.categories = s("Utility; TextEditor;;");
    f.localized_name = s("fr=Éditeur\nde=");
    f.extra = s("X-A=1");
    let e = collect_entry(&f).unwrap();
    assert_eq!(e.type_field, "Application");
    assert_eq!(e.icon, None);
    assert_eq!(e.comment, Some(s("Edit text")));
    assert_eq!(e.categories, vec![s("Utility"), s("TextEditor")]);
    assert_eq!(e.name_localized, vec![(s("fr"), s("Éditeur"))]);
    assert_eq!(e.extra, vec![(s("X-A"), s("1"))]);
}

#[test]
fn collect_entry_reports_the_first_failed_rule() {
    let mut f = empty_form();
    f.name = s("Editor");
    assert_eq!(collect_entry(&f), Err(EntryError::MissingExec));
    f.type_field = Some(s("Link"));
    assert_eq!(collect_entry(&f), Err(EntryError::MissingUrl));
    f.type_field = Some(s("Folder"));
    assert_eq!(collect_entry(&f), Err(EntryError::InvalidType));
}

#[test]
fn type_rules_clear_application_fields() {
    let mut f = empty_form();
    f.type_field = Some(s("Link"));
    f.exec_command = s("x");
    f.try_exec = s("y");
    f.path = s("/tmp");
    f.actions = s("a;b");
    f.terminal = true;
    f.startup_notify = true;
    f.no_display = true;
    f.url = s("https://a");
    apply_type_rules(&mut f);
    assert_eq!(f.exec_command, "");
    assert_eq!(f.try_exec, "");
    assert_eq!(f.path, "");
    assert_eq!(f.actions, "");
    assert!(!f.terminal && !f.startup_notify);
    assert!(f.no_display);
    assert_eq!(f.url, "https://a");
    let mut g = empty_form();
    g.exec_command = s("x");
    let before = g.clone();
    apply_type_rules(&mut g);
    assert_eq!(g, before);
}

#[test]
fn set_form_shows_the_entry() {
    let mut e = DesktopEntry::new();
    e.name = s("Foo");
    e.exec_command = s("foo");
    e.terminal = true;
    e.categories = vec![s("A"), s("B")];
    e.name_localized = vec![(s("fr"), s("Fou"))];
    e.extra = vec![(s("X-A"), s("1")), (s("X-B"), s(""))];
    e.url = None;
    let mut f = empty_form();
    set_form_from_entry(&mut f, &e);
    assert_eq!(f.type_field, Some(s("Application")));
    assert_eq!(f.name, "Foo");
    assert_eq!(f.exec_command, "foo");
    assert!(f.terminal);
    assert_eq!(f.categories, "A;B");
    assert_eq!(f.localized_name, "fr=Fou");
    assert_eq!(f.extra, "X-A=1\nX-B=");
    assert_eq!(f.url, "");
    assert_eq!(collect_entry(&f).unwrap(), e);
}

#[test]
fn set_form_with_unknown_type_selects_application() {
    let mut e = DesktopEntry::new();
    e.type_field = s("Folder");
    let mut f = empty_form();
    set_form_from_entry(&mut f, &e);
    assert_eq!(f.type_field, Some(s("Application")));
}

#[test]
fn set_form_for_a_link_clears_the_command() {
    let mut e = DesktopEntry::new();
    e.type_field = s("Link");
    e.exec_command = s("ignored");
    e.url = Some(s("https://a"));
    let mut f = empty_form();
    set_form_from_entry(&mut f, &e);
    assert_eq!(f.type_field, Some(s("Link")));
    assert_eq!(f.exec_command, "");
    assert_eq!(f.url, "https://a");
}
