//! The text side of the entry editor: reading the live source buffer, and
//! turning the editor's plain field texts into an entry and back.
use vstd::prelude::*;

use crate::desktop_entry::{
    kv, list_view, opt_view, pairs_view, validation, DesktopEntry, EntryError, EntryView,
};
use crate::desktop_reader::{decode, decode_text, list_items, split_semicolon};
use crate::text::{
    chars_eq_str, chars_of, copy_range, find_char, lemma_split_on_nonempty, push_all, split_on,
    split_once, string_of, trim, trim_chars,
};

verus! {

/// Reads an entry from the editor's source buffer. Blank lines, `#` comments
/// and lines outside the `[Desktop Entry]` section are dropped; unlike a file,
/// a line starting with `;` is read as a pair.
pub fn parse_desktop_source(content: &str) -> (r: DesktopEntry)
    ensures
        r@ == decode(content@, false),
{
    decode_text(content, false)
}

// ---------------------------------------------------------------------------
// Multi-line `key=value` fields
// ---------------------------------------------------------------------------

/// The pair on one line of a multi-line field: the line cut at its first
/// `=`, both sides trimmed. A blank key drops the line, and so does a blank
/// value unless `keep_empty_value`.
pub open spec fn form_pair(raw: Seq<char>, keep_empty_value: bool) -> Option<
    (Seq<char>, Seq<char>),
> {
    match split_once(trim(raw), '=') {
        None => None,
        Some(kv) => {
            let k = trim(kv.0);
            let v = trim(kv.1);
            if k.len() == 0 || (!keep_empty_value && v.len() == 0) {
                None
            } else {
                Some((k, v))
            }
        },
    }
}

/// The pairs of the lines `lines`, in order.
pub open spec fn form_pairs(lines: Seq<Seq<char>>, keep_empty_value: bool) -> Seq<
    (Seq<char>, Seq<char>),
>
    decreases lines.len(),
{
    if lines.len() == 0 {
        Seq::empty()
    } else {
        let r = form_pairs(lines.drop_last(), keep_empty_value);
        match form_pair(lines.last(), keep_empty_value) {
            Some(p) => r.push(p),
            None => r,
        }
    }
}

/// The `lang=value` pairs of a localized-variants field.
pub open spec fn lang_pairs(s: Seq<char>) -> Seq<(Seq<char>, Seq<char>)> {
    form_pairs(split_on(s, '\n'), false)
}

/// The `key=value` pairs of the extra-keys field; a value may be empty.
pub open spec fn kv_pairs(s: Seq<char>) -> Seq<(Seq<char>, Seq<char>)> {
    form_pairs(split_on(s, '\n'), true)
}

proof fn lemma_pairs_view_push(v: Seq<(String, String)>, p: (String, String))
    ensures
        pairs_view(v.push(p)) == pairs_view(v).push((p.0@, p.1@)),
{
    assert(pairs_view(v.push(p)) =~= pairs_view(v).push((p.0@, p.1@)));
}

fn form_pair_of(raw: &Vec<char>, keep_empty_value: bool) -> (r: Option<(String, String)>)
    ensures
        r is Some == form_pair(raw@, keep_empty_value) is Some,
        match r {
            Some(p) => (p.0@, p.1@) == form_pair(raw@, keep_empty_value)->0,
            None => true,
        },
{
    let line = trim_chars(raw);
    match find_char(&line, '=') {
        None => None,
        Some(i) => {
            let k = trim_chars(&copy_range(&line, 0, i));
            let v = trim_chars(&copy_range(&line, i + 1, line.len()));
            if k.len() == 0 || (!keep_empty_value && v.len() == 0) {
                None
            } else {
                Some((string_of(&k), string_of(&v)))
            }
        },
    }
}

fn form_pairs_of(s: &str, keep_empty_value: bool) -> (r: Vec<(String, String)>)
    ensures
        pairs_view(r@) == form_pairs(split_on(s@, '\n'), keep_empty_value),
{
    let chars = chars_of(s);
    let mut r: Vec<(String, String)> = Vec::new();
    let mut cur: Vec<char> = Vec::new();
    let mut i: usize = 0;
    assert(chars@.take(0) =~= Seq::<char>::empty());
    assert(pairs_view(r@) =~= Seq::<(Seq<char>, Seq<char>)>::empty());
    while i < chars.len()
        invariant
            i <= chars.len(),
            pairs_view(r@) == form_pairs(
                split_on(chars@.take(i as int), '\n').drop_last(),
                keep_empty_value,
            ),
            cur@ == split_on(chars@.take(i as int), '\n').last(),
        decreases chars.len() - i,
    {
        let ghost ls = split_on(chars@.take(i as int), '\n');
        proof {
            assert(chars@.take(i + 1).drop_last() =~= chars@.take(i as int));
            lemma_split_on_nonempty(chars@.take(i as int), '\n');
        }
        if chars[i] == '\n' {
            proof {
                assert(ls.push(Seq::<char>::empty()).drop_last() =~= ls);
                assert(ls.drop_last().push(ls.last()) =~= ls);
            }
            if let Some(p) = form_pair_of(&cur, keep_empty_value) {
                proof {
                    lemma_pairs_view_push(r@, p);
                }
                r.push(p);
            }
            cur = Vec::new();
        } else {
            proof {
                assert(ls.update(ls.len() - 1, ls.last().push(chars@[i as int])).drop_last()
                    =~= ls.drop_last());
            }
            cur.push(chars[i]);
        }
        i += 1;
    }
    assert(chars@.take(chars.len() as int) =~= chars@);
    let ghost ls = split_on(chars@, '\n');
    proof {
        lemma_split_on_nonempty(chars@, '\n');
        assert(ls.drop_last().push(ls.last()) =~= ls);
    }
    if let Some(p) = form_pair_of(&cur, keep_empty_value) {
        proof {
            lemma_pairs_view_push(r@, p);
        }
        r.push(p);
    }
    r
}

/// Reads a localized-variants field: one `lang=value` per line, both sides
/// trimmed; lines without `=`, with a blank tag or a blank value are dropped.
pub fn parse_lang_lines(s: &str) -> (r: Vec<(String, String)>)
    ensures
        pairs_view(r@) == lang_pairs(s@),
{
    form_pairs_of(s, false)
}

/// Reads the extra-keys field: one `key=value` per line, both sides trimmed;
/// lines without `=` or with a blank key are dropped.
pub fn parse_kv_lines(s: &str) -> (r: Vec<(String, String)>)
    ensures
        pairs_view(r@) == kv_pairs(s@),
{
    form_pairs_of(s, true)
}

// ---------------------------------------------------------------------------
// Joining
// ---------------------------------------------------------------------------

/// The pieces of `ps` with `c` between each two.
pub open spec fn join_with(ps: Seq<Seq<char>>, c: char) -> Seq<char>
    decreases ps.len(),
{
    if ps.len() == 0 {
        Seq::empty()
    } else if ps.len() == 1 {
        ps[0]
    } else {
        join_with(ps.drop_last(), c) + seq![c] + ps.last()
    }
}

/// One `key=value` line per pair.
pub open spec fn pair_lines(ps: Seq<(Seq<char>, Seq<char>)>) -> Seq<Seq<char>> {
    ps.map_values(|p: (Seq<char>, Seq<char>)| kv(p.0, p.1))
}

/// The pieces of `ps`, with `sep` between each two.
fn join_chars(ps: &Vec<Vec<char>>, sep: char) -> (r: Vec<char>)
    ensures
        r@ == join_with(ps@.map_values(|p: Vec<char>| p@), sep),
{
    let ghost views = ps@.map_values(|p: Vec<char>| p@);
    let mut r: Vec<char> = Vec::new();
    let mut i: usize = 0;
    while i < ps.len()
        invariant
            i <= ps.len(),
            views == ps@.map_values(|p: Vec<char>| p@),
            r@ == join_with(views.take(i as int), sep),
        decreases ps.len() - i,
    {
        assert(views.take(i + 1).drop_last() =~= views.take(i as int));
        if i > 0 {
            r.push(sep);
        }
        push_all(&mut r, &ps[i]);
        proof {
            if i == 0 {
                assert(r@ =~= views.take(1)[0]);
            }
        }
        i += 1;
    }
    assert(views.take(ps.len() as int) =~= views);
    r
}

/// The items of a list with `;` between each two, as the editor shows them.
pub fn join_list(items: &Vec<String>) -> (r: String)
    ensures
        r@ == join_with(list_view(items@), ';'),
{
    let mut ps: Vec<Vec<char>> = Vec::new();
    let mut i: usize = 0;
    while i < items.len()
        invariant
            i <= items.len(),
            ps@.map_values(|p: Vec<char>| p@) == list_view(items@).take(i as int),
        decreases items.len() - i,
    {
        let ghost before = ps@;
        let c = chars_of(items[i].as_str());
        ps.push(c);
        assert(ps@ == before.push(c));
        assert(ps@.map_values(|p: Vec<char>| p@) =~= before.map_values(|p: Vec<char>| p@).push(
            c@,
        ));
        assert(ps@.map_values(|p: Vec<char>| p@) =~= list_view(items@).take(i + 1));
        i += 1;
    }
    assert(list_view(items@).take(items.len() as int) =~= list_view(items@));
    string_of(&join_chars(&ps, ';'))
}

/// One `key=value` line per pair, as the editor shows localized variants and
/// extra keys.
pub fn pairs_text(data: &Vec<(String, String)>) -> (r: String)
    ensures
        r@ == join_with(pair_lines(pairs_view(data@)), '\n'),
{
    let ghost lines = pair_lines(pairs_view(data@));
    let mut ps: Vec<Vec<char>> = Vec::new();
    let mut i: usize = 0;
    while i < data.len()
        invariant
            i <= data.len(),
            lines == pair_lines(pairs_view(data@)),
            ps@.map_values(|p: Vec<char>| p@) == lines.take(i as int),
        decreases data.len() - i,
    {
        let (k, v) = &data[i];
        let mut line = chars_of(k.as_str());
        line.push('=');
        push_all(&mut line, &chars_of(v.as_str()));
        let ghost before = ps@;
        ps.push(line);
        assert(ps@.map_values(|p: Vec<char>| p@) =~= before.map_values(|p: Vec<char>| p@).push(
            line@,
        ));
        assert(line@ == lines[i as int]);
        assert(ps@.map_values(|p: Vec<char>| p@) =~= lines.take(i + 1));
        i += 1;
    }
    assert(lines.take(data.len() as int) =~= lines);
    string_of(&join_chars(&ps, '\n'))
}


// ---------------------------------------------------------------------------
// The editor's fields
// ---------------------------------------------------------------------------

/// The plain values of the entry editor: one text per single-line field, one
/// text per multi-line field, one flag per check box, and the selected type.
#[derive(Debug, Clone, PartialEq, Eq)]
pub struct FormFields {
    pub type_field: Option<String>,
    pub name: String,
    pub generic_name: String,
    pub comment: String,
    pub exec_command: String,
    pub icon: String,
    pub terminal: bool,
    pub no_display: bool,
    pub startup_notify: bool,
    pub categories: String,
    pub mime_type: String,
    pub keywords: String,
    pub only_show_in: String,
    pub not_show_in: String,
    pub try_exec: String,
    pub path: String,
    pub url: String,
    pub actions: String,
    pub localized_name: String,
    pub localized_generic_name: String,
    pub localized_comment: String,
    pub extra: String,
}

/// A single-line field as an optional text: trimmed, absent when blank.
pub open spec fn opt_field(s: Seq<char>) -> Option<Seq<char>> {
    if trim(s).len() == 0 {
        None
    } else {
        Some(trim(s))
    }
}

/// The selected type, `Application` when none is selected.
pub open spec fn selected_type(f: FormFields) -> Seq<char> {
    match f.type_field {
        Some(t) => t@,
        None => "Application"@,
    }
}

/// The entry that the editor's fields describe.
pub open spec fn form_entry(f: FormFields) -> EntryView {
    EntryView {
        type_field: selected_type(f),
        name: f.name@,
        generic_name: opt_field(f.generic_name@),
        comment: opt_field(f.comment@),
        exec_command: f.exec_command@,
        icon: opt_field(f.icon@),
        terminal: f.terminal,
        categories: list_items(f.categories@),
        mime_type: list_items(f.mime_type@),
        keywords: list_items(f.keywords@),
        only_show_in: list_items(f.only_show_in@),
        not_show_in: list_items(f.not_show_in@),
        no_display: f.no_display,
        startup_notify: f.startup_notify,
        try_exec: opt_field(f.try_exec@),
        path: opt_field(f.path@),
        url: opt_field(f.url@),
        actions: list_items(f.actions@),
        extra: kv_pairs(f.extra@),
        name_localized: lang_pairs(f.localized_name@),
        generic_name_localized: lang_pairs(f.localized_generic_name@),
        comment_localized: lang_pairs(f.localized_comment@),
    }
}

fn opt_text(s: &String) -> (r: Option<String>)
    ensures
        opt_view(r) == opt_field(s@),
{
    let t = trim_chars(&chars_of(s.as_str()));
    if t.len() == 0 {
        None
    } else {
        Some(string_of(&t))
    }
}

/// The entry that the editor's fields describe, if it passes validation.
pub fn collect_entry(f: &FormFields) -> (r: Result<DesktopEntry, EntryError>)
    ensures
        match r {
            Ok(e) => e@ == form_entry(*f) && validation(e@) is Ok,
            Err(x) => validation(form_entry(*f)) == Err::<(), EntryError>(x),
        },
{
    let type_field = match &f.type_field {
        Some(t) => t.clone(),
        None => String::from_str("Application"),
    };
    let e = DesktopEntry {
        type_field,
        name: f.name.clone(),
        generic_name: opt_text(&f.generic_name),
        comment: opt_text(&f.comment),
        exec_command: f.exec_command.clone(),
        icon: opt_text(&f.icon),
        terminal: f.terminal,
        categories: split_semicolon(f.categories.as_str()),
        mime_type: split_semicolon(f.mime_type.as_str()),
        keywords: split_semicolon(f.keywords.as_str()),
        only_show_in: split_semicolon(f.only_show_in.as_str()),
        not_show_in: split_semicolon(f.not_show_in.as_str()),
        no_display: f.no_display,
        startup_notify: f.startup_notify,
        try_exec: opt_text(&f.try_exec),
        path: opt_text(&f.path),
        url: opt_text(&f.url),
        actions: split_semicolon(f.actions.as_str()),
        extra: parse_kv_lines(f.extra.as_str()),
        name_localized: parse_lang_lines(f.localized_name.as_str()),
        generic_name_localized: parse_lang_lines(f.localized_generic_name.as_str()),
        comment_localized: parse_lang_lines(f.localized_comment.as_str()),
    };
    assert(e@ == form_entry(*f));
    match e.validate() {
        Ok(()) => Ok(e),
        Err(x) => Err(x),
    }
}

/// The label of the type selector that shows a type: the type itself when it
/// is `Link` or `Directory`, else `Application`.
pub open spec fn type_label(t: Seq<char>) -> Seq<char> {
    if t == "Link"@ || t == "Directory"@ {
        t
    } else {
        "Application"@
    }
}

/// An optional text as a field text, empty when absent.
pub open spec fn field_text(o: Option<Seq<char>>) -> Seq<char> {
    match o {
        Some(v) => v,
        None => Seq::empty(),
    }
}

fn text_or_empty(o: &Option<String>) -> (r: String)
    ensures
        r@ == field_text(opt_view(*o)),
{
    match o {
        Some(v) => v.clone(),
        None => String::new(),
    }
}

/// Whether the fields describe an application, which alone has a command,
/// a working directory, actions and the terminal and notification flags.
pub open spec fn is_application_form(f: FormFields) -> bool {
    selected_type(f) == "Application"@
}

/// Clears what only an application has when another type is selected.
pub fn apply_type_rules(f: &mut FormFields)
    ensures
        is_application_form(*old(f)) ==> *final(f) == *old(f),
        !is_application_form(*old(f)) ==> {
            &&& final(f).exec_command@ == Seq::<char>::empty()
            &&& final(f).try_exec@ == Seq::<char>::empty()
            &&& final(f).path@ == Seq::<char>::empty()
            &&& final(f).actions@ == Seq::<char>::empty()
            &&& !final(f).terminal
            &&& !final(f).startup_notify
            &&& final(f).type_field == old(f).type_field
            &&& final(f).name == old(f).name
            &&& final(f).generic_name == old(f).generic_name
            &&& final(f).comment == old(f).comment
            &&& final(f).icon == old(f).icon
            &&& final(f).no_display == old(f).no_display
            &&& final(f).categories == old(f).categories
            &&& final(f).mime_type == old(f).mime_type
            &&& final(f).keywords == old(f).keywords
            &&& final(f).only_show_in == old(f).only_show_in
            &&& final(f).not_show_in == old(f).not_show_in
            &&& final(f).url == old(f).url
            &&& final(f).localized_name == old(f).localized_name
            &&& final(f).localized_generic_name == old(f).localized_generic_name
            &&& final(f).localized_comment == old(f).localized_comment
            &&& final(f).extra == old(f).extra
        },
{
    let is_app = match &f.type_field {
        Some(t) => chars_eq_str(&chars_of(t.as_str()), "Application"),
        None => true,
    };
    if !is_app {
        f.exec_command = String::new();
        f.try_exec = String::new();
        f.path = String::new();
        f.actions = String::new();
        f.terminal = false;
        f.startup_notify = false;
    }
}

/// Fills the editor's fields from an entry, then applies the type rules.
pub fn set_form_from_entry(f: &mut FormFields, de: &DesktopEntry)
    ensures
        final(f).type_field is Some,
        final(f).type_field->0@ == type_label(de@.type_field),
        final(f).name@ == de@.name,
        final(f).generic_name@ == field_text(de@.generic_name),
        final(f).comment@ == field_text(de@.comment),
        final(f).icon@ == field_text(de@.icon),
        final(f).no_display == de@.no_display,
        final(f).categories@ == join_with(de@.categories, ';'),
        final(f).mime_type@ == join_with(de@.mime_type, ';'),
        final(f).keywords@ == join_with(de@.keywords, ';'),
        final(f).only_show_in@ == join_with(de@.only_show_in, ';'),
        final(f).not_show_in@ == join_with(de@.not_show_in, ';'),
        final(f).url@ == field_text(de@.url),
        final(f).localized_name@ == join_with(pair_lines(de@.name_localized), '\n'),
        final(f).localized_generic_name@ == join_with(
            pair_lines(de@.generic_name_localized),
            '\n',
        ),
        final(f).localized_comment@ == join_with(pair_lines(de@.comment_localized), '\n'),
        final(f).extra@ == join_with(pair_lines(de@.extra), '\n'),
        type_label(de@.type_field) == "Application"@ ==> {
            &&& final(f).exec_command@ == de@.exec_command
            &&& final(f).try_exec@ == field_text(de@.try_exec)
            &&& final(f).path@ == field_text(de@.path)
            &&& final(f).actions@ == join_with(de@.actions, ';')
            &&& final(f).terminal == de@.terminal
            &&& final(f).startup_notify == de@.startup_notify
        },
        type_label(de@.type_field) != "Application"@ ==> {
            &&& final(f).exec_command@ == Seq::<char>::empty()
            &&& final(f).try_exec@ == Seq::<char>::empty()
            &&& final(f).path@ == Seq::<char>::empty()
            &&& final(f).actions@ == Seq::<char>::empty()
            &&& !final(f).terminal
            &&& !final(f).startup_notify
        },
{
    let ty = chars_of(de.type_field.as_str());
    let label = if chars_eq_str(&ty, "Link") || chars_eq_str(&ty, "Directory") {
        de.type_field.clone()
    } else {
        String::from_str("Application")
    };
    f.type_field = Some(label);
    f.name = de.name.clone();
    f.generic_name = text_or_empty(&de.generic_name);
    f.comment = text_or_empty(&de.comment);
    f.exec_command = de.exec_command.clone();
    f.icon = text_or_empty(&de.icon);
    f.terminal = de.terminal;
    f.no_display = de.no_display;
    f.startup_notify = de.startup_notify;
    f.categories = join_list(&de.categories);
    f.mime_type = join_list(&de.mime_type);
    f.keywords = join_list(&de.keywords);
    f.only_show_in = join_list(&de.only_show_in);
    f.not_show_in = join_list(&de.not_show_in);
    f.try_exec = text_or_empty(&de.try_exec);
    f.path = text_or_empty(&de.path);
    f.url = text_or_empty(&de.url);
    f.actions = join_list(&de.actions);
    f.localized_name = pairs_text(&de.name_localized);
    f.localized_generic_name = pairs_text(&de.generic_name_localized);
    f.localized_comment = pairs_text(&de.comment_localized);
    f.extra = pairs_text(&de.extra);
    apply_type_rules(f);
}

} // verus!
