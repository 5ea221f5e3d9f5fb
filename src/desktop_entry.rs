//! The desktop entry model, its validation rules and its canonical text form.
use vstd::prelude::*;

use crate::text::{
    lemma_terminated_concat,
    chars_of, escape_chars, escape_newlines, is_blank, push_all, string_of, terminated, trim,
    trim_chars,
};

verus! {

/// One desktop entry: the recognised keys of its `[Desktop Entry]` section,
/// the localized variants of its display texts, and every other key kept in
/// `extra`, in the order read.
#[derive(Debug, Clone, PartialEq, Eq)]
pub struct DesktopEntry {
    pub type_field: String,
    pub name: String,
    pub generic_name: Option<String>,
    pub comment: Option<String>,
    pub exec_command: String,
    pub icon: Option<String>,
    pub terminal: bool,
    pub categories: Vec<String>,
    pub mime_type: Vec<String>,
    pub keywords: Vec<String>,
    pub only_show_in: Vec<String>,
    pub not_show_in: Vec<String>,
    pub no_display: bool,
    pub startup_notify: bool,
    pub try_exec: Option<String>,
    pub path: Option<String>,
    pub url: Option<String>,
    pub actions: Vec<String>,
    pub extra: Vec<(String, String)>,
    pub name_localized: Vec<(String, String)>,
    pub generic_name_localized: Vec<(String, String)>,
    pub comment_localized: Vec<(String, String)>,
}

/// The mathematical value of a `DesktopEntry`: each text as its characters.
pub struct EntryView {
    pub type_field: Seq<char>,
    pub name: Seq<char>,
    pub generic_name: Option<Seq<char>>,
    pub comment: Option<Seq<char>>,
    pub exec_command: Seq<char>,
    pub icon: Option<Seq<char>>,
    pub terminal: bool,
    pub categories: Seq<Seq<char>>,
    pub mime_type: Seq<Seq<char>>,
    pub keywords: Seq<Seq<char>>,
    pub only_show_in: Seq<Seq<char>>,
    pub not_show_in: Seq<Seq<char>>,
    pub no_display: bool,
    pub startup_notify: bool,
    pub try_exec: Option<Seq<char>>,
    pub path: Option<Seq<char>>,
    pub url: Option<Seq<char>>,
    pub actions: Seq<Seq<char>>,
    pub extra: Seq<(Seq<char>, Seq<char>)>,
    pub name_localized: Seq<(Seq<char>, Seq<char>)>,
    pub generic_name_localized: Seq<(Seq<char>, Seq<char>)>,
    pub comment_localized: Seq<(Seq<char>, Seq<char>)>,
}

pub open spec fn opt_view(o: Option<String>) -> Option<Seq<char>> {
    match o {
        Some(s) => Some(s@),
        None => None,
    }
}

pub open spec fn list_view(v: Seq<String>) -> Seq<Seq<char>> {
    v.map_values(|s: String| s@)
}

pub open spec fn pairs_view(v: Seq<(String, String)>) -> Seq<(Seq<char>, Seq<char>)> {
    v.map_values(|p: (String, String)| (p.0@, p.1@))
}

impl View for DesktopEntry {
    type V = EntryView;

    open spec fn view(&self) -> EntryView {
        EntryView {
            type_field: self.type_field@,
            name: self.name@,
            generic_name: opt_view(self.generic_name),
            comment: opt_view(self.comment),
            exec_command: self.exec_command@,
            icon: opt_view(self.icon),
            terminal: self.terminal,
            categories: list_view(self.categories@),
            mime_type: list_view(self.mime_type@),
            keywords: list_view(self.keywords@),
            only_show_in: list_view(self.only_show_in@),
            not_show_in: list_view(self.not_show_in@),
            no_display: self.no_display,
            startup_notify: self.startup_notify,
            try_exec: opt_view(self.try_exec),
            path: opt_view(self.path),
            url: opt_view(self.url),
            actions: list_view(self.actions@),
            extra: pairs_view(self.extra@),
            name_localized: pairs_view(self.name_localized@),
            generic_name_localized: pairs_view(self.generic_name_localized@),
            comment_localized: pairs_view(self.comment_localized@),
        }
    }
}

/// The entry with every text empty, every flag off and every list empty.
pub open spec fn blank_view() -> EntryView {
    EntryView {
        type_field: Seq::empty(),
        name: Seq::empty(),
        generic_name: None,
        comment: None,
        exec_command: Seq::empty(),
        icon: None,
        terminal: false,
        categories: Seq::empty(),
        mime_type: Seq::empty(),
        keywords: Seq::empty(),
        only_show_in: Seq::empty(),
        not_show_in: Seq::empty(),
        no_display: false,
        startup_notify: false,
        try_exec: None,
        path: None,
        url: None,
        actions: Seq::empty(),
        extra: Seq::empty(),
        name_localized: Seq::empty(),
        generic_name_localized: Seq::empty(),
        comment_localized: Seq::empty(),
    }
}

/// A fresh document: an `Application` with nothing else set.
pub open spec fn new_view() -> EntryView {
    EntryView { type_field: "Application"@, ..blank_view() }
}

// ---------------------------------------------------------------------------
// Validation
// ---------------------------------------------------------------------------

/// Why an entry may not be saved.
#[derive(Debug, Clone, Copy, PartialEq, Eq, Structural)]
pub enum EntryError {
    MissingType,
    MissingName,
    MissingExec,
    MissingUrl,
    InvalidType,
}

/// The URL, or nothing when it is absent.
pub open spec fn url_text(e: EntryView) -> Seq<char> {
    match e.url {
        Some(u) => u,
        None => Seq::empty(),
    }
}

/// The rules checked before an entry is saved, in order; the first that
/// fails gives the error.
pub open spec fn validation(e: EntryView) -> Result<(), EntryError> {
    if e.type_field.len() == 0 {
        Err(EntryError::MissingType)
    } else if trim(e.name).len() == 0 {
        Err(EntryError::MissingName)
    } else if e.type_field == "Application"@ {
        if trim(e.exec_command).len() == 0 {
            Err(EntryError::MissingExec)
        } else {
            Ok(())
        }
    } else if e.type_field == "Link"@ {
        if trim(url_text(e)).len() == 0 {
            Err(EntryError::MissingUrl)
        } else {
            Ok(())
        }
    } else if e.type_field == "Directory"@ {
        Ok(())
    } else {
        Err(EntryError::InvalidType)
    }
}

/// Validation by type, for an entry whose name is not blank: an
/// `Application` with a blank command is refused whatever else is set, a
/// `Directory` is accepted without command or URL, and any type outside the
/// three, such as `Folder`, is refused as invalid.
pub proof fn lemma_validation_by_type(e: EntryView)
    requires
        trim(e.name).len() > 0,
    ensures
        e.type_field == "Application"@ && trim(e.exec_command).len() == 0 ==> validation(e) == Err::<
            (),
            EntryError,
        >(EntryError::MissingExec),
        e.type_field == "Directory"@ ==> validation(e) == Ok::<(), EntryError>(()),
        e.type_field == "Folder"@ ==> validation(e) == Err::<(), EntryError>(
            EntryError::InvalidType,
        ),
{
    reveal_strlit("Application");
    reveal_strlit("Link");
    reveal_strlit("Directory");
    reveal_strlit("Folder");
}

impl EntryError {
    /// A sentence for the user.
    pub fn message(&self) -> (r: String)
        ensures
            *self == EntryError::MissingType ==> r@ == "Type is required"@,
            *self == EntryError::MissingName ==> r@ == "Name is required"@,
            *self == EntryError::MissingExec ==> r@ == "Exec is required for Type=Application"@,
            *self == EntryError::MissingUrl ==> r@ == "URL is required for Type=Link"@,
            *self == EntryError::InvalidType ==> r@
                == "Type must be one of Application, Link, Directory"@,
    {
        match self {
            EntryError::MissingType => String::from_str("Type is required"),
            EntryError::MissingName => String::from_str("Name is required"),
            EntryError::MissingExec => String::from_str("Exec is required for Type=Application"),
            EntryError::MissingUrl => String::from_str("URL is required for Type=Link"),
            EntryError::InvalidType => String::from_str(
                "Type must be one of Application, Link, Directory",
            ),
        }
    }
}

// ---------------------------------------------------------------------------
// Canonical text
// ---------------------------------------------------------------------------

/// The line `key=value`.
pub open spec fn kv(key: Seq<char>, value: Seq<char>) -> Seq<char> {
    key + seq!['='] + value
}

/// The key `base[tag]` of a localized variant.
pub open spec fn localized_key(base: Seq<char>, tag: Seq<char>) -> Seq<char> {
    base + seq!['['] + tag + seq![']']
}

/// One line `base[tag]=value` per localized variant, value escaped.
pub open spec fn localized_lines(base: Seq<char>, pairs: Seq<(Seq<char>, Seq<char>)>) -> Seq<
    Seq<char>,
> {
    pairs.map_values(
        |p: (Seq<char>, Seq<char>)| kv(localized_key(base, p.0), escape_newlines(p.1)),
    )
}

pub open spec fn opt_escaped(o: Option<Seq<char>>) -> Option<Seq<char>> {
    match o {
        Some(v) => Some(escape_newlines(v)),
        None => None,
    }
}

pub open spec fn opt_trimmed(o: Option<Seq<char>>) -> Option<Seq<char>> {
    match o {
        Some(v) => Some(trim(v)),
        None => None,
    }
}

/// The line `key=value` where a value is present, else no line.
pub open spec fn opt_line(key: Seq<char>, o: Option<Seq<char>>) -> Seq<Seq<char>> {
    match o {
        Some(v) => seq![kv(key, v)],
        None => Seq::empty(),
    }
}

pub open spec fn bool_text(b: bool) -> Seq<char> {
    if b {
        "true"@
    } else {
        "false"@
    }
}

/// The line `key=a;b;c;` for a non-empty list, else no line.
pub open spec fn list_line(key: Seq<char>, items: Seq<Seq<char>>) -> Seq<Seq<char>> {
    if items.len() > 0 {
        seq![kv(key, terminated(items, ';'))]
    } else {
        Seq::empty()
    }
}

/// One line `key=value` per extra pair whose key is not blank, both trimmed.
pub open spec fn extra_lines(pairs: Seq<(Seq<char>, Seq<char>)>) -> Seq<Seq<char>>
    decreases pairs.len(),
{
    if pairs.len() == 0 {
        Seq::empty()
    } else {
        let p = pairs.last();
        let rest = extra_lines(pairs.drop_last());
        if trim(p.0).len() > 0 {
            rest.push(kv(trim(p.0), trim(p.1)))
        } else {
            rest
        }
    }
}

/// The section header, the type, and the display texts with their
/// localized variants.
pub open spec fn head_lines(e: EntryView) -> Seq<Seq<char>> {
    seq!["[Desktop Entry]"@] + seq![kv("Type"@, e.type_field)] + seq![
        kv("Name"@, escape_newlines(e.name)),
    ] + localized_lines("Name"@, e.name_localized) + opt_line(
        "GenericName"@,
        opt_escaped(e.generic_name),
    ) + localized_lines("GenericName"@, e.generic_name_localized) + opt_line(
        "Comment"@,
        opt_escaped(e.comment),
    ) + localized_lines("Comment"@, e.comment_localized)
}

/// The line `Exec=...` where the command is not empty, else no line.
pub open spec fn exec_line(e: EntryView) -> Seq<Seq<char>> {
    if e.exec_command.len() > 0 {
        seq![kv("Exec"@, trim(e.exec_command))]
    } else {
        Seq::empty()
    }
}

/// What launching needs: command, icon, paths, URL and the three flags.
pub open spec fn launch_lines(e: EntryView) -> Seq<Seq<char>> {
    exec_line(e) + opt_line("TryExec"@, opt_trimmed(e.try_exec)) + opt_line(
        "Icon"@,
        opt_trimmed(e.icon),
    ) + opt_line("Path"@, opt_trimmed(e.path)) + opt_line("URL"@, opt_trimmed(e.url)) + seq![
        kv("Terminal"@, bool_text(e.terminal)),
    ] + seq![kv("NoDisplay"@, bool_text(e.no_display))] + seq![
        kv("StartupNotify"@, bool_text(e.startup_notify)),
    ]
}

/// The six lists, then the extra pairs.
pub open spec fn tail_lines(e: EntryView) -> Seq<Seq<char>> {
    list_line("Categories"@, e.categories) + list_line("MimeType"@, e.mime_type) + list_line(
        "Keywords"@,
        e.keywords,
    ) + list_line("OnlyShowIn"@, e.only_show_in) + list_line("NotShowIn"@, e.not_show_in)
        + list_line("Actions"@, e.actions) + extra_lines(e.extra)
}

/// The lines of the canonical text, in their fixed order.
pub open spec fn entry_lines(e: EntryView) -> Seq<Seq<char>> {
    head_lines(e) + launch_lines(e) + tail_lines(e)
}

/// The canonical text of an entry: each of its lines followed by a line feed.
pub open spec fn encode(e: EntryView) -> Seq<char> {
    terminated(entry_lines(e), '\n')
}

/// Writing the lines `g` after the lines `acc` writes the lines `acc + g`.
proof fn lemma_extend(base: Seq<char>, acc: Seq<Seq<char>>, g: Seq<Seq<char>>)
    ensures
        base + terminated(acc, '\n') + terminated(g, '\n') == base + terminated(acc + g, '\n'),
{
    lemma_terminated_concat(acc, g, '\n');
    assert(base + terminated(acc, '\n') + terminated(g, '\n') =~= base + (terminated(acc, '\n')
        + terminated(g, '\n')));
}

proof fn lemma_terminated_push(ps: Seq<Seq<char>>, l: Seq<char>, c: char)
    ensures
        terminated(ps.push(l), c) == terminated(ps, c) + l + seq![c],
{
    assert(ps.push(l).drop_last() =~= ps);
}

/// `key=value` as characters.
fn kv_chars(key: &str, value: &Vec<char>) -> (r: Vec<char>)
    ensures
        r@ == kv(key@, value@),
{
    let mut r = chars_of(key);
    r.push('=');
    push_all(&mut r, value);
    r
}

/// Writes `line` and a line feed.
fn emit(out: &mut Vec<char>, line: &Vec<char>)
    ensures
        final(out)@ == old(out)@ + terminated(seq![line@], '\n'),
{
    proof {
        lemma_terminated_push(Seq::empty(), line@, '\n');
        assert(Seq::<Seq<char>>::empty().push(line@) =~= seq![line@]);
    }
    push_all(out, line);
    out.push('\n');
    assert(final(out)@ =~= old(out)@ + terminated(seq![line@], '\n')) by {
        assert(terminated(Seq::<Seq<char>>::empty(), '\n') =~= Seq::<char>::empty());
    }
}

fn emit_localized(out: &mut Vec<char>, base: &str, pairs: &Vec<(String, String)>)
    ensures
        final(out)@ == old(out)@ + terminated(localized_lines(base@, pairs_view(pairs@)), '\n'),
{
    let ghost all = localized_lines(base@, pairs_view(pairs@));
    let mut i: usize = 0;
    while i < pairs.len()
        invariant
            i <= pairs.len(),
            all == localized_lines(base@, pairs_view(pairs@)),
            out@ == old(out)@ + terminated(all.take(i as int), '\n'),
        decreases pairs.len() - i,
    {
        let (tag, value) = &pairs[i];
        let mut key = chars_of(base);
        key.push('[');
        push_all(&mut key, &chars_of(tag.as_str()));
        key.push(']');
        let line = kv_chars_owned(key, &escape_chars(&chars_of(value.as_str())));
        proof {
            assert(line@ == all[i as int]);
            lemma_terminated_push(all.take(i as int), line@, '\n');
            assert(all.take(i as int).push(line@) =~= all.take(i + 1));
        }
        push_all(out, &line);
        out.push('\n');
        i += 1;
    }
    assert(all.take(pairs.len() as int) =~= all);
}

/// `key=value` where the key is already characters.
fn kv_chars_owned(key: Vec<char>, value: &Vec<char>) -> (r: Vec<char>)
    ensures
        r@ == kv(key@, value@),
{
    let mut r = key;
    r.push('=');
    push_all(&mut r, value);
    r
}

fn emit_opt(out: &mut Vec<char>, key: &str, o: &Option<String>, escaped: bool)
    ensures
        escaped ==> final(out)@ == old(out)@ + terminated(
            opt_line(key@, opt_escaped(opt_view(*o))),
            '\n',
        ),
        !escaped ==> final(out)@ == old(out)@ + terminated(
            opt_line(key@, opt_trimmed(opt_view(*o))),
            '\n',
        ),
{
    match o {
        Some(v) => {
            let chars = chars_of(v.as_str());
            let value = if escaped {
                escape_chars(&chars)
            } else {
                trim_chars(&chars)
            };
            let line = kv_chars(key, &value);
            emit(out, &line);
        },
        None => {
            assert(terminated(Seq::<Seq<char>>::empty(), '\n') =~= Seq::<char>::empty());
            assert(out@ =~= old(out)@ + Seq::<char>::empty());
        },
    }
}

fn emit_flag(out: &mut Vec<char>, key: &str, b: bool)
    ensures
        final(out)@ == old(out)@ + terminated(seq![kv(key@, bool_text(b))], '\n'),
{
    let text = if b {
        chars_of("true")
    } else {
        chars_of("false")
    };
    let line = kv_chars(key, &text);
    emit(out, &line);
}

fn emit_list(out: &mut Vec<char>, key: &str, items: &Vec<String>)
    ensures
        final(out)@ == old(out)@ + terminated(list_line(key@, list_view(items@)), '\n'),
{
    let ghost its = list_view(items@);
    if items.len() == 0 {
        assert(terminated(Seq::<Seq<char>>::empty(), '\n') =~= Seq::<char>::empty());
        assert(out@ =~= old(out)@ + Seq::<char>::empty());
        return ;
    }
    let mut value: Vec<char> = Vec::new();
    let mut i: usize = 0;
    while i < items.len()
        invariant
            i <= items.len(),
            its == list_view(items@),
            value@ == terminated(its.take(i as int), ';'),
        decreases items.len() - i,
    {
        push_all(&mut value, &chars_of(items[i].as_str()));
        value.push(';');
        proof {
            lemma_terminated_push(its.take(i as int), its[i as int], ';');
            assert(its.take(i as int).push(its[i as int]) =~= its.take(i + 1));
        }
        i += 1;
    }
    assert(its.take(items.len() as int) =~= its);
    let line = kv_chars(key, &value);
    emit(out, &line);
}

fn emit_extras(out: &mut Vec<char>, pairs: &Vec<(String, String)>)
    ensures
        final(out)@ == old(out)@ + terminated(extra_lines(pairs_view(pairs@)), '\n'),
{
    let ghost ps = pairs_view(pairs@);
    let mut i: usize = 0;
    assert(terminated(Seq::<Seq<char>>::empty(), '\n') =~= Seq::<char>::empty());
    assert(ps.take(0) =~= Seq::<(Seq<char>, Seq<char>)>::empty());
    assert(out@ =~= old(out)@ + Seq::<char>::empty());
    while i < pairs.len()
        invariant
            i <= pairs.len(),
            ps == pairs_view(pairs@),
            out@ == old(out)@ + terminated(extra_lines(ps.take(i as int)), '\n'),
        decreases pairs.len() - i,
    {
        let (k, v) = &pairs[i];
        let key = trim_chars(&chars_of(k.as_str()));
        assert(ps.take(i + 1).drop_last() =~= ps.take(i as int));
        if key.len() > 0 {
            let value = trim_chars(&chars_of(v.as_str()));
            let line = kv_chars_owned(key, &value);
            proof {
                lemma_terminated_push(extra_lines(ps.take(i as int)), line@, '\n');
            }
            push_all(out, &line);
            out.push('\n');
        }
        i += 1;
    }
    assert(ps.take(pairs.len() as int) =~= ps);
}

/// `input` with each line feed written as a backslash and an `n`.
pub fn escape(input: &str) -> (r: String)
    ensures
        r@ == escape_newlines(input@),
{
    string_of(&escape_chars(&chars_of(input)))
}

impl DesktopEntry {
    /// A fresh document: type `Application`, every other text empty, every
    /// flag off, every list empty.
    pub fn new() -> (r: DesktopEntry)
        ensures
            r@ == new_view(),
    {
        let mut e = DesktopEntry::blank();
        e.type_field = String::from_str("Application");
        e
    }

    /// The entry with every text empty, the type included.
    pub fn blank() -> (r: DesktopEntry)
        ensures
            r@ == blank_view(),
    {
        let r = DesktopEntry {
            type_field: String::new(),
            name: String::new(),
            generic_name: None,
            comment: None,
            exec_command: String::new(),
            icon: None,
            terminal: false,
            categories: Vec::new(),
            mime_type: Vec::new(),
            keywords: Vec::new(),
            only_show_in: Vec::new(),
            not_show_in: Vec::new(),
            no_display: false,
            startup_notify: false,
            try_exec: None,
            path: None,
            url: None,
            actions: Vec::new(),
            extra: Vec::new(),
            name_localized: Vec::new(),
            generic_name_localized: Vec::new(),
            comment_localized: Vec::new(),
        };
        assert(r.categories@.map_values(|s: String| s@) =~= Seq::<Seq<char>>::empty());
        assert(r.extra@.map_values(|p: (String, String)| (p.0@, p.1@)) =~= Seq::<
            (Seq<char>, Seq<char>),
        >::empty());
        assert(r@ == blank_view());
        r
    }

    /// Checks the rules that an entry must meet before it is saved.
    pub fn validate(&self) -> (r: Result<(), EntryError>)
        ensures
            r == validation(self@),
    {
        let ty = chars_of(self.type_field.as_str());
        if ty.len() == 0 {
            return Err(EntryError::MissingType);
        }
        if is_blank(&chars_of(self.name.as_str())) {
            return Err(EntryError::MissingName);
        }
        if crate::text::chars_eq_str(&ty, "Application") {
            if is_blank(&chars_of(self.exec_command.as_str())) {
                return Err(EntryError::MissingExec);
            }
            Ok(())
        } else if crate::text::chars_eq_str(&ty, "Link") {
            let blank = match &self.url {
                Some(u) => is_blank(&chars_of(u.as_str())),
                None => {
                    assert(trim(Seq::<char>::empty()) =~= Seq::<char>::empty());
                    true
                },
            };
            if blank {
                return Err(EntryError::MissingUrl);
            }
            Ok(())
        } else if crate::text::chars_eq_str(&ty, "Directory") {
            Ok(())
        } else {
            Err(EntryError::InvalidType)
        }
    }

    /// The canonical text of the entry.
    pub fn to_ini_string(&self) -> (r: String)
        ensures
            r@ == encode(self@),
    {
        let mut out: Vec<char> = Vec::new();
        self.emit_head(&mut out);
        self.emit_launch(&mut out);
        self.emit_tail(&mut out);
        proof {
            let e = self@;
            lemma_terminated_concat(head_lines(e), launch_lines(e), '\n');
            lemma_terminated_concat(head_lines(e) + launch_lines(e), tail_lines(e), '\n');
            assert(out@ =~= encode(e));
        }
        string_of(&out)
    }

    fn emit_head(&self, out: &mut Vec<char>)
        ensures
            final(out)@ == old(out)@ + terminated(head_lines(self@), '\n'),
    {
        let ghost e = self@;
        let header = chars_of("[Desktop Entry]");
        emit(out, &header);
        let ghost mut acc: Seq<Seq<char>> = seq![header@];
        let line = kv_chars("Type", &chars_of(self.type_field.as_str()));
        emit(out, &line);
        proof {
            lemma_extend(old(out)@, acc, seq![line@]);
            acc = acc + seq![line@];
        }
        let line = kv_chars("Name", &escape_chars(&chars_of(self.name.as_str())));
        emit(out, &line);
        proof {
            lemma_extend(old(out)@, acc, seq![line@]);
            acc = acc + seq![line@];
        }
        emit_localized(out, "Name", &self.name_localized);
        proof {
            let g = localized_lines("Name"@, e.name_localized);
            lemma_extend(old(out)@, acc, g);
            acc = acc + g;
        }
        emit_opt(out, "GenericName", &self.generic_name, true);
        proof {
            let g = opt_line("GenericName"@, opt_escaped(e.generic_name));
            lemma_extend(old(out)@, acc, g);
            acc = acc + g;
        }
        emit_localized(out, "GenericName", &self.generic_name_localized);
        proof {
            let g = localized_lines("GenericName"@, e.generic_name_localized);
            lemma_extend(old(out)@, acc, g);
            acc = acc + g;
        }
        emit_opt(out, "Comment", &self.comment, true);
        proof {
            let g = opt_line("Comment"@, opt_escaped(e.comment));
            lemma_extend(old(out)@, acc, g);
            acc = acc + g;
        }
        emit_localized(out, "Comment", &self.comment_localized);
        proof {
            let g = localized_lines("Comment"@, e.comment_localized);
            lemma_extend(old(out)@, acc, g);
            acc = acc + g;
            assert(acc == head_lines(e));
        }
    }

    fn emit_launch(&self, out: &mut Vec<char>)
        ensures
            final(out)@ == old(out)@ + terminated(launch_lines(self@), '\n'),
    {
        let ghost e = self@;
        let exec = chars_of(self.exec_command.as_str());
        if exec.len() > 0 {
            let line = kv_chars("Exec", &trim_chars(&exec));
            emit(out, &line);
        } else {
            assert(terminated(Seq::<Seq<char>>::empty(), '\n') =~= Seq::<char>::empty());
            assert(out@ =~= old(out)@ + Seq::<char>::empty());
        }
        let ghost mut acc: Seq<Seq<char>> = exec_line(e);
        emit_opt(out, "TryExec", &self.try_exec, false);
        proof {
            let g = opt_line("TryExec"@, opt_trimmed(e.try_exec));
            lemma_extend(old(out)@, acc, g);
            acc = acc + g;
        }
        emit_opt(out, "Icon", &self.icon, false);
        proof {
            let g = opt_line("Icon"@, opt_trimmed(e.icon));
            lemma_extend(old(out)@, acc, g);
            acc = acc + g;
        }
        emit_opt(out, "Path", &self.path, false);
        proof {
            let g = opt_line("Path"@, opt_trimmed(e.path));
            lemma_extend(old(out)@, acc, g);
            acc = acc + g;
        }
        emit_opt(out, "URL", &self.url, false);
        proof {
            let g = opt_line("URL"@, opt_trimmed(e.url));
            lemma_extend(old(out)@, acc, g);
            acc = acc + g;
        }
        emit_flag(out, "Terminal", self.terminal);
        proof {
            let g = seq![kv("Terminal"@, bool_text(e.terminal))];
            lemma_extend(old(out)@, acc, g);
            acc = acc + g;
        }
        emit_flag(out, "NoDisplay", self.no_display);
        proof {
            let g = seq![kv("NoDisplay"@, bool_text(e.no_display))];
            lemma_extend(old(out)@, acc, g);
            acc = acc + g;
        }
        emit_flag(out, "StartupNotify", self.startup_notify);
        proof {
            let g = seq![kv("StartupNotify"@, bool_text(e.startup_notify))];
            lemma_extend(old(out)@, acc, g);
            acc = acc + g;
            assert(acc == launch_lines(e));
        }
    }

    fn emit_tail(&self, out: &mut Vec<char>)
        ensures
            final(out)@ == old(out)@ + terminated(tail_lines(self@), '\n'),
    {
        let ghost e = self@;
        emit_list(out, "Categories", &self.categories);
        let ghost mut acc: Seq<Seq<char>> = list_line("Categories"@, e.categories);
        emit_list(out, "MimeType", &self.mime_type);
        proof {
            let g = list_line("MimeType"@, e.mime_type);
            lemma_extend(old(out)@, acc, g);
            acc = acc + g;
        }
        emit_list(out, "Keywords", &self.keywords);
        proof {
            let g = list_line("Keywords"@, e.keywords);
            lemma_extend(old(out)@, acc, g);
            acc = acc + g;
        }
        emit_list(out, "OnlyShowIn", &self.only_show_in);
        proof {
            let g = list_line("OnlyShowIn"@, e.only_show_in);
            lemma_extend(old(out)@, acc, g);
            acc = acc + g;
        }
        emit_list(out, "NotShowIn", &self.not_show_in);
        proof {
            let g = list_line("NotShowIn"@, e.not_show_in);
            lemma_extend(old(out)@, acc, g);
            acc = acc + g;
        }
        emit_list(out, "Actions", &self.actions);
        proof {
            let g = list_line("Actions"@, e.actions);
            lemma_extend(old(out)@, acc, g);
            acc = acc + g;
        }
        emit_extras(out, &self.extra);
        proof {
            let g = extra_lines(e.extra);
            lemma_extend(old(out)@, acc, g);
            acc = acc + g;
            assert(acc == tail_lines(e));
        }
    }
}

/// Whether an icon is given as a file path rather than a theme icon name: it
/// holds a path separator.
pub fn icon_is_path(icon: &str) -> (r: bool)
    ensures
        r == icon@.contains('/'),
{
    let chars = chars_of(icon);
    let mut i: usize = 0;
    while i < chars.len()
        invariant
            i <= chars.len(),
            chars@ == icon@,
            forall|j: int| 0 <= j < i ==> chars@[j] != '/',
        decreases chars.len() - i,
    {
        if chars[i] == '/' {
            return true;
        }
        i += 1;
    }
    false
}

impl DesktopEntry {
    /// The name a new file is saved under: the entry's name, or
    /// `desktop-entry` when the name is blank.
    pub fn save_name(&self) -> (r: String)
        ensures
            trim(self.name@).len() > 0 ==> r@ == self.name@,
            trim(self.name@).len() == 0 ==> r@ == "desktop-entry"@,
    {
        if is_blank(&chars_of(self.name.as_str())) {
            String::from_str("desktop-entry")
        } else {
            self.name.clone()
        }
    }
}

impl Default for DesktopEntry {
    fn default() -> (r: DesktopEntry)
        ensures
            r@ == new_view(),
    {
        DesktopEntry::new()
    }
}

} // verus!
