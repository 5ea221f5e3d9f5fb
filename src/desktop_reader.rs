//! Reading an entry from text. Reading never fails: lines that cannot be
//! understood are dropped.
use vstd::prelude::*;

use crate::desktop_entry::{blank_view, list_view, pairs_view, DesktopEntry, EntryView};
use crate::text::{
    chars_eq_str, chars_of, copy_range, find_char, lemma_split_on_nonempty, split_on, split_once,
    string_of, trim, trim_chars,
};

verus! {

// ---------------------------------------------------------------------------
// What a line means
// ---------------------------------------------------------------------------

/// The pieces of a `;`-separated list, each trimmed, empty ones dropped.
pub open spec fn list_items(v: Seq<char>) -> Seq<Seq<char>> {
    clean_pieces(split_on(v, ';'))
}

/// Each piece trimmed, empty ones dropped, order kept.
pub open spec fn clean_pieces(ps: Seq<Seq<char>>) -> Seq<Seq<char>>
    decreases ps.len(),
{
    if ps.len() == 0 {
        Seq::empty()
    } else {
        let r = clean_pieces(ps.drop_last());
        let t = trim(ps.last());
        if t.len() > 0 {
            r.push(t)
        } else {
            r
        }
    }
}

/// `v` is the word `true`, in any mix of upper and lower case.
pub open spec fn is_true_word(v: Seq<char>) -> bool {
    &&& v.len() == 4
    &&& (v[0] == 't' || v[0] == 'T')
    &&& (v[1] == 'r' || v[1] == 'R')
    &&& (v[2] == 'u' || v[2] == 'U')
    &&& (v[3] == 'e' || v[3] == 'E')
}

/// The tag of a key `base[tag]`, if the key has that shape.
pub open spec fn localized_tag(key: Seq<char>, base: Seq<char>) -> Option<Seq<char>> {
    if key.len() >= base.len() + 2 && key.take(base.len() as int) == base && key[base.len() as int]
        == '[' && key.last() == ']' {
        Some(key.subrange(base.len() as int + 1, key.len() as int - 1))
    } else {
        None
    }
}

/// The entry after reading the pair `key=value` inside the section. A scalar
/// key overwrites; a localized key and any other key append.
pub open spec fn apply_pair(e: EntryView, key: Seq<char>, value: Seq<char>) -> EntryView {
    if key == "Type"@ {
        EntryView { type_field: value, ..e }
    } else if key == "Name"@ {
        EntryView { name: value, ..e }
    } else if key == "GenericName"@ {
        EntryView { generic_name: Some(value), ..e }
    } else if key == "Comment"@ {
        EntryView { comment: Some(value), ..e }
    } else if key == "Exec"@ {
        EntryView { exec_command: value, ..e }
    } else if key == "TryExec"@ {
        EntryView { try_exec: Some(value), ..e }
    } else if key == "Icon"@ {
        EntryView { icon: Some(value), ..e }
    } else if key == "Path"@ {
        EntryView { path: Some(value), ..e }
    } else if key == "URL"@ {
        EntryView { url: Some(value), ..e }
    } else if key == "Terminal"@ {
        EntryView { terminal: is_true_word(value), ..e }
    } else if key == "NoDisplay"@ {
        EntryView { no_display: is_true_word(value), ..e }
    } else if key == "StartupNotify"@ {
        EntryView { startup_notify: is_true_word(value), ..e }
    } else if key == "Categories"@ {
        EntryView { categories: list_items(value), ..e }
    } else if key == "MimeType"@ {
        EntryView { mime_type: list_items(value), ..e }
    } else if key == "Keywords"@ {
        EntryView { keywords: list_items(value), ..e }
    } else if key == "OnlyShowIn"@ {
        EntryView { only_show_in: list_items(value), ..e }
    } else if key == "NotShowIn"@ {
        EntryView { not_show_in: list_items(value), ..e }
    } else if key == "Actions"@ {
        EntryView { actions: list_items(value), ..e }
    } else if localized_tag(key, "Name"@) is Some {
        EntryView {
            name_localized: e.name_localized.push((localized_tag(key, "Name"@)->0, value)),
            ..e
        }
    } else if localized_tag(key, "GenericName"@) is Some {
        EntryView {
            generic_name_localized: e.generic_name_localized.push(
                (localized_tag(key, "GenericName"@)->0, value),
            ),
            ..e
        }
    } else if localized_tag(key, "Comment"@) is Some {
        EntryView {
            comment_localized: e.comment_localized.push(
                (localized_tag(key, "Comment"@)->0, value),
            ),
            ..e
        }
    } else if key.len() == 0 {
        e
    } else {
        EntryView { extra: e.extra.push((key, value)), ..e }
    }
}

/// A trimmed line that is read past: empty, a `#` comment, or, when reading
/// tolerantly, a `;` comment.
pub open spec fn is_skipped(line: Seq<char>, tolerant: bool) -> bool {
    line.len() == 0 || line[0] == '#' || (tolerant && line[0] == ';')
}

/// A trimmed line of the shape `[...]`.
pub open spec fn is_header(line: Seq<char>) -> bool {
    line.len() > 0 && line[0] == '[' && line.last() == ']'
}

/// The reading state after one more raw line: the entry so far, and whether
/// the lines are inside the `[Desktop Entry]` section.
pub open spec fn step(st: (EntryView, bool), raw: Seq<char>, tolerant: bool) -> (EntryView, bool) {
    let line = trim(raw);
    if is_skipped(line, tolerant) {
        st
    } else if is_header(line) {
        (st.0, line == "[Desktop Entry]"@)
    } else if !st.1 {
        st
    } else {
        match split_once(line, '=') {
            None => st,
            Some(kv) => (apply_pair(st.0, trim(kv.0), trim(kv.1)), true),
        }
    }
}

/// The reading state after the lines `lines`, in order.
pub open spec fn run(st: (EntryView, bool), lines: Seq<Seq<char>>, tolerant: bool) -> (
    EntryView,
    bool,
)
    decreases lines.len(),
{
    if lines.len() == 0 {
        st
    } else {
        step(run(st, lines.drop_last(), tolerant), lines.last(), tolerant)
    }
}

/// The entry, with type `Application` where none was read.
pub open spec fn with_default_type(e: EntryView) -> EntryView {
    if e.type_field.len() == 0 {
        EntryView { type_field: "Application"@, ..e }
    } else {
        e
    }
}

/// The entry that a text describes.
pub open spec fn decode(t: Seq<char>, tolerant: bool) -> EntryView {
    with_default_type(run((blank_view(), false), split_on(t, '\n'), tolerant).0)
}

// ---------------------------------------------------------------------------
// Executable reading
// ---------------------------------------------------------------------------

proof fn lemma_split_on_step(s: Seq<char>, i: int, c: char)
    requires
        0 <= i < s.len(),
    ensures
        s[i] == c ==> split_on(s.take(i + 1), c) == split_on(s.take(i), c).push(Seq::empty()),
        s[i] != c ==> split_on(s.take(i + 1), c).drop_last() == split_on(s.take(i), c).drop_last(),
        s[i] != c ==> split_on(s.take(i + 1), c).last() == split_on(s.take(i), c).last().push(s[i]),
{
    assert(s.take(i + 1).drop_last() =~= s.take(i));
    lemma_split_on_nonempty(s.take(i), c);
    let r = split_on(s.take(i), c);
    if s[i] != c {
        assert(r.update(r.len() - 1, r.last().push(s[i])).drop_last() =~= r.drop_last());
    }
}

proof fn lemma_list_view_push(v: Seq<String>, s: String)
    ensures
        list_view(v.push(s)) == list_view(v).push(s@),
{
    assert(list_view(v.push(s)) =~= list_view(v).push(s@));
}

proof fn lemma_pairs_view_push(v: Seq<(String, String)>, p: (String, String))
    ensures
        pairs_view(v.push(p)) == pairs_view(v).push((p.0@, p.1@)),
{
    assert(pairs_view(v.push(p)) =~= pairs_view(v).push((p.0@, p.1@)));
}

/// The pieces of a `;`-separated list held as characters.
fn list_items_of(v: &Vec<char>) -> (r: Vec<String>)
    ensures
        list_view(r@) == list_items(v@),
{
    let mut r: Vec<String> = Vec::new();
    let mut cur: Vec<char> = Vec::new();
    let mut i: usize = 0;
    assert(v@.take(0) =~= Seq::<char>::empty());
    assert(list_view(r@) =~= Seq::<Seq<char>>::empty());
    while i < v.len()
        invariant
            i <= v.len(),
            list_view(r@) == clean_pieces(split_on(v@.take(i as int), ';').drop_last()),
            cur@ == split_on(v@.take(i as int), ';').last(),
        decreases v.len() - i,
    {
        proof {
            lemma_split_on_step(v@, i as int, ';');
        }
        if v[i] == ';' {
            let t = trim_chars(&cur);
            let ghost ps = split_on(v@.take(i as int), ';');
            proof {
                lemma_split_on_nonempty(v@.take(i as int), ';');
                assert(ps.drop_last().push(ps.last()) =~= ps);
                assert(ps.push(Seq::<char>::empty()).drop_last() =~= ps);
            }
            if t.len() > 0 {
                let s = string_of(&t);
                proof {
                    lemma_list_view_push(r@, s);
                }
                r.push(s);
            }
            cur = Vec::new();
        } else {
            cur.push(v[i]);
        }
        i += 1;
    }
    assert(v@.take(v.len() as int) =~= v@);
    let t = trim_chars(&cur);
    let ghost ps = split_on(v@, ';');
    proof {
        lemma_split_on_nonempty(v@, ';');
        assert(ps.drop_last().push(ps.last()) =~= ps);
    }
    if t.len() > 0 {
        let s = string_of(&t);
        proof {
            lemma_list_view_push(r@, s);
        }
        r.push(s);
    }
    r
}

/// Splits a `;`-separated list: each piece trimmed, empty pieces dropped,
/// order kept.
pub fn split_semicolon(s: &str) -> (r: Vec<String>)
    ensures
        list_view(r@) == list_items(s@),
{
    list_items_of(&chars_of(s))
}

fn is_true_text(v: &Vec<char>) -> (r: bool)
    ensures
        r == is_true_word(v@),
{
    v.len() == 4 && (v[0] == 't' || v[0] == 'T') && (v[1] == 'r' || v[1] == 'R') && (v[2] == 'u'
        || v[2] == 'U') && (v[3] == 'e' || v[3] == 'E')
}

/// The tag of a key `base[tag]`, if the key has that shape.
fn localized_tag_of(key: &Vec<char>, base: &str) -> (r: Option<Vec<char>>)
    ensures
        r is Some == localized_tag(key@, base@) is Some,
        r is Some ==> r->0@ == localized_tag(key@, base@)->0,
{
    let b = chars_of(base);
    let n: usize = b.len();
    if key.len() < n || key.len() - n < 2 {
        return None;
    }
    let prefix = copy_range(key, 0, n);
    if !vec_eq(&prefix, &b) || key[n] != '[' || key[key.len() - 1] != ']' {
        return None;
    }
    Some(copy_range(key, n + 1, key.len() - 1))
}

fn vec_eq(a: &Vec<char>, b: &Vec<char>) -> (r: bool)
    ensures
        r == (a@ == b@),
{
    if a.len() != b.len() {
        return false;
    }
    let mut i: usize = 0;
    while i < a.len()
        invariant
            i <= a.len() == b.len(),
            forall|j: int| 0 <= j < i ==> a@[j] == b@[j],
        decreases a.len() - i,
    {
        if a[i] != b[i] {
            assert(a@[i as int] != b@[i as int]);
            return false;
        }
        i += 1;
    }
    assert(a@ =~= b@);
    true
}

/// Records the pair `key=value` read inside the section.
#[verifier::rlimit(50)]
fn apply_pair_to(e: &mut DesktopEntry, key: Vec<char>, value: Vec<char>)
    ensures
        final(e)@ == apply_pair(old(e)@, key@, value@),
{
    if chars_eq_str(&key, "Type") {
        e.type_field = string_of(&value);
    } else if chars_eq_str(&key, "Name") {
        e.name = string_of(&value);
    } else if chars_eq_str(&key, "GenericName") {
        e.generic_name = Some(string_of(&value));
    } else if chars_eq_str(&key, "Comment") {
        e.comment = Some(string_of(&value));
    } else if chars_eq_str(&key, "Exec") {
        e.exec_command = string_of(&value);
    } else if chars_eq_str(&key, "TryExec") {
        e.try_exec = Some(string_of(&value));
    } else if chars_eq_str(&key, "Icon") {
        e.icon = Some(string_of(&value));
    } else if chars_eq_str(&key, "Path") {
        e.path = Some(string_of(&value));
    } else if chars_eq_str(&key, "URL") {
        e.url = Some(string_of(&value));
    } else if chars_eq_str(&key, "Terminal") {
        e.terminal = is_true_text(&value);
    } else if chars_eq_str(&key, "NoDisplay") {
        e.no_display = is_true_text(&value);
    } else if chars_eq_str(&key, "StartupNotify") {
        e.startup_notify = is_true_text(&value);
    } else if chars_eq_str(&key, "Categories") {
        e.categories = list_items_of(&value);
    } else if chars_eq_str(&key, "MimeType") {
        e.mime_type = list_items_of(&value);
    } else if chars_eq_str(&key, "Keywords") {
        e.keywords = list_items_of(&value);
    } else if chars_eq_str(&key, "OnlyShowIn") {
        e.only_show_in = list_items_of(&value);
    } else if chars_eq_str(&key, "NotShowIn") {
        e.not_show_in = list_items_of(&value);
    } else if chars_eq_str(&key, "Actions") {
        e.actions = list_items_of(&value);
    } else {
        apply_other_pair(e, key, value);
    }
}

/// Records a pair whose key is none of the scalar or list keys.
fn apply_other_pair(e: &mut DesktopEntry, key: Vec<char>, value: Vec<char>)
    ensures
        final(e)@ == (if localized_tag(key@, "Name"@) is Some {
            EntryView {
                name_localized: old(e)@.name_localized.push(
                    (localized_tag(key@, "Name"@)->0, value@),
                ),
                ..old(e)@
            }
        } else if localized_tag(key@, "GenericName"@) is Some {
            EntryView {
                generic_name_localized: old(e)@.generic_name_localized.push(
                    (localized_tag(key@, "GenericName"@)->0, value@),
                ),
                ..old(e)@
            }
        } else if localized_tag(key@, "Comment"@) is Some {
            EntryView {
                comment_localized: old(e)@.comment_localized.push(
                    (localized_tag(key@, "Comment"@)->0, value@),
                ),
                ..old(e)@
            }
        } else if key@.len() == 0 {
            old(e)@
        } else {
            EntryView { extra: old(e)@.extra.push((key@, value@)), ..old(e)@ }
        }),
{
    if let Some(tag) = localized_tag_of(&key, "Name") {
        let p = (string_of(&tag), string_of(&value));
        proof {
            lemma_pairs_view_push(e.name_localized@, p);
        }
        e.name_localized.push(p);
    } else if let Some(tag) = localized_tag_of(&key, "GenericName") {
        let p = (string_of(&tag), string_of(&value));
        proof {
            lemma_pairs_view_push(e.generic_name_localized@, p);
        }
        e.generic_name_localized.push(p);
    } else if let Some(tag) = localized_tag_of(&key, "Comment") {
        let p = (string_of(&tag), string_of(&value));
        proof {
            lemma_pairs_view_push(e.comment_localized@, p);
        }
        e.comment_localized.push(p);
    } else if key.len() > 0 {
        let p = (string_of(&key), string_of(&value));
        proof {
            lemma_pairs_view_push(e.extra@, p);
        }
        e.extra.push(p);
    }
}

/// Reads one raw line.
fn read_line(e: &mut DesktopEntry, inside: &mut bool, raw: &Vec<char>, tolerant: bool)
    ensures
        (final(e)@, *final(inside)) == step((old(e)@, *old(inside)), raw@, tolerant),
{
    let line = trim_chars(raw);
    if line.len() == 0 || line[0] == '#' || (tolerant && line[0] == ';') {
        return ;
    }
    if line[0] == '[' && line[line.len() - 1] == ']' {
        *inside = chars_eq_str(&line, "[Desktop Entry]");
        return ;
    }
    if !*inside {
        return ;
    }
    match find_char(&line, '=') {
        None => {},
        Some(i) => {
            let key = trim_chars(&copy_range(&line, 0, i));
            let value = trim_chars(&copy_range(&line, i + 1, line.len()));
            apply_pair_to(e, key, value);
        },
    }
}

/// Reads an entry from text; `tolerant` also skips lines that start with `;`.
pub fn decode_text(content: &str, tolerant: bool) -> (r: DesktopEntry)
    ensures
        r@ == decode(content@, tolerant),
{
    let chars = chars_of(content);
    let mut e = DesktopEntry::blank();
    let mut inside = false;
    let mut cur: Vec<char> = Vec::new();
    let mut i: usize = 0;
    assert(chars@.take(0) =~= Seq::<char>::empty());
    while i < chars.len()
        invariant
            i <= chars.len(),
            (e@, inside) == run(
                (blank_view(), false),
                split_on(chars@.take(i as int), '\n').drop_last(),
                tolerant,
            ),
            cur@ == split_on(chars@.take(i as int), '\n').last(),
        decreases chars.len() - i,
    {
        proof {
            lemma_split_on_step(chars@, i as int, '\n');
        }
        if chars[i] == '\n' {
            let ghost ls = split_on(chars@.take(i as int), '\n');
            proof {
                lemma_split_on_nonempty(chars@.take(i as int), '\n');
                assert(ls.push(Seq::<char>::empty()).drop_last() =~= ls);
                assert(ls.drop_last().push(ls.last()) =~= ls);
                assert(ls.drop_last() == ls.drop_last());
            }
            read_line(&mut e, &mut inside, &cur, tolerant);
            cur = Vec::new();
        } else {
            cur.push(chars[i]);
        }
        i += 1;
    }
    assert(chars@.take(chars.len() as int) =~= chars@);
    let ghost ls = split_on(chars@, '\n');
    proof {
        lemma_split_on_nonempty(chars@, '\n');
        assert(ls.drop_last().push(ls.last()) =~= ls);
    }
    read_line(&mut e, &mut inside, &cur, tolerant);
    if e.type_field.as_str().unicode_len() == 0 {
        e.type_field = String::from_str("Application");
    }
    e
}

/// Reads an entry from the text of a file. Lines outside the
/// `[Desktop Entry]` section, blank lines, and comments starting with `#` or
/// `;` are dropped; the type defaults to `Application`.
pub fn parse_desktop_content(content: &str) -> (r: DesktopEntry)
    ensures
        r@ == decode(content@, true),
{
    decode_text(content, true)
}


/// Whether a file name has the extension `desktop`: it ends with `.desktop`
/// and something stands before that dot.
pub fn is_desktop_file_name(name: &str) -> (r: bool)
    ensures
        r == (name@.len() > 8 && name@.skip(name@.len() - 8) == ".desktop"@),
{
    let chars = chars_of(name);
    if chars.len() <= 8 {
        return false;
    }
    let tail = copy_range(&chars, chars.len() - 8, chars.len());
    assert(tail@ =~= name@.skip(name@.len() - 8));
    chars_eq_str(&tail, ".desktop")
}

} // verus!
