//! Laws that tie the decoder to the encoder.
//!
//! An entry is *canonical* when every field is in the form that the decoder
//! produces: texts trimmed and on one line, list items non-empty and free of
//! `;`, localized tags free of `=`, and extra keys that the decoder would read
//! back as extra keys. Decoding the canonical text of a canonical entry gives
//! the entry back, and every decoded entry is canonical.
use vstd::prelude::*;

use crate::desktop_entry::{
    validation, blank_view, bool_text, encode, entry_lines, exec_line, extra_lines, head_lines, kv,
    launch_lines, list_line, localized_key, localized_lines, opt_escaped, opt_line, opt_trimmed,
    tail_lines, EntryView,
};
use crate::desktop_reader::{
    apply_pair, clean_pieces, decode, is_header, is_skipped, is_true_word, list_items,
    localized_tag, run, step, with_default_type,
};
use crate::text::{
    lemma_trim_idempotent, index_of, lemma_index_of_props, lemma_split_on_pieces, lemma_subrange_absent,
    lemma_trim_first, lemma_trim_is_trimmed, lemma_trim_keeps_absent, lemma_trim_last,
    escape_newlines, is_trimmed, lemma_escape_id, lemma_escape_no_newline, lemma_split_once_concat,
    lemma_split_terminated, lemma_trim_id, split_on, split_once, terminated, trim,
};

verus! {

// ---------------------------------------------------------------------------
// The canonical form
// ---------------------------------------------------------------------------

/// Fits on one line as it is: no line feed, no surrounding whitespace.
pub open spec fn is_line_text(s: Seq<char>) -> bool {
    is_trimmed(s) && !s.contains('\n')
}

pub open spec fn is_opt_line_text(o: Option<Seq<char>>) -> bool {
    match o {
        Some(v) => is_line_text(v),
        None => true,
    }
}

/// A list item that reads back as itself.
pub open spec fn is_list_item(s: Seq<char>) -> bool {
    s.len() > 0 && is_line_text(s) && !s.contains(';')
}

pub open spec fn are_list_items(items: Seq<Seq<char>>) -> bool {
    forall|i: int| 0 <= i < items.len() ==> is_list_item(#[trigger] items[i])
}

/// A locale tag that reads back as itself.
pub open spec fn is_tag(s: Seq<char>) -> bool {
    !s.contains('\n') && !s.contains('=')
}

pub open spec fn are_localized_pairs(ps: Seq<(Seq<char>, Seq<char>)>) -> bool {
    forall|i: int| 0 <= i < ps.len() ==> is_tag((#[trigger] ps[i]).0) && is_line_text(ps[i].1)
}

/// The keys that the decoder maps to a field of their own.
pub open spec fn is_known_key(k: Seq<char>) -> bool {
    ||| k == "Type"@ || k == "Name"@ || k == "GenericName"@ || k == "Comment"@
    ||| k == "Exec"@ || k == "TryExec"@ || k == "Icon"@ || k == "Path"@ || k == "URL"@
    ||| k == "Terminal"@ || k == "NoDisplay"@ || k == "StartupNotify"@
    ||| k == "Categories"@ || k == "MimeType"@ || k == "Keywords"@
    ||| k == "OnlyShowIn"@ || k == "NotShowIn"@ || k == "Actions"@
}

/// An extra pair whose line `key=value` reads back as that same extra pair.
pub open spec fn is_extra_pair(k: Seq<char>, v: Seq<char>, tolerant: bool) -> bool {
    &&& k.len() > 0
    &&& is_line_text(k)
    &&& !k.contains('=')
    &&& !is_known_key(k)
    &&& localized_tag(k, "Name"@) is None
    &&& localized_tag(k, "GenericName"@) is None
    &&& localized_tag(k, "Comment"@) is None
    &&& k[0] != '#'
    &&& (tolerant ==> k[0] != ';')
    &&& !(k[0] == '[' && v.len() > 0 && v.last() == ']')
    &&& is_line_text(v)
}

pub open spec fn are_extra_pairs(ps: Seq<(Seq<char>, Seq<char>)>, tolerant: bool) -> bool {
    forall|i: int|
        0 <= i < ps.len() ==> is_extra_pair((#[trigger] ps[i]).0, ps[i].1, tolerant)
}

/// Every field of `e` except the type is in the form that the decoder
/// produces.
pub open spec fn fields_canonical(e: EntryView, tolerant: bool) -> bool {
    &&& is_line_text(e.type_field)
    &&& is_line_text(e.name)
    &&& is_opt_line_text(e.generic_name)
    &&& is_opt_line_text(e.comment)
    &&& are_localized_pairs(e.name_localized)
    &&& are_localized_pairs(e.generic_name_localized)
    &&& are_localized_pairs(e.comment_localized)
    &&& is_line_text(e.exec_command)
    &&& is_opt_line_text(e.try_exec)
    &&& is_opt_line_text(e.icon)
    &&& is_opt_line_text(e.path)
    &&& is_opt_line_text(e.url)
    &&& are_list_items(e.categories)
    &&& are_list_items(e.mime_type)
    &&& are_list_items(e.keywords)
    &&& are_list_items(e.only_show_in)
    &&& are_list_items(e.not_show_in)
    &&& are_list_items(e.actions)
    &&& are_extra_pairs(e.extra, tolerant)
}

/// Every field of `e` is in the form that the decoder produces, and a type
/// was set.
pub open spec fn is_canonical(e: EntryView, tolerant: bool) -> bool {
    e.type_field.len() > 0 && fields_canonical(e, tolerant)
}

// ---------------------------------------------------------------------------
// Reading lines one after another
// ---------------------------------------------------------------------------

proof fn lemma_run_concat(st: (EntryView, bool), a: Seq<Seq<char>>, b: Seq<Seq<char>>, tol: bool)
    ensures
        run(st, a + b, tol) == run(run(st, a, tol), b, tol),
    decreases b.len(),
{
    if b.len() == 0 {
        assert(a + b =~= a);
    } else {
        lemma_run_concat(st, a, b.drop_last(), tol);
        assert((a + b).drop_last() =~= a + b.drop_last());
        assert((a + b).last() == b.last());
    }
}

proof fn lemma_run_one(st: (EntryView, bool), l: Seq<char>, tol: bool)
    ensures
        run(st, seq![l], tol) == step(st, l, tol),
{
    assert(seq![l].drop_last() =~= Seq::<Seq<char>>::empty());
    assert(run(st, Seq::<Seq<char>>::empty(), tol) == st);
    assert(seq![l].last() == l);
}

proof fn lemma_reveal_keys()
    ensures
        "Type"@ =~= seq!['T', 'y', 'p', 'e'],
        "Name"@ =~= seq!['N', 'a', 'm', 'e'],
        "GenericName"@ =~= seq!['G', 'e', 'n', 'e', 'r', 'i', 'c', 'N', 'a', 'm', 'e'],
        "Comment"@ =~= seq!['C', 'o', 'm', 'm', 'e', 'n', 't'],
        "Exec"@ =~= seq!['E', 'x', 'e', 'c'],
        "TryExec"@ =~= seq!['T', 'r', 'y', 'E', 'x', 'e', 'c'],
        "Icon"@ =~= seq!['I', 'c', 'o', 'n'],
        "Path"@ =~= seq!['P', 'a', 't', 'h'],
        "URL"@ =~= seq!['U', 'R', 'L'],
        "Terminal"@ =~= seq!['T', 'e', 'r', 'm', 'i', 'n', 'a', 'l'],
        "NoDisplay"@ =~= seq!['N', 'o', 'D', 'i', 's', 'p', 'l', 'a', 'y'],
        "StartupNotify"@ =~= seq![
            'S',
            't',
            'a',
            'r',
            't',
            'u',
            'p',
            'N',
            'o',
            't',
            'i',
            'f',
            'y',
        ],
        "Categories"@ =~= seq!['C', 'a', 't', 'e', 'g', 'o', 'r', 'i', 'e', 's'],
        "MimeType"@ =~= seq!['M', 'i', 'm', 'e', 'T', 'y', 'p', 'e'],
        "Keywords"@ =~= seq!['K', 'e', 'y', 'w', 'o', 'r', 'd', 's'],
        "OnlyShowIn"@ =~= seq!['O', 'n', 'l', 'y', 'S', 'h', 'o', 'w', 'I', 'n'],
        "NotShowIn"@ =~= seq!['N', 'o', 't', 'S', 'h', 'o', 'w', 'I', 'n'],
        "Actions"@ =~= seq!['A', 'c', 't', 'i', 'o', 'n', 's'],
        "true"@ =~= seq!['t', 'r', 'u', 'e'],
        "false"@ =~= seq!['f', 'a', 'l', 's', 'e'],
        "Application"@ =~= seq!['A', 'p', 'p', 'l', 'i', 'c', 'a', 't', 'i', 'o', 'n'],
        "[Desktop Entry]"@ =~= seq![
            '[',
            'D',
            'e',
            's',
            'k',
            't',
            'o',
            'p',
            ' ',
            'E',
            'n',
            't',
            'r',
            'y',
            ']',
        ],
{
    reveal_strlit("Type");
    reveal_strlit("Name");
    reveal_strlit("GenericName");
    reveal_strlit("Comment");
    reveal_strlit("Exec");
    reveal_strlit("TryExec");
    reveal_strlit("Icon");
    reveal_strlit("Path");
    reveal_strlit("URL");
    reveal_strlit("Terminal");
    reveal_strlit("NoDisplay");
    reveal_strlit("StartupNotify");
    reveal_strlit("Categories");
    reveal_strlit("MimeType");
    reveal_strlit("Keywords");
    reveal_strlit("OnlyShowIn");
    reveal_strlit("NotShowIn");
    reveal_strlit("Actions");
    reveal_strlit("true");
    reveal_strlit("false");
    reveal_strlit("Application");
    reveal_strlit("[Desktop Entry]");
}

/// Inside the section, the line `key=value` of a well-shaped key records the
/// pair.
proof fn lemma_step_kv(st: (EntryView, bool), key: Seq<char>, value: Seq<char>, tol: bool)
    requires
        st.1,
        key.len() > 0,
        is_trimmed(key),
        is_trimmed(value),
        !key.contains('='),
        key[0] != '#',
        tol ==> key[0] != ';',
        !(key[0] == '[' && value.len() > 0 && value.last() == ']'),
    ensures
        step(st, kv(key, value), tol) == (apply_pair(st.0, key, value), true),
{
    let line = kv(key, value);
    assert(line[0] == key[0]);
    if value.len() > 0 {
        assert(line.last() == value.last());
    } else {
        assert(line.last() == '=');
    }
    lemma_trim_id(line);
    assert(!is_skipped(line, tol));
    assert(!is_header(line));
    lemma_split_once_concat(key, value, '=');
    lemma_trim_id(key);
    lemma_trim_id(value);
}


// ---------------------------------------------------------------------------
// Keys and lines
// ---------------------------------------------------------------------------

pub open spec fn is_letter(c: char) -> bool {
    ('A' <= c && c <= 'Z') || ('a' <= c && c <= 'z')
}

/// A non-empty run of ASCII letters, as every recognised key is.
pub open spec fn is_word(k: Seq<char>) -> bool {
    k.len() > 0 && forall|i: int| 0 <= i < k.len() ==> is_letter(#[trigger] k[i])
}

proof fn lemma_word(k: Seq<char>)
    requires
        is_word(k),
    ensures
        is_trimmed(k),
        !k.contains('='),
        !k.contains('\n'),
        k[0] != '#',
        k[0] != ';',
        k[0] != '[',
        k.last() != ']',
{
    assert(is_letter(k[0]));
    assert(is_letter(k[k.len() - 1]));
    if k.contains('=') {
        let i = choose|i: int| 0 <= i < k.len() && k[i] == '=';
        assert(is_letter(k[i]));
    }
    if k.contains('\n') {
        let i = choose|i: int| 0 <= i < k.len() && k[i] == '\n';
        assert(is_letter(k[i]));
    }
}

proof fn lemma_keys_are_words()
    ensures
        is_word("Type"@),
        is_word("Name"@),
        is_word("GenericName"@),
        is_word("Comment"@),
        is_word("Exec"@),
        is_word("TryExec"@),
        is_word("Icon"@),
        is_word("Path"@),
        is_word("URL"@),
        is_word("Terminal"@),
        is_word("NoDisplay"@),
        is_word("StartupNotify"@),
        is_word("Categories"@),
        is_word("MimeType"@),
        is_word("Keywords"@),
        is_word("OnlyShowIn"@),
        is_word("NotShowIn"@),
        is_word("Actions"@),
{
    lemma_reveal_keys();
}

/// Inside the section, the line `key=value` of a recognised key records the
/// pair.
proof fn lemma_step_word(st: (EntryView, bool), key: Seq<char>, value: Seq<char>, tol: bool)
    requires
        st.1,
        is_word(key),
        is_trimmed(value),
    ensures
        step(st, kv(key, value), tol) == (apply_pair(st.0, key, value), true),
{
    lemma_word(key);
    lemma_step_kv(st, key, value, tol);
}

/// No line of `ls` holds a line feed.
pub open spec fn single_lines(ls: Seq<Seq<char>>) -> bool {
    forall|i: int| 0 <= i < ls.len() ==> !(#[trigger] ls[i]).contains('\n')
}

proof fn lemma_single_lines_concat(a: Seq<Seq<char>>, b: Seq<Seq<char>>)
    requires
        single_lines(a),
        single_lines(b),
    ensures
        single_lines(a + b),
{
    assert forall|i: int| 0 <= i < (a + b).len() implies !(#[trigger] (a + b)[i]).contains('\n') by {
        if i < a.len() {
            assert((a + b)[i] == a[i]);
        } else {
            assert((a + b)[i] == b[i - a.len()]);
        }
    }
}

proof fn lemma_absent_concat(a: Seq<char>, b: Seq<char>, c: char)
    requires
        !a.contains(c),
        !b.contains(c),
    ensures
        !(a + b).contains(c),
{
    if (a + b).contains(c) {
        let i = choose|i: int| 0 <= i < (a + b).len() && (a + b)[i] == c;
        if i < a.len() {
            assert(a[i] == c);
        } else {
            assert(b[i - a.len()] == c);
        }
    }
}

proof fn lemma_kv_single_line(key: Seq<char>, value: Seq<char>)
    requires
        !key.contains('\n'),
        !value.contains('\n'),
    ensures
        !kv(key, value).contains('\n'),
{
    assert(!seq!['='].contains('\n')) by {
        if seq!['='].contains('\n') {
            let i = choose|i: int| 0 <= i < 1 && seq!['='][i] == '\n';
        }
    }
    lemma_absent_concat(key, seq!['='], '\n');
    lemma_absent_concat(key + seq!['='], value, '\n');
}

// ---------------------------------------------------------------------------
// Localized variants
// ---------------------------------------------------------------------------

/// One of the three bases that carry localized variants.
pub open spec fn is_localized_base(base: Seq<char>) -> bool {
    base == "Name"@ || base == "GenericName"@ || base == "Comment"@
}

/// The localized variants that belong to `base`.
pub open spec fn localized_of(e: EntryView, base: Seq<char>) -> Seq<(Seq<char>, Seq<char>)> {
    if base == "Name"@ {
        e.name_localized
    } else if base == "GenericName"@ {
        e.generic_name_localized
    } else {
        e.comment_localized
    }
}

/// `e` with the localized variants of `base` replaced.
pub open spec fn with_localized(
    e: EntryView,
    base: Seq<char>,
    ps: Seq<(Seq<char>, Seq<char>)>,
) -> EntryView {
    if base == "Name"@ {
        EntryView { name_localized: ps, ..e }
    } else if base == "GenericName"@ {
        EntryView { generic_name_localized: ps, ..e }
    } else {
        EntryView { comment_localized: ps, ..e }
    }
}

proof fn lemma_localized_key(base: Seq<char>, tag: Seq<char>)
    requires
        is_localized_base(base),
        is_tag(tag),
    ensures
        localized_key(base, tag).len() > 0,
        is_trimmed(localized_key(base, tag)),
        !localized_key(base, tag).contains('='),
        !localized_key(base, tag).contains('\n'),
        localized_key(base, tag)[0] != '#',
        localized_key(base, tag)[0] != ';',
        localized_key(base, tag)[0] != '[',
{
    lemma_keys_are_words();
    lemma_word(base);
    let k = localized_key(base, tag);
    assert(k[0] == base[0]);
    assert(k.last() == ']');
    assert(!seq!['['].contains('=') && !seq!['['].contains('\n')) by {
        if seq!['['].contains('=') || seq!['['].contains('\n') {
            let i = choose|i: int| 0 <= i < 1 && (seq!['['][i] == '=' || seq!['['][i] == '\n');
        }
    }
    assert(!seq![']'].contains('=') && !seq![']'].contains('\n')) by {
        if seq![']'].contains('=') || seq![']'].contains('\n') {
            let i = choose|i: int| 0 <= i < 1 && (seq![']'][i] == '=' || seq![']'][i] == '\n');
        }
    }
    lemma_absent_concat(base, seq!['['], '=');
    lemma_absent_concat(base + seq!['['], tag, '=');
    lemma_absent_concat(base + seq!['['] + tag, seq![']'], '=');
    lemma_absent_concat(base, seq!['['], '\n');
    lemma_absent_concat(base + seq!['['], tag, '\n');
    lemma_absent_concat(base + seq!['['] + tag, seq![']'], '\n');
}

/// Reading the key `base[tag]` appends to the variants of `base`.
#[verifier::rlimit(50)]
proof fn lemma_apply_localized(e: EntryView, base: Seq<char>, tag: Seq<char>, v: Seq<char>)
    requires
        is_localized_base(base),
    ensures
        apply_pair(e, localized_key(base, tag), v) == with_localized(
            e,
            base,
            localized_of(e, base).push((tag, v)),
        ),
{
    lemma_reveal_keys();
    let k = localized_key(base, tag);
    assert(k.last() == ']');
    assert(!is_known_key(k));
    let n = base.len() as int;
    assert(k.take(n) =~= base);
    assert(k[n] == '[');
    assert(k.subrange(n + 1, k.len() - 1) =~= tag);
    if base == "GenericName"@ {
        assert(k[0] == 'G');
        assert(localized_tag(k, "Name"@) is None) by {
            if k.len() >= 6 && k.take(4) == "Name"@ {
                assert(k.take(4)[0] == 'N');
            }
        }
    } else if base == "Comment"@ {
        assert(k[0] == 'C');
        assert(localized_tag(k, "Name"@) is None) by {
            if k.len() >= 6 && k.take(4) == "Name"@ {
                assert(k.take(4)[0] == 'N');
            }
        }
        assert(localized_tag(k, "GenericName"@) is None) by {
            if k.len() >= 13 && k.take(11) == "GenericName"@ {
                assert(k.take(11)[0] == 'G');
            }
        }
    }
}

/// Reading the localized lines of canonical variants appends them.
proof fn lemma_run_localized(
    st: (EntryView, bool),
    base: Seq<char>,
    ps: Seq<(Seq<char>, Seq<char>)>,
    tol: bool,
)
    requires
        st.1,
        is_localized_base(base),
        are_localized_pairs(ps),
    ensures
        run(st, localized_lines(base, ps), tol) == (
            with_localized(st.0, base, localized_of(st.0, base) + ps),
            true,
        ),
        single_lines(localized_lines(base, ps)),
    decreases ps.len(),
{
    lemma_reveal_keys();
    let ls = localized_lines(base, ps);
    if ps.len() == 0 {
        assert(ls =~= Seq::<Seq<char>>::empty());
        assert(localized_of(st.0, base) + ps =~= localized_of(st.0, base));
    } else {
        let init = ps.drop_last();
        let p = ps.last();
        assert(is_tag(ps[ps.len() - 1].0) && is_line_text(ps[ps.len() - 1].1));
        lemma_run_localized(st, base, init, tol);
        assert(ls.drop_last() =~= localized_lines(base, init));
        let mid = run(st, localized_lines(base, init), tol);
        let x = mid.0;
        lemma_escape_id(p.1);
        lemma_localized_key(base, p.0);
        assert(ls.last() == kv(localized_key(base, p.0), p.1));
        lemma_step_kv(mid, localized_key(base, p.0), p.1, tol);
        lemma_apply_localized(x, base, p.0, p.1);
        assert(localized_of(x, base) == localized_of(st.0, base) + init);
        assert(localized_of(st.0, base) + init.push(p) =~= localized_of(st.0, base) + ps);
        assert(init.push(p) =~= ps);
        assert forall|i: int| 0 <= i < ls.len() implies !(#[trigger] ls[i]).contains('\n') by {
            let q = ps[i];
            assert(is_tag(q.0));
            lemma_localized_key(base, q.0);
            lemma_escape_no_newline(q.1);
            lemma_kv_single_line(localized_key(base, q.0), escape_newlines(q.1));
        }
    }
}


// ---------------------------------------------------------------------------
// Lists, optional texts and extra pairs
// ---------------------------------------------------------------------------

proof fn lemma_clean_id(items: Seq<Seq<char>>)
    requires
        are_list_items(items),
    ensures
        clean_pieces(items) == items,
    decreases items.len(),
{
    if items.len() > 0 {
        assert(is_list_item(items[items.len() - 1]));
        lemma_trim_id(items.last());
        lemma_clean_id(items.drop_last());
        assert(items.drop_last().push(items.last()) =~= items);
    }
}

proof fn lemma_terminated_shape(items: Seq<Seq<char>>)
    requires
        are_list_items(items),
    ensures
        !terminated(items, ';').contains('\n'),
        items.len() > 0 ==> terminated(items, ';').len() > 0 && terminated(items, ';')[0]
            == items[0][0] && terminated(items, ';').last() == ';',
    decreases items.len(),
{
    if items.len() > 0 {
        let init = items.drop_last();
        assert(is_list_item(items[items.len() - 1]));
        lemma_terminated_shape(init);
        assert(!seq![';'].contains('\n')) by {
            if seq![';'].contains('\n') {
                let i = choose|i: int| 0 <= i < 1 && seq![';'][i] == '\n';
            }
        }
        lemma_absent_concat(terminated(init, ';'), items.last(), '\n');
        lemma_absent_concat(terminated(init, ';') + items.last(), seq![';'], '\n');
        if init.len() > 0 {
            assert(init[0] == items[0]);
        } else {
            assert(terminated(init, ';') =~= Seq::<char>::empty());
        }
    }
}

/// Reading the joined form of canonical list items gives the items back.
proof fn lemma_list_items_terminated(items: Seq<Seq<char>>)
    requires
        are_list_items(items),
    ensures
        list_items(terminated(items, ';')) == items,
{
    assert forall|i: int| 0 <= i < items.len() implies !(#[trigger] items[i]).contains(';') by {
        assert(is_list_item(items[i]));
    }
    assert(!Seq::<char>::empty().contains(';'));
    lemma_split_terminated(items, Seq::empty(), ';');
    assert(terminated(items, ';') + Seq::<char>::empty() =~= terminated(items, ';'));
    assert(items.push(Seq::<char>::empty()).drop_last() =~= items);
    assert(trim(Seq::<char>::empty()) =~= Seq::<char>::empty());
    lemma_clean_id(items);
}

proof fn lemma_run_list_line(st: (EntryView, bool), key: Seq<char>, items: Seq<Seq<char>>, tol: bool)
    requires
        st.1,
        is_word(key),
        are_list_items(items),
    ensures
        items.len() > 0 ==> run(st, list_line(key, items), tol) == (
            apply_pair(st.0, key, items_text(items)),
            true,
        ),
        items.len() == 0 ==> run(st, list_line(key, items), tol) == st,
        list_items(items_text(items)) == items,
        single_lines(list_line(key, items)),
{
    lemma_list_items_terminated(items);
    lemma_terminated_shape(items);
    lemma_word(key);
    if items.len() > 0 {
        assert(is_list_item(items[0]));
        let v = terminated(items, ';');
        lemma_run_one(st, kv(key, v), tol);
        lemma_step_word(st, key, v, tol);
        lemma_kv_single_line(key, v);
    } else {
        assert(list_line(key, items) =~= Seq::<Seq<char>>::empty());
    }
}

/// The value of a list line.
pub open spec fn items_text(items: Seq<Seq<char>>) -> Seq<char> {
    terminated(items, ';')
}

proof fn lemma_run_opt(st: (EntryView, bool), key: Seq<char>, o: Option<Seq<char>>, tol: bool)
    requires
        st.1,
        is_word(key),
        is_opt_line_text(o),
    ensures
        o is Some ==> run(st, opt_line(key, o), tol) == (apply_pair(st.0, key, o->0), true),
        o is None ==> run(st, opt_line(key, o), tol) == st,
        single_lines(opt_line(key, o)),
{
    lemma_word(key);
    match o {
        Some(v) => {
            lemma_run_one(st, kv(key, v), tol);
            lemma_step_word(st, key, v, tol);
            lemma_kv_single_line(key, v);
        },
        None => {},
    }
}

proof fn lemma_opt_forms(o: Option<Seq<char>>)
    requires
        is_opt_line_text(o),
    ensures
        opt_escaped(o) == o,
        opt_trimmed(o) == o,
{
    if let Some(v) = o {
        lemma_escape_id(v);
        lemma_trim_id(v);
    }
}

/// Reading the lines of canonical extra pairs appends them.
proof fn lemma_run_extras(st: (EntryView, bool), ps: Seq<(Seq<char>, Seq<char>)>, tol: bool)
    requires
        st.1,
        are_extra_pairs(ps, tol),
    ensures
        run(st, extra_lines(ps), tol) == (EntryView { extra: st.0.extra + ps, ..st.0 }, true),
        single_lines(extra_lines(ps)),
    decreases ps.len(),
{
    if ps.len() == 0 {
        assert(st.0.extra + ps =~= st.0.extra);
    } else {
        let init = ps.drop_last();
        let p = ps.last();
        assert(is_extra_pair(ps[ps.len() - 1].0, ps[ps.len() - 1].1, tol));
        lemma_run_extras(st, init, tol);
        lemma_trim_id(p.0);
        lemma_trim_id(p.1);
        let ls = extra_lines(ps);
        assert(ls == extra_lines(init).push(kv(p.0, p.1)));
        assert(ls.drop_last() =~= extra_lines(init));
        let mid = run(st, extra_lines(init), tol);
        lemma_step_kv(mid, p.0, p.1, tol);
        assert(st.0.extra + init.push(p) =~= st.0.extra + ps);
        assert(init.push(p) =~= ps);
        lemma_kv_single_line(p.0, p.1);
        assert forall|i: int| 0 <= i < ls.len() implies !(#[trigger] ls[i]).contains('\n') by {
            if i < ls.len() - 1 {
                assert(ls[i] == extra_lines(init)[i]);
            }
        }
    }
}


// ---------------------------------------------------------------------------
// Reading the canonical text back
// ---------------------------------------------------------------------------

/// What the decoder knows after the display-text lines.
pub open spec fn head_view(e: EntryView) -> EntryView {
    EntryView {
        type_field: e.type_field,
        name: e.name,
        generic_name: e.generic_name,
        comment: e.comment,
        name_localized: e.name_localized,
        generic_name_localized: e.generic_name_localized,
        comment_localized: e.comment_localized,
        ..blank_view()
    }
}

/// What the decoder knows after the launch lines.
pub open spec fn launch_view(e: EntryView) -> EntryView {
    EntryView {
        exec_command: e.exec_command,
        try_exec: e.try_exec,
        icon: e.icon,
        path: e.path,
        url: e.url,
        terminal: e.terminal,
        no_display: e.no_display,
        startup_notify: e.startup_notify,
        ..head_view(e)
    }
}

proof fn lemma_bool_text(b: bool)
    ensures
        is_true_word(bool_text(b)) == b,
        is_trimmed(bool_text(b)),
        !bool_text(b).contains('\n'),
{
    lemma_reveal_keys();
    if bool_text(b).contains('\n') {
        let i = choose|i: int| 0 <= i < bool_text(b).len() && bool_text(b)[i] == '\n';
    }
}

#[verifier::rlimit(80)]
proof fn lemma_run_head(e: EntryView, tol: bool)
    requires
        fields_canonical(e, tol),
    ensures
        run((blank_view(), false), head_lines(e), tol) == (head_view(e), true),
        single_lines(head_lines(e)),
{
    lemma_reveal_keys();
    lemma_keys_are_words();
    let s0 = (blank_view(), false);
    let hdr = "[Desktop Entry]"@;
    let g1 = seq![hdr];
    let g2 = g1 + seq![kv("Type"@, e.type_field)];
    let g3 = g2 + seq![kv("Name"@, escape_newlines(e.name))];
    let g4 = g3 + localized_lines("Name"@, e.name_localized);
    let g5 = g4 + opt_line("GenericName"@, opt_escaped(e.generic_name));
    let g6 = g5 + localized_lines("GenericName"@, e.generic_name_localized);
    let g7 = g6 + opt_line("Comment"@, opt_escaped(e.comment));
    let g8 = g7 + localized_lines("Comment"@, e.comment_localized);
    assert(g8 == head_lines(e));
    // the header opens the section
    lemma_run_one(s0, hdr, tol);
    lemma_trim_id(hdr);
    let s1 = (blank_view(), true);
    assert(run(s0, g1, tol) == s1);
    // type and name
    lemma_run_concat(s0, g1, seq![kv("Type"@, e.type_field)], tol);
    lemma_run_one(s1, kv("Type"@, e.type_field), tol);
    lemma_step_word(s1, "Type"@, e.type_field, tol);
    let x2 = EntryView { type_field: e.type_field, ..blank_view() };
    assert(run(s0, g2, tol) == (x2, true));
    lemma_escape_id(e.name);
    lemma_run_concat(s0, g2, seq![kv("Name"@, e.name)], tol);
    lemma_run_one((x2, true), kv("Name"@, e.name), tol);
    lemma_step_word((x2, true), "Name"@, e.name, tol);
    let x3 = EntryView { name: e.name, ..x2 };
    assert(run(s0, g3, tol) == (x3, true));
    // localized names
    lemma_run_concat(s0, g3, localized_lines("Name"@, e.name_localized), tol);
    lemma_run_localized((x3, true), "Name"@, e.name_localized, tol);
    assert(Seq::<(Seq<char>, Seq<char>)>::empty() + e.name_localized =~= e.name_localized);
    let x4 = EntryView { name_localized: e.name_localized, ..x3 };
    assert(run(s0, g4, tol) == (x4, true));
    // generic name
    lemma_opt_forms(e.generic_name);
    lemma_run_concat(s0, g4, opt_line("GenericName"@, e.generic_name), tol);
    lemma_run_opt((x4, true), "GenericName"@, e.generic_name, tol);
    let x5 = EntryView { generic_name: e.generic_name, ..x4 };
    assert(run(s0, g5, tol) == (x5, true));
    lemma_run_concat(s0, g5, localized_lines("GenericName"@, e.generic_name_localized), tol);
    lemma_run_localized((x5, true), "GenericName"@, e.generic_name_localized, tol);
    assert(Seq::<(Seq<char>, Seq<char>)>::empty() + e.generic_name_localized
        =~= e.generic_name_localized);
    let x6 = EntryView { generic_name_localized: e.generic_name_localized, ..x5 };
    assert(run(s0, g6, tol) == (x6, true));
    // comment
    lemma_opt_forms(e.comment);
    lemma_run_concat(s0, g6, opt_line("Comment"@, e.comment), tol);
    lemma_run_opt((x6, true), "Comment"@, e.comment, tol);
    let x7 = EntryView { comment: e.comment, ..x6 };
    assert(run(s0, g7, tol) == (x7, true));
    lemma_run_concat(s0, g7, localized_lines("Comment"@, e.comment_localized), tol);
    lemma_run_localized((x7, true), "Comment"@, e.comment_localized, tol);
    assert(Seq::<(Seq<char>, Seq<char>)>::empty() + e.comment_localized =~= e.comment_localized);
    let x8 = EntryView { comment_localized: e.comment_localized, ..x7 };
    assert(run(s0, g8, tol) == (x8, true));
    assert(x8 == head_view(e));
    // no line holds a line feed
    assert(single_lines(g1)) by {
        assert(!hdr.contains('\n')) by {
            if hdr.contains('\n') {
                let i = choose|i: int| 0 <= i < hdr.len() && hdr[i] == '\n';
            }
        }
    }
    lemma_word("Type"@);
    lemma_word("Name"@);
    lemma_kv_single_line("Type"@, e.type_field);
    lemma_kv_single_line("Name"@, e.name);
    lemma_single_lines_concat(g1, seq![kv("Type"@, e.type_field)]);
    lemma_single_lines_concat(g2, seq![kv("Name"@, e.name)]);
    lemma_single_lines_concat(g3, localized_lines("Name"@, e.name_localized));
    lemma_single_lines_concat(g4, opt_line("GenericName"@, e.generic_name));
    lemma_single_lines_concat(g5, localized_lines("GenericName"@, e.generic_name_localized));
    lemma_single_lines_concat(g6, opt_line("Comment"@, e.comment));
    lemma_single_lines_concat(g7, localized_lines("Comment"@, e.comment_localized));
}


#[verifier::rlimit(80)]
proof fn lemma_run_launch(e: EntryView, tol: bool)
    requires
        fields_canonical(e, tol),
    ensures
        run((head_view(e), true), launch_lines(e), tol) == (launch_view(e), true),
        single_lines(launch_lines(e)),
{
    lemma_reveal_keys();
    lemma_keys_are_words();
    let s0 = (head_view(e), true);
    lemma_trim_id(e.exec_command);
    lemma_opt_forms(e.try_exec);
    lemma_opt_forms(e.icon);
    lemma_opt_forms(e.path);
    lemma_opt_forms(e.url);
    let g1 = exec_line(e);
    let g2 = g1 + opt_line("TryExec"@, e.try_exec);
    let g3 = g2 + opt_line("Icon"@, e.icon);
    let g4 = g3 + opt_line("Path"@, e.path);
    let g5 = g4 + opt_line("URL"@, e.url);
    let g6 = g5 + seq![kv("Terminal"@, bool_text(e.terminal))];
    let g7 = g6 + seq![kv("NoDisplay"@, bool_text(e.no_display))];
    let g8 = g7 + seq![kv("StartupNotify"@, bool_text(e.startup_notify))];
    assert(g8 == launch_lines(e));
    // the command
    let x1 = EntryView { exec_command: e.exec_command, ..head_view(e) };
    lemma_word("Exec"@);
    if e.exec_command.len() > 0 {
        lemma_run_one(s0, kv("Exec"@, e.exec_command), tol);
        lemma_step_word(s0, "Exec"@, e.exec_command, tol);
        lemma_kv_single_line("Exec"@, e.exec_command);
    } else {
        assert(e.exec_command =~= Seq::<char>::empty());
        assert(g1 =~= Seq::<Seq<char>>::empty());
    }
    assert(run(s0, g1, tol) == (x1, true));
    // the optional texts
    lemma_run_concat(s0, g1, opt_line("TryExec"@, e.try_exec), tol);
    lemma_run_opt((x1, true), "TryExec"@, e.try_exec, tol);
    let x2 = EntryView { try_exec: e.try_exec, ..x1 };
    assert(run(s0, g2, tol) == (x2, true));
    lemma_run_concat(s0, g2, opt_line("Icon"@, e.icon), tol);
    lemma_run_opt((x2, true), "Icon"@, e.icon, tol);
    let x3 = EntryView { icon: e.icon, ..x2 };
    assert(run(s0, g3, tol) == (x3, true));
    lemma_run_concat(s0, g3, opt_line("Path"@, e.path), tol);
    lemma_run_opt((x3, true), "Path"@, e.path, tol);
    let x4 = EntryView { path: e.path, ..x3 };
    assert(run(s0, g4, tol) == (x4, true));
    lemma_run_concat(s0, g4, opt_line("URL"@, e.url), tol);
    lemma_run_opt((x4, true), "URL"@, e.url, tol);
    let x5 = EntryView { url: e.url, ..x4 };
    assert(run(s0, g5, tol) == (x5, true));
    // the flags
    lemma_bool_text(e.terminal);
    lemma_bool_text(e.no_display);
    lemma_bool_text(e.startup_notify);
    lemma_run_concat(s0, g5, seq![kv("Terminal"@, bool_text(e.terminal))], tol);
    lemma_run_one((x5, true), kv("Terminal"@, bool_text(e.terminal)), tol);
    lemma_step_word((x5, true), "Terminal"@, bool_text(e.terminal), tol);
    let x6 = EntryView { terminal: e.terminal, ..x5 };
    assert(run(s0, g6, tol) == (x6, true));
    lemma_run_concat(s0, g6, seq![kv("NoDisplay"@, bool_text(e.no_display))], tol);
    lemma_run_one((x6, true), kv("NoDisplay"@, bool_text(e.no_display)), tol);
    lemma_step_word((x6, true), "NoDisplay"@, bool_text(e.no_display), tol);
    let x7 = EntryView { no_display: e.no_display, ..x6 };
    assert(run(s0, g7, tol) == (x7, true));
    lemma_run_concat(s0, g7, seq![kv("StartupNotify"@, bool_text(e.startup_notify))], tol);
    lemma_run_one((x7, true), kv("StartupNotify"@, bool_text(e.startup_notify)), tol);
    lemma_step_word((x7, true), "StartupNotify"@, bool_text(e.startup_notify), tol);
    let x8 = EntryView { startup_notify: e.startup_notify, ..x7 };
    assert(run(s0, g8, tol) == (x8, true));
    assert(x8 == launch_view(e));
    // no line holds a line feed
    lemma_word("Terminal"@);
    lemma_word("NoDisplay"@);
    lemma_word("StartupNotify"@);
    lemma_kv_single_line("Terminal"@, bool_text(e.terminal));
    lemma_kv_single_line("NoDisplay"@, bool_text(e.no_display));
    lemma_kv_single_line("StartupNotify"@, bool_text(e.startup_notify));
    lemma_single_lines_concat(g1, opt_line("TryExec"@, e.try_exec));
    lemma_single_lines_concat(g2, opt_line("Icon"@, e.icon));
    lemma_single_lines_concat(g3, opt_line("Path"@, e.path));
    lemma_single_lines_concat(g4, opt_line("URL"@, e.url));
    lemma_single_lines_concat(g5, seq![kv("Terminal"@, bool_text(e.terminal))]);
    lemma_single_lines_concat(g6, seq![kv("NoDisplay"@, bool_text(e.no_display))]);
    lemma_single_lines_concat(g7, seq![kv("StartupNotify"@, bool_text(e.startup_notify))]);
}

proof fn lemma_empty_list_view(items: Seq<Seq<char>>)
    requires
        items.len() == 0,
    ensures
        items == Seq::<Seq<char>>::empty(),
{
    assert(items =~= Seq::<Seq<char>>::empty());
}

#[verifier::rlimit(80)]
proof fn lemma_run_tail(e: EntryView, tol: bool)
    requires
        fields_canonical(e, tol),
    ensures
        run((launch_view(e), true), tail_lines(e), tol) == (e, true),
        single_lines(tail_lines(e)),
{
    lemma_reveal_keys();
    lemma_keys_are_words();
    let s0 = (launch_view(e), true);
    let g1 = list_line("Categories"@, e.categories);
    let g2 = g1 + list_line("MimeType"@, e.mime_type);
    let g3 = g2 + list_line("Keywords"@, e.keywords);
    let g4 = g3 + list_line("OnlyShowIn"@, e.only_show_in);
    let g5 = g4 + list_line("NotShowIn"@, e.not_show_in);
    let g6 = g5 + list_line("Actions"@, e.actions);
    let g7 = g6 + extra_lines(e.extra);
    assert(g7 == tail_lines(e));
    lemma_run_list_line(s0, "Categories"@, e.categories, tol);
    if e.categories.len() == 0 {
        lemma_empty_list_view(e.categories);
    }
    let x1 = EntryView { categories: e.categories, ..launch_view(e) };
    assert(run(s0, g1, tol) == (x1, true));
    lemma_run_concat(s0, g1, list_line("MimeType"@, e.mime_type), tol);
    lemma_run_list_line((x1, true), "MimeType"@, e.mime_type, tol);
    if e.mime_type.len() == 0 {
        lemma_empty_list_view(e.mime_type);
    }
    let x2 = EntryView { mime_type: e.mime_type, ..x1 };
    assert(run(s0, g2, tol) == (x2, true));
    lemma_run_concat(s0, g2, list_line("Keywords"@, e.keywords), tol);
    lemma_run_list_line((x2, true), "Keywords"@, e.keywords, tol);
    if e.keywords.len() == 0 {
        lemma_empty_list_view(e.keywords);
    }
    let x3 = EntryView { keywords: e.keywords, ..x2 };
    assert(run(s0, g3, tol) == (x3, true));
    lemma_run_concat(s0, g3, list_line("OnlyShowIn"@, e.only_show_in), tol);
    lemma_run_list_line((x3, true), "OnlyShowIn"@, e.only_show_in, tol);
    if e.only_show_in.len() == 0 {
        lemma_empty_list_view(e.only_show_in);
    }
    let x4 = EntryView { only_show_in: e.only_show_in, ..x3 };
    assert(run(s0, g4, tol) == (x4, true));
    lemma_run_concat(s0, g4, list_line("NotShowIn"@, e.not_show_in), tol);
    lemma_run_list_line((x4, true), "NotShowIn"@, e.not_show_in, tol);
    if e.not_show_in.len() == 0 {
        lemma_empty_list_view(e.not_show_in);
    }
    let x5 = EntryView { not_show_in: e.not_show_in, ..x4 };
    assert(run(s0, g5, tol) == (x5, true));
    lemma_run_concat(s0, g5, list_line("Actions"@, e.actions), tol);
    lemma_run_list_line((x5, true), "Actions"@, e.actions, tol);
    if e.actions.len() == 0 {
        lemma_empty_list_view(e.actions);
    }
    let x6 = EntryView { actions: e.actions, ..x5 };
    assert(run(s0, g6, tol) == (x6, true));
    lemma_run_concat(s0, g6, extra_lines(e.extra), tol);
    lemma_run_extras((x6, true), e.extra, tol);
    assert(Seq::<(Seq<char>, Seq<char>)>::empty() + e.extra =~= e.extra);
    let x7 = EntryView { extra: e.extra, ..x6 };
    assert(run(s0, g7, tol) == (x7, true));
    assert(x7 == e);
    lemma_single_lines_concat(g1, list_line("MimeType"@, e.mime_type));
    lemma_single_lines_concat(g2, list_line("Keywords"@, e.keywords));
    lemma_single_lines_concat(g3, list_line("OnlyShowIn"@, e.only_show_in));
    lemma_single_lines_concat(g4, list_line("NotShowIn"@, e.not_show_in));
    lemma_single_lines_concat(g5, list_line("Actions"@, e.actions));
    lemma_single_lines_concat(g6, extra_lines(e.extra));
}

/// Decoding the canonical text of a canonical entry gives the entry back.
pub proof fn lemma_decode_encode(e: EntryView, tolerant: bool)
    requires
        is_canonical(e, tolerant),
    ensures
        decode(encode(e), tolerant) == e,
{
    let ls = entry_lines(e);
    let s0 = (blank_view(), false);
    lemma_run_head(e, tolerant);
    lemma_run_launch(e, tolerant);
    lemma_run_tail(e, tolerant);
    lemma_single_lines_concat(head_lines(e), launch_lines(e));
    lemma_single_lines_concat(head_lines(e) + launch_lines(e), tail_lines(e));
    lemma_run_concat(s0, head_lines(e), launch_lines(e), tolerant);
    lemma_run_concat(s0, head_lines(e) + launch_lines(e), tail_lines(e), tolerant);
    assert(run(s0, ls, tolerant) == (e, true));
    assert(!Seq::<char>::empty().contains('\n'));
    lemma_split_terminated(ls, Seq::empty(), '\n');
    assert(terminated(ls, '\n') + Seq::<char>::empty() =~= terminated(ls, '\n'));
    let lines = split_on(encode(e), '\n');
    assert(lines == ls.push(Seq::<char>::empty()));
    assert(lines.drop_last() =~= ls);
    assert(trim(Seq::<char>::empty()) =~= Seq::<char>::empty());
    assert(run(s0, lines, tolerant) == (e, true));
}


// ---------------------------------------------------------------------------
// Every decoded entry is canonical
// ---------------------------------------------------------------------------

proof fn lemma_trim_line_text(s: Seq<char>)
    requires
        !s.contains('\n'),
    ensures
        is_line_text(trim(s)),
{
    lemma_trim_is_trimmed(s);
    lemma_trim_keeps_absent(s, '\n');
}

proof fn lemma_clean_canonical(ps: Seq<Seq<char>>)
    requires
        forall|i: int| 0 <= i < ps.len() ==> !(#[trigger] ps[i]).contains(';'),
        forall|i: int| 0 <= i < ps.len() ==> !(#[trigger] ps[i]).contains('\n'),
    ensures
        are_list_items(clean_pieces(ps)),
    decreases ps.len(),
{
    if ps.len() > 0 {
        let init = ps.drop_last();
        assert forall|i: int| 0 <= i < init.len() implies !(#[trigger] init[i]).contains(';')
            && !init[i].contains('\n') by {
            assert(init[i] == ps[i]);
        }
        lemma_clean_canonical(init);
        let l = ps.last();
        assert(!l.contains(';') && !l.contains('\n')) by {
            assert(ps[ps.len() - 1] == l);
        }
        lemma_trim_line_text(l);
        lemma_trim_keeps_absent(l, ';');
        let r = clean_pieces(init);
        let t = trim(l);
        if t.len() > 0 {
            assert forall|i: int| 0 <= i < r.push(t).len() implies is_list_item(
                #[trigger] r.push(t)[i],
            ) by {
                if i < r.len() {
                    assert(r.push(t)[i] == r[i]);
                }
            }
        }
    }
}

/// The items of a list read from one line are canonical.
proof fn lemma_list_items_canonical(v: Seq<char>)
    requires
        !v.contains('\n'),
    ensures
        are_list_items(list_items(v)),
{
    lemma_split_on_pieces(v, ';', '\n');
    lemma_clean_canonical(split_on(v, ';'));
}

proof fn lemma_push_localized(ps: Seq<(Seq<char>, Seq<char>)>, p: (Seq<char>, Seq<char>))
    requires
        are_localized_pairs(ps),
        is_tag(p.0),
        is_line_text(p.1),
    ensures
        are_localized_pairs(ps.push(p)),
{
    assert forall|i: int| 0 <= i < ps.push(p).len() implies is_tag((#[trigger] ps.push(p)[i]).0)
        && is_line_text(ps.push(p)[i].1) by {
        if i < ps.len() {
            assert(ps.push(p)[i] == ps[i]);
        }
    }
}

proof fn lemma_push_extra(ps: Seq<(Seq<char>, Seq<char>)>, p: (Seq<char>, Seq<char>), tol: bool)
    requires
        are_extra_pairs(ps, tol),
        is_extra_pair(p.0, p.1, tol),
    ensures
        are_extra_pairs(ps.push(p), tol),
{
    assert forall|i: int| 0 <= i < ps.push(p).len() implies is_extra_pair(
        (#[trigger] ps.push(p)[i]).0,
        ps.push(p)[i].1,
        tol,
    ) by {
        if i < ps.len() {
            assert(ps.push(p)[i] == ps[i]);
        }
    }
}

proof fn lemma_tag_of(key: Seq<char>, base: Seq<char>)
    requires
        localized_tag(key, base) is Some,
        !key.contains('\n'),
        !key.contains('='),
    ensures
        is_tag(localized_tag(key, base)->0),
{
    let n = base.len() as int;
    lemma_subrange_absent(key, n + 1, key.len() - 1, '\n');
    lemma_subrange_absent(key, n + 1, key.len() - 1, '=');
}

/// Recording a pair read from a line keeps an entry canonical.
#[verifier::rlimit(80)]
proof fn lemma_apply_canonical(e: EntryView, key: Seq<char>, value: Seq<char>, tol: bool)
    requires
        fields_canonical(e, tol),
        is_line_text(key),
        is_line_text(value),
        !key.contains('='),
        key.len() > 0 ==> key[0] != '#',
        key.len() > 0 ==> (tol ==> key[0] != ';'),
        key.len() > 0 ==> !(key[0] == '[' && value.len() > 0 && value.last() == ']'),
    ensures
        fields_canonical(apply_pair(e, key, value), tol),
{
    lemma_reveal_keys();
    lemma_list_items_canonical(value);
    if localized_tag(key, "Name"@) is Some {
        lemma_tag_of(key, "Name"@);
        lemma_push_localized(e.name_localized, (localized_tag(key, "Name"@)->0, value));
    }
    if localized_tag(key, "GenericName"@) is Some {
        lemma_tag_of(key, "GenericName"@);
        lemma_push_localized(
            e.generic_name_localized,
            (localized_tag(key, "GenericName"@)->0, value),
        );
    }
    if localized_tag(key, "Comment"@) is Some {
        lemma_tag_of(key, "Comment"@);
        lemma_push_localized(e.comment_localized, (localized_tag(key, "Comment"@)->0, value));
    }
    if key.len() > 0 && !is_known_key(key) && localized_tag(key, "Name"@) is None && localized_tag(
        key,
        "GenericName"@,
    ) is None && localized_tag(key, "Comment"@) is None {
        assert(is_extra_pair(key, value, tol));
        lemma_push_extra(e.extra, (key, value), tol);
    }
}

/// Reading one line of a text keeps an entry canonical.
proof fn lemma_step_canonical(st: (EntryView, bool), raw: Seq<char>, tol: bool)
    requires
        fields_canonical(st.0, tol),
        !raw.contains('\n'),
    ensures
        fields_canonical(step(st, raw, tol).0, tol),
{
    let line = trim(raw);
    lemma_trim_line_text(raw);
    if !is_skipped(line, tol) && !is_header(line) && st.1 && split_once(line, '=') is Some {
        let i = index_of(line, '=');
        lemma_index_of_props(line, '=');
        let k0 = line.take(i);
        let v0 = line.skip(i + 1);
        assert(k0 == line.subrange(0, i));
        assert(v0 == line.subrange(i + 1, line.len() as int));
        lemma_subrange_absent(line, 0, i, '\n');
        lemma_subrange_absent(line, i + 1, line.len() as int, '\n');
        assert(!k0.contains('=')) by {
            if k0.contains('=') {
                let j = choose|j: int| 0 <= j < k0.len() && k0[j] == '=';
                assert(line[j] == '=');
            }
        }
        let key = trim(k0);
        let value = trim(v0);
        lemma_trim_line_text(k0);
        lemma_trim_line_text(v0);
        lemma_trim_keeps_absent(k0, '=');
        if key.len() > 0 {
            if k0.len() == 0 {
                assert(k0 =~= Seq::<char>::empty());
                assert(trim(Seq::<char>::empty()) =~= Seq::<char>::empty());
            }
            assert(k0[0] == line[0]);
            lemma_trim_first(k0);
        }
        if value.len() > 0 {
            if v0.len() == 0 {
                assert(v0 =~= Seq::<char>::empty());
                assert(trim(Seq::<char>::empty()) =~= Seq::<char>::empty());
            }
            assert(v0.last() == line.last());
            lemma_trim_last(v0);
        }
        lemma_apply_canonical(st.0, key, value, tol);
    }
}

proof fn lemma_run_canonical(st: (EntryView, bool), lines: Seq<Seq<char>>, tol: bool)
    requires
        fields_canonical(st.0, tol),
        single_lines(lines),
    ensures
        fields_canonical(run(st, lines, tol).0, tol),
    decreases lines.len(),
{
    if lines.len() > 0 {
        assert(single_lines(lines.drop_last())) by {
            assert forall|i: int| 0 <= i < lines.drop_last().len() implies !(
            #[trigger] lines.drop_last()[i]).contains('\n') by {
                assert(lines.drop_last()[i] == lines[i]);
            }
        }
        lemma_run_canonical(st, lines.drop_last(), tol);
        assert(!lines[lines.len() - 1].contains('\n'));
        lemma_step_canonical(run(st, lines.drop_last(), tol), lines.last(), tol);
    }
}

/// Every entry that the decoder produces is canonical.
pub proof fn lemma_decoded_canonical(t: Seq<char>, tolerant: bool)
    ensures
        is_canonical(decode(t, tolerant), tolerant),
{
    lemma_reveal_keys();
    let b = blank_view();
    assert(fields_canonical(b, tolerant)) by {
        assert(!Seq::<char>::empty().contains('\n'));
    }
    lemma_split_on_pieces(t, '\n', '\n');
    lemma_run_canonical((b, false), split_on(t, '\n'), tolerant);
    lemma_keys_are_words();
    assert(is_word("Application"@));
    lemma_word("Application"@);
}


/// Reading any text, then reading back the canonical text of what was read,
/// gives the same entry, field for field.
pub proof fn lemma_decode_round_trip(t: Seq<char>, tolerant: bool)
    ensures
        decode(encode(decode(t, tolerant)), tolerant) == decode(t, tolerant),
{
    lemma_decoded_canonical(t, tolerant);
    lemma_decode_encode(decode(t, tolerant), tolerant);
}

// ---------------------------------------------------------------------------
// Encoding is idempotent
// ---------------------------------------------------------------------------

/// Localized variants with their values escaped, as the encoder writes them.
pub open spec fn escaped_pairs(ps: Seq<(Seq<char>, Seq<char>)>) -> Seq<(Seq<char>, Seq<char>)> {
    ps.map_values(|p: (Seq<char>, Seq<char>)| (p.0, escape_newlines(p.1)))
}

/// The extra pairs that the encoder writes: blank keys dropped, key and
/// value trimmed.
pub open spec fn written_extras(ps: Seq<(Seq<char>, Seq<char>)>) -> Seq<(Seq<char>, Seq<char>)>
    decreases ps.len(),
{
    if ps.len() == 0 {
        Seq::empty()
    } else {
        let r = written_extras(ps.drop_last());
        let p = ps.last();
        if trim(p.0).len() > 0 {
            r.push((trim(p.0), trim(p.1)))
        } else {
            r
        }
    }
}

/// The entry as the encoder writes it: display texts escaped, launch texts
/// trimmed, extra pairs as written.
pub open spec fn written_form(e: EntryView) -> EntryView {
    EntryView {
        name: escape_newlines(e.name),
        generic_name: opt_escaped(e.generic_name),
        comment: opt_escaped(e.comment),
        name_localized: escaped_pairs(e.name_localized),
        generic_name_localized: escaped_pairs(e.generic_name_localized),
        comment_localized: escaped_pairs(e.comment_localized),
        exec_command: trim(e.exec_command),
        try_exec: opt_trimmed(e.try_exec),
        icon: opt_trimmed(e.icon),
        path: opt_trimmed(e.path),
        url: opt_trimmed(e.url),
        extra: written_extras(e.extra),
        ..e
    }
}

/// The fields of `e` survive being written and read back: its written form
/// is canonical, and a command that is not empty is not blank either.
pub open spec fn writes_back(e: EntryView, tolerant: bool) -> bool {
    &&& is_canonical(written_form(e), tolerant)
    &&& (e.exec_command.len() > 0 ==> trim(e.exec_command).len() > 0)
}

proof fn lemma_escape_twice(s: Seq<char>)
    ensures
        escape_newlines(escape_newlines(s)) == escape_newlines(s),
{
    lemma_escape_no_newline(s);
    lemma_escape_id(escape_newlines(s));
}

proof fn lemma_localized_lines_escaped(base: Seq<char>, ps: Seq<(Seq<char>, Seq<char>)>)
    ensures
        localized_lines(base, escaped_pairs(ps)) == localized_lines(base, ps),
{
    assert forall|i: int| 0 <= i < ps.len() implies #[trigger] localized_lines(
        base,
        escaped_pairs(ps),
    )[i] == localized_lines(base, ps)[i] by {
        lemma_escape_twice(ps[i].1);
    }
    assert(localized_lines(base, escaped_pairs(ps)) =~= localized_lines(base, ps));
}

proof fn lemma_opt_twice(o: Option<Seq<char>>)
    ensures
        opt_escaped(opt_escaped(o)) == opt_escaped(o),
        opt_trimmed(opt_trimmed(o)) == opt_trimmed(o),
{
    if let Some(v) = o {
        lemma_escape_twice(v);
        lemma_trim_idempotent(v);
    }
}

proof fn lemma_extra_lines_written(ps: Seq<(Seq<char>, Seq<char>)>)
    ensures
        extra_lines(written_extras(ps)) == extra_lines(ps),
    decreases ps.len(),
{
    if ps.len() > 0 {
        lemma_extra_lines_written(ps.drop_last());
        let p = ps.last();
        let r = written_extras(ps.drop_last());
        if trim(p.0).len() > 0 {
            let w = r.push((trim(p.0), trim(p.1)));
            assert(w.drop_last() =~= r);
            lemma_trim_idempotent(p.0);
            lemma_trim_idempotent(p.1);
        }
    }
}

/// The canonical text of an entry is that of its written form.
proof fn lemma_encode_written_form(e: EntryView)
    requires
        e.exec_command.len() > 0 ==> trim(e.exec_command).len() > 0,
    ensures
        encode(written_form(e)) == encode(e),
{
    let w = written_form(e);
    lemma_escape_twice(e.name);
    lemma_localized_lines_escaped("Name"@, e.name_localized);
    lemma_localized_lines_escaped("GenericName"@, e.generic_name_localized);
    lemma_localized_lines_escaped("Comment"@, e.comment_localized);
    lemma_opt_twice(e.generic_name);
    lemma_opt_twice(e.comment);
    lemma_opt_twice(e.try_exec);
    lemma_opt_twice(e.icon);
    lemma_opt_twice(e.path);
    lemma_opt_twice(e.url);
    lemma_trim_idempotent(e.exec_command);
    if e.exec_command.len() == 0 {
        assert(e.exec_command =~= Seq::<char>::empty());
        assert(trim(Seq::<char>::empty()) =~= Seq::<char>::empty());
    }
    lemma_extra_lines_written(e.extra);
    assert(head_lines(w) == head_lines(e));
    assert(exec_line(w) == exec_line(e));
    assert(launch_lines(w) == launch_lines(e));
    assert(tail_lines(w) == tail_lines(e));
}

/// For a valid entry whose fields survive being written, encoding what was
/// decoded from its canonical text gives that same text.
pub proof fn lemma_encode_idempotent(e: EntryView, tolerant: bool)
    requires
        validation(e) is Ok,
        writes_back(e, tolerant),
    ensures
        encode(decode(encode(e), tolerant)) == encode(e),
{
    lemma_encode_written_form(e);
    lemma_decode_encode(written_form(e), tolerant);
}

// ---------------------------------------------------------------------------
// Other sections are ignored
// ---------------------------------------------------------------------------

/// The text whose lines are `ls`, each followed by a line feed.
pub open spec fn text_of_lines(ls: Seq<Seq<char>>) -> Seq<char> {
    terminated(ls, '\n')
}

/// A section other than `[Desktop Entry]`: its header, then lines none of
/// which is a header.
pub open spec fn is_other_section(section: Seq<Seq<char>>) -> bool {
    &&& section.len() > 0
    &&& is_header(trim(section[0]))
    &&& trim(section[0]) != "[Desktop Entry]"@
    &&& forall|i: int| 1 <= i < section.len() ==> !is_header(trim(#[trigger] section[i]))
}

proof fn lemma_decode_lines(ls: Seq<Seq<char>>, tol: bool)
    requires
        single_lines(ls),
    ensures
        decode(text_of_lines(ls), tol) == with_default_type(run((blank_view(), false), ls, tol).0),
{
    assert(!Seq::<char>::empty().contains('\n'));
    lemma_split_terminated(ls, Seq::empty(), '\n');
    assert(terminated(ls, '\n') + Seq::<char>::empty() =~= terminated(ls, '\n'));
    assert(ls.push(Seq::<char>::empty()).drop_last() =~= ls);
    assert(trim(Seq::<char>::empty()) =~= Seq::<char>::empty());
}

proof fn lemma_run_other_section(st: (EntryView, bool), section: Seq<Seq<char>>, tol: bool)
    requires
        is_other_section(section),
    ensures
        run(st, section, tol) == (st.0, false),
    decreases section.len(),
{
    lemma_reveal_keys();
    if section.len() == 1 {
        lemma_run_one(st, section[0], tol);
        assert(section =~= seq![section[0]]);
        assert(trim(section[0])[0] == '[');
    } else {
        let init = section.drop_last();
        assert(is_other_section(init)) by {
            assert forall|i: int| 1 <= i < init.len() implies !is_header(
                trim(#[trigger] init[i]),
            ) by {
                assert(init[i] == section[i]);
            }
        }
        lemma_run_other_section(st, init, tol);
        assert(!is_header(trim(section[section.len() - 1])));
    }
}

proof fn lemma_run_after_header(s1: (EntryView, bool), s2: (EntryView, bool), after: Seq<Seq<char>>, tol: bool)
    requires
        s1.0 == s2.0,
        after.len() > 0,
        is_header(trim(after[0])),
    ensures
        run(s1, after, tol) == run(s2, after, tol),
{
    let h = after[0];
    let rest = after.skip(1);
    assert(after =~= seq![h] + rest);
    lemma_run_concat(s1, seq![h], rest, tol);
    lemma_run_concat(s2, seq![h], rest, tol);
    lemma_run_one(s1, h, tol);
    lemma_run_one(s2, h, tol);
    assert(trim(h)[0] == '[');
}

/// Lines of another section are ignored: taking out a section other than
/// `[Desktop Entry]`, which ends where the text ends or where a header
/// starts, does not change the entry read.
pub proof fn lemma_other_section_ignored(
    before: Seq<Seq<char>>,
    section: Seq<Seq<char>>,
    after: Seq<Seq<char>>,
    tolerant: bool,
)
    requires
        single_lines(before + section + after),
        is_other_section(section),
        after.len() == 0 || is_header(trim(after[0])),
    ensures
        decode(text_of_lines(before + section + after), tolerant) == decode(
            text_of_lines(before + after),
            tolerant,
        ),
{
    let all = before + section + after;
    let kept = before + after;
    assert(single_lines(kept)) by {
        assert forall|i: int| 0 <= i < kept.len() implies !(#[trigger] kept[i]).contains('\n') by {
            if i < before.len() {
                assert(kept[i] == all[i]);
            } else {
                assert(kept[i] == all[i + section.len()]);
            }
        }
    }
    lemma_decode_lines(all, tolerant);
    lemma_decode_lines(kept, tolerant);
    let s0 = (blank_view(), false);
    let sb = run(s0, before, tolerant);
    lemma_run_concat(s0, before + section, after, tolerant);
    lemma_run_concat(s0, before, section, tolerant);
    lemma_run_concat(s0, before, after, tolerant);
    lemma_run_other_section(sb, section, tolerant);
    if after.len() > 0 {
        lemma_run_after_header((sb.0, false), sb, after, tolerant);
    } else {
        assert(after =~= Seq::<Seq<char>>::empty());
    }
}

} // verus!
