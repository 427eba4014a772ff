//! Extension lists, extension matching and folder exclusion.
use vstd::prelude::*;
use vstd::string::*;

use crate::text::{
    contains_char, ends_with_dot_ext, has_prefix, has_suffix, is_white_space,
    lemma_strip_dots_shape, lemma_strip_seps_shape, lemma_trim_end_shape, lemma_trim_start_shape,
    lower_of, same_chars, strip_dots, strip_leading_dots, strip_seps, strip_trailing_seps, starts_with_dir,
    to_lower, trim_end_ws, trim_start_ws, trim_ws, trimmed, unify_sep, unify_separators,
    unify_seps,
};

verus! {

/// The character views of a sequence of strings.
pub open spec fn views(v: Seq<String>) -> Seq<Seq<char>> {
    v.map_values(|x: String| x@)
}

pub open spec fn is_list_sep(c: char) -> bool {
    c == ',' || c == ' '
}

/// The pieces of `s` between commas and spaces, empty pieces included.
pub open spec fn split_pieces(s: Seq<char>) -> Seq<Seq<char>>
    decreases s.len(),
{
    if s.len() == 0 {
        seq![Seq::empty()]
    } else {
        let t = split_pieces(s.drop_last());
        if is_list_sep(s.last()) {
            t.push(Seq::empty())
        } else {
            t.update(t.len() - 1, t.last().push(s.last()))
        }
    }
}

/// One piece of an extension list in its normal form: trimmed, lowercased,
/// without leading dots.
pub open spec fn normal_extension(p: Seq<char>) -> Seq<char> {
    strip_leading_dots(lower_of(trimmed(p)))
}

/// The normal forms of `pieces`, in order, with the empty ones left out.
pub open spec fn normal_extensions(pieces: Seq<Seq<char>>) -> Seq<Seq<char>>
    decreases pieces.len(),
{
    if pieces.len() == 0 {
        Seq::empty()
    } else {
        let r = normal_extensions(pieces.drop_last());
        let e = normal_extension(pieces.last());
        if e.len() > 0 {
            r.push(e)
        } else {
            r
        }
    }
}

/// The extension set that a free-form list such as `" .RS, .Txt  md "` describes.
pub open spec fn parsed_extensions(s: Seq<char>) -> Seq<Seq<char>> {
    normal_extensions(split_pieces(s))
}

/// Some extension of `exts` ends `lowered`, after a dot.
pub open spec fn has_dot_suffix_in(lowered: Seq<char>, exts: Seq<Seq<char>>) -> bool {
    exists|i: int| 0 <= i < exts.len() && has_suffix(lowered, seq!['.'] + exts[i])
}

/// Some extension of `exts` ends the lowercased file name, after a dot.
pub open spec fn has_listed_extension(filename: Seq<char>, exts: Seq<Seq<char>>) -> bool {
    has_dot_suffix_in(lower_of(filename), exts)
}

/// An empty allow-list admits every file.
pub open spec fn extension_allowed(filename: Seq<char>, exts: Seq<Seq<char>>) -> bool {
    exts.len() == 0 || has_listed_extension(filename, exts)
}

/// An empty deny-list ignores no file.
pub open spec fn extension_ignored(filename: Seq<char>, exts: Seq<Seq<char>>) -> bool {
    exts.len() > 0 && has_listed_extension(filename, exts)
}

/// A path trimmed, with `'\\'` as its only separator and no trailing separator.
pub open spec fn separator_form(s: Seq<char>) -> Seq<char> {
    strip_trailing_seps(unify_seps(trimmed(s)))
}

/// A path in the form used to compare folders: its separator form, lowercased.
pub open spec fn normalized_path(s: Seq<char>) -> Seq<char> {
    lower_of(separator_form(s))
}

/// An ignored-folder entry that names a path rather than a bare folder name.
pub open spec fn is_path_entry(e: Seq<char>) -> bool {
    e.contains('\\') || e.contains(':')
}

/// Whether a normalized ignored-folder entry `e` excludes the folder whose
/// lowercased base name is `n` and whose normalized path is `p`: a path entry
/// excludes that path and every path below it, a bare name every folder of
/// that name.
pub open spec fn normalized_entry_excludes(n: Seq<char>, p: Seq<char>, e: Seq<char>) -> bool {
    if is_path_entry(e) {
        p == e || has_prefix(p, e.push('\\'))
    } else {
        n == e
    }
}

/// Whether one ignored-folder entry excludes the folder `name` at `path`.
pub open spec fn entry_excludes(name: Seq<char>, path: Seq<char>, entry: Seq<char>) -> bool {
    normalized_entry_excludes(lower_of(name), normalized_path(path), normalized_path(entry))
}

/// Whether some entry of `entries` excludes the folder `name` at `path`.
pub open spec fn folder_excluded(name: Seq<char>, path: Seq<char>, entries: Seq<Seq<char>>) -> bool {
    exists|i: int| 0 <= i < entries.len() && entry_excludes(name, path, entries[i])
}

/// Appends the normal form of `piece` to `out` when it is not empty.
fn push_normal_extension(out: &mut Vec<String>, piece: &str)
    ensures
        views(final(out)@) == (if normal_extension(piece@).len() > 0 {
            views(old(out)@).push(normal_extension(piece@))
        } else {
            views(old(out)@)
        }),
{
    let t = trim_ws(piece);
    let l = to_lower(t.as_str());
    let e = strip_dots(l.as_str());
    if e.unicode_len() > 0 {
        out.push(e);
        assert(views(final(out)@) =~= views(old(out)@).push(normal_extension(piece@)));
    }
}

/// Splits a free-form extension list on commas and spaces and brings each
/// piece to its normal form (trimmed, lowercased, leading dots removed),
/// keeping the non-empty ones in order.
pub fn parse_extensions(extension: &str) -> (r: Vec<String>)
    ensures
        views(r@) == parsed_extensions(extension@),
{
    let n = extension.unicode_len();
    let mut out: Vec<String> = Vec::new();
    let mut start: usize = 0;
    let mut i: usize = 0;
    let ghost mut done: Seq<Seq<char>> = Seq::empty();
    assert(extension@.subrange(0, 0) =~= Seq::<char>::empty());
    assert(split_pieces(Seq::<char>::empty()) =~= done.push(extension@.subrange(0, 0)));
    while i < n
        invariant
            n == extension@.len(),
            start <= i <= n,
            split_pieces(extension@.subrange(0, i as int)) == done.push(
                extension@.subrange(start as int, i as int),
            ),
            views(out@) == normal_extensions(done),
        decreases n - i,
    {
        let c = extension.get_char(i);
        let ghost prefix = extension@.subrange(0, i + 1);
        assert(prefix.drop_last() =~= extension@.subrange(0, i as int));
        if c == ',' || c == ' ' {
            let piece = extension.substring_char(start, i);
            push_normal_extension(&mut out, piece);
            proof {
                assert(done.push(piece@).drop_last() =~= done);
                done = done.push(piece@);
                assert(extension@.subrange(i + 1, i + 1) =~= Seq::<char>::empty());
            }
            start = i + 1;
        } else {
            assert(extension@.subrange(start as int, i + 1) =~= extension@.subrange(
                start as int,
                i as int,
            ).push(c));
            assert(split_pieces(prefix) =~= done.push(extension@.subrange(start as int, i + 1)));
        }
        i = i + 1;
    }
    let piece = extension.substring_char(start, n);
    push_normal_extension(&mut out, piece);
    proof {
        assert(extension@.subrange(0, n as int) =~= extension@);
        assert(done.push(piece@).drop_last() =~= done);
    }
    out
}

/// Whether `lowered` (a file name already lowercased) ends with a dot and one
/// of `extensions`.
pub fn has_dot_extension(lowered: &str, extensions: &[String]) -> (r: bool)
    ensures
        r == has_dot_suffix_in(lowered@, views(extensions@)),
{
    let mut i: usize = 0;
    while i < extensions.len()
        invariant
            i <= extensions@.len(),
            forall|j: int| 0 <= j < i ==> !has_suffix(lowered@, seq!['.'] + extensions@[j]@),
        decreases extensions@.len() - i,
    {
        if ends_with_dot_ext(lowered, extensions[i].as_str()) {
            assert(views(extensions@)[i as int] == extensions@[i as int]@);
            return true;
        }
        i = i + 1;
    }
    proof {
        assert forall|j: int| 0 <= j < views(extensions@).len() implies !has_suffix(
            lowered@,
            seq!['.'] + views(extensions@)[j],
        ) by {
            assert(views(extensions@)[j] == extensions@[j]@);
        }
    }
    false
}

/// Whether `filename`, lowercased, ends with a dot and one of `extensions`.
fn has_extension_in(filename: &str, extensions: &[String]) -> (r: bool)
    ensures
        r == has_listed_extension(filename@, views(extensions@)),
{
    let lower = to_lower(filename);
    has_dot_extension(lower.as_str(), extensions)
}

/// Whether an allow-list admits `filename`: always when the list is empty,
/// otherwise when the lowercased name ends with `.` and a listed extension.
pub fn matches_extension(filename: &str, extensions: &[String]) -> (r: bool)
    ensures
        r == extension_allowed(filename@, views(extensions@)),
{
    if extensions.len() == 0 {
        return true;
    }
    has_extension_in(filename, extensions)
}

/// Whether a deny-list rejects `filename`: never when the list is empty,
/// otherwise when the lowercased name ends with `.` and a listed extension.
pub fn is_ignored_file(filename: &str, ignored_extensions: &[String]) -> (r: bool)
    ensures
        r == extension_ignored(filename@, views(ignored_extensions@)),
{
    if ignored_extensions.len() == 0 {
        return false;
    }
    has_extension_in(filename, ignored_extensions)
}

/// Brings a path to the form used to compare folders: trims it, turns `'/'`
/// into `'\\'`, removes trailing separators and lowercases it.
pub fn normalize_path_str(input: &str) -> (r: String)
    ensures
        r@ == normalized_path(input@),
{
    let t = trim_ws(input);
    let u = unify_separators(t.as_str());
    let s = strip_seps(u.as_str());
    to_lower(s.as_str())
}

/// Whether the normalized ignored-folder entry `normalized_entry` excludes the
/// folder whose lowercased base name is `lowered_name` and whose normalized
/// path is `normalized_path`. An entry holding `'\\'` or `':'` is a path: it
/// excludes that path and everything below it. Any other entry is a bare name.
pub fn folder_entry_excludes(lowered_name: &str, normalized_path: &str, normalized_entry: &str) -> (r:
    bool)
    ensures
        r == normalized_entry_excludes(lowered_name@, normalized_path@, normalized_entry@),
{
    if contains_char(normalized_entry, '\\') || contains_char(normalized_entry, ':') {
        same_chars(normalized_path, normalized_entry) || starts_with_dir(
            normalized_path,
            normalized_entry,
        )
    } else {
        same_chars(lowered_name, normalized_entry)
    }
}

/// Whether the folder `name` at `path` is excluded by `ignored_folders`. An
/// entry holding a separator or a drive marker (after normalization) excludes
/// that path and everything below it; any other entry excludes every folder of
/// that name, regardless of case.
pub fn is_ignored_folder(name: &str, path: &str, ignored_folders: &[String]) -> (r: bool)
    ensures
        r == folder_excluded(name@, path@, views(ignored_folders@)),
{
    if ignored_folders.len() == 0 {
        return false;
    }
    let folder_name = to_lower(name);
    let path_lower = normalize_path_str(path);
    let mut i: usize = 0;
    while i < ignored_folders.len()
        invariant
            folder_name@ == lower_of(name@),
            path_lower@ == normalized_path(path@),
            i <= ignored_folders@.len(),
            forall|j: int| 0 <= j < i ==> !entry_excludes(name@, path@, ignored_folders@[j]@),
        decreases ignored_folders@.len() - i,
    {
        let normalized = normalize_path_str(ignored_folders[i].as_str());
        if folder_entry_excludes(folder_name.as_str(), path_lower.as_str(), normalized.as_str()) {
            assert(views(ignored_folders@)[i as int] == ignored_folders@[i as int]@);
            return true;
        }
        i = i + 1;
    }
    proof {
        assert forall|j: int| 0 <= j < views(ignored_folders@).len() implies !entry_excludes(
            name@,
            path@,
            views(ignored_folders@)[j],
        ) by {
            assert(views(ignored_folders@)[j] == ignored_folders@[j]@);
        }
    }
    false
}

/// The normal forms of a list of pieces are, in the order of their pieces,
/// the non-empty normal forms; `idx` gives each one's piece.
proof fn lemma_normal_extensions_origin(pieces: Seq<Seq<char>>) -> (idx: Seq<int>)
    ensures
        idx.len() == normal_extensions(pieces).len(),
        forall|i: int| 0 <= i < idx.len() ==> 0 <= #[trigger] idx[i] < pieces.len(),
        forall|i: int, j: int| 0 <= i < j < idx.len() ==> idx[i] < idx[j],
        forall|i: int|
            0 <= i < idx.len() ==> #[trigger] normal_extensions(pieces)[i] == normal_extension(
                pieces[idx[i]],
            ) && normal_extensions(pieces)[i].len() > 0,
        forall|j: int|
            0 <= j < pieces.len() && #[trigger] normal_extension(pieces[j]).len() > 0 ==> exists|
                i: int,
            |
                0 <= i < idx.len() && idx[i] == j,
    decreases pieces.len(),
{
    if pieces.len() == 0 {
        Seq::empty()
    } else {
        let prev = lemma_normal_extensions_origin(pieces.drop_last());
        let e = normal_extension(pieces.last());
        let idx = if e.len() > 0 {
            prev.push(pieces.len() - 1)
        } else {
            prev
        };
        assert forall|j: int|
            0 <= j < pieces.len() && #[trigger] normal_extension(pieces[j]).len() > 0 implies exists|
                i: int,
            |
                0 <= i < idx.len() && idx[i] == j by {
            if j < pieces.len() - 1 {
                assert(pieces.drop_last()[j] == pieces[j]);
                let i = choose|i: int| 0 <= i < prev.len() && prev[i] == j;
                assert(idx[i] == j);
            } else {
                assert(idx[prev.len() as int] == j);
            }
        }
        idx
    }
}

/// Every entry of a parsed extension list is non-empty, does not start with a
/// dot, and is a tail of the trimmed, lowercased form of one piece of the input
/// (`idx` says which); entries keep the order of their pieces, and every piece
/// whose normal form is non-empty gives an entry.
pub proof fn lemma_parsed_extensions_normal(s: Seq<char>) -> (idx: Seq<int>)
    ensures
        idx.len() == parsed_extensions(s).len(),
        forall|i: int, j: int| 0 <= i < j < idx.len() ==> idx[i] < idx[j],
        forall|i: int|
            0 <= i < idx.len() ==> {
                &&& 0 <= #[trigger] idx[i] < split_pieces(s).len()
                &&& parsed_extensions(s)[i] == normal_extension(split_pieces(s)[idx[i]])
                &&& parsed_extensions(s)[i].len() > 0
                &&& parsed_extensions(s)[i][0] != '.'
                &&& has_suffix(lower_of(trimmed(split_pieces(s)[idx[i]])), parsed_extensions(s)[i])
            },
        forall|j: int|
            0 <= j < split_pieces(s).len() && #[trigger] normal_extension(split_pieces(s)[j]).len()
                > 0 ==> exists|i: int| 0 <= i < idx.len() && idx[i] == j,
{
    let idx = lemma_normal_extensions_origin(split_pieces(s));
    assert forall|i: int| 0 <= i < idx.len() implies {
        &&& parsed_extensions(s)[i].len() > 0
        &&& parsed_extensions(s)[i][0] != '.'
        &&& has_suffix(lower_of(trimmed(split_pieces(s)[idx[i]])), parsed_extensions(s)[i])
    } by {
        lemma_strip_dots_shape(lower_of(trimmed(split_pieces(s)[idx[i]])));
    }
    idx
}

/// An empty allow-list admits every file name; an empty deny-list ignores none.
pub proof fn lemma_empty_lists(filename: Seq<char>)
    ensures
        extension_allowed(filename, Seq::empty()),
        !extension_ignored(filename, Seq::empty()),
{
}

/// Bringing a path to its separator form twice gives what bringing it once
/// gives, wherever that form does not end in white space (`"a \\\\"` becomes
/// `"a "`, whose own form is `"a"`).
pub proof fn lemma_separator_form_idempotent(s: Seq<char>)
    requires
        trim_end_ws(separator_form(s)) == separator_form(s),
    ensures
        separator_form(separator_form(s)) == separator_form(s),
{
    let t = trimmed(s);
    let u = unify_seps(t);
    let x = separator_form(s);
    lemma_trim_start_shape(s);
    lemma_trim_end_shape(trim_start_ws(s));
    lemma_strip_seps_shape(u);
    if x.len() > 0 {
        assert(x[0] == u[0]);
        assert(t[0] == trim_start_ws(s)[0]);
        assert(!is_white_space(x[0]));
    }
    assert(trim_start_ws(x) == x);
    assert(trimmed(x) == x);
    assert forall|i: int| 0 <= i < x.len() implies x[i] != '/' by {
        assert(x[i] == u[i]);
        assert(u[i] == unify_sep(t[i]));
    }
    assert(unify_seps(x) =~= x);
    lemma_strip_seps_shape(x);
    assert(strip_trailing_seps(x) == x);
}

} // verus!
