//! The tree rendering of a directory snapshot.
use vstd::prelude::*;
use vstd::string::*;

use crate::filters::{
    folder_excluded, is_ignored_file, is_ignored_folder, matches_extension, parse_extensions,
    parsed_extensions, views,
};
use crate::order::{insert_sorted, sort_by_name};
use crate::scan::{file_shown, keep_non_blank, non_blank};
use crate::tree::{DirTree, Entry};
use crate::types::HierarchyResult;

verus! {

/// The base name of an entry.
pub open spec fn entry_name(e: Entry) -> Seq<char> {
    match e {
        Entry::File { name, .. } => name@,
        Entry::Dir(d) => d.name@,
    }
}

/// The base names of the entries of `t`, by position.
pub open spec fn entry_names(t: DirTree) -> Seq<Seq<char>> {
    t.entries@.map_values(|e: Entry| entry_name(e))
}

/// Whether entry `i` of `t` is a subdirectory that `ignored_folders` does not exclude.
pub open spec fn kept_folder_at(t: DirTree, i: int, ignored_folders: Seq<Seq<char>>) -> bool {
    match t.entries@[i] {
        Entry::Dir(d) => !folder_excluded(d.name@, d.path@, ignored_folders),
        Entry::File { .. } => false,
    }
}

/// The positions below `n` of the kept subdirectories of `t`, ascending.
pub open spec fn folder_ids_upto(t: DirTree, ignored_folders: Seq<Seq<char>>, n: int) -> Seq<usize>
    decreases n,
{
    if n <= 0 {
        Seq::empty()
    } else if kept_folder_at(t, n - 1, ignored_folders) {
        folder_ids_upto(t, ignored_folders, n - 1).push((n - 1) as usize)
    } else {
        folder_ids_upto(t, ignored_folders, n - 1)
    }
}

/// The positions below `n` of the files of `t`, ascending.
pub open spec fn file_ids_upto(t: DirTree, n: int) -> Seq<usize>
    decreases n,
{
    if n <= 0 {
        Seq::empty()
    } else if t.entries@[n - 1] is File {
        file_ids_upto(t, n - 1).push((n - 1) as usize)
    } else {
        file_ids_upto(t, n - 1)
    }
}

/// The positions of `s` whose file passes the extension filters, in order.
pub open spec fn shown_ids(
    t: DirTree,
    s: Seq<usize>,
    exts: Seq<Seq<char>>,
    ignored_exts: Seq<Seq<char>>,
) -> Seq<usize>
    decreases s.len(),
{
    if s.len() == 0 {
        Seq::empty()
    } else if file_shown(entry_name(t.entries@[s.last() as int]), exts, ignored_exts) {
        shown_ids(t, s.drop_last(), exts, ignored_exts).push(s.last())
    } else {
        shown_ids(t, s.drop_last(), exts, ignored_exts)
    }
}

/// The kept subdirectories of `t`, by name.
pub open spec fn child_folders(t: DirTree, ignored_folders: Seq<Seq<char>>) -> Seq<usize> {
    sort_by_name(entry_names(t), folder_ids_upto(t, ignored_folders, t.entries@.len() as int))
}

/// The files of `t` that a level shows, by name: none in folders-only mode.
pub open spec fn child_files(
    t: DirTree,
    exts: Seq<Seq<char>>,
    ignored_exts: Seq<Seq<char>>,
    folders_only: bool,
) -> Seq<usize> {
    if folders_only {
        Seq::empty()
    } else {
        shown_ids(
            t,
            sort_by_name(entry_names(t), file_ids_upto(t, t.entries@.len() as int)),
            exts,
            ignored_exts,
        )
    }
}

pub open spec fn branch(last: bool) -> Seq<char> {
    if last {
        "└── "@
    } else {
        "├── "@
    }
}

pub open spec fn continuation(last: bool) -> Seq<char> {
    if last {
        "    "@
    } else {
        "│   "@
    }
}

/// The lines of the files `files[j..]` of `t` at `indent`; the last one of all
/// takes the closing connector.
pub open spec fn file_lines_from(t: DirTree, files: Seq<usize>, j: int, indent: Seq<char>) -> Seq<
    char,
>
    decreases files.len() - j,
{
    if j < 0 || j >= files.len() {
        Seq::empty()
    } else {
        indent + branch(j == files.len() - 1) + "📄 "@ + entry_name(t.entries@[files[j] as int])
            + "\n"@ + file_lines_from(t, files, j + 1, indent)
    }
}

/// Whether some kept subdirectory of `t`, from the `k`-th on (by name), shows a
/// line: one does when `folders_only` holds, when no allow-list is set, or when
/// something below it shows.
pub open spec fn any_visible_from(
    t: DirTree,
    k: int,
    exts: Seq<Seq<char>>,
    ignored_exts: Seq<Seq<char>>,
    ignored_folders: Seq<Seq<char>>,
    folders_only: bool,
) -> bool
    decreases t, child_folders(t, ignored_folders).len() - k,
{
    let fs = child_folders(t, ignored_folders);
    if k < 0 || k >= fs.len() {
        false
    } else {
        let idx = fs[k] as int;
        let here = if 0 <= idx < t.entries@.len() {
            match t.entries@[idx] {
                Entry::Dir(d) => folders_only || exts.len() == 0 || any_visible_from(
                    d,
                    0,
                    exts,
                    ignored_exts,
                    ignored_folders,
                    folders_only,
                ) || child_files(d, exts, ignored_exts, folders_only).len() > 0,
                Entry::File { .. } => false,
            }
        } else {
            false
        };
        here || any_visible_from(t, k + 1, exts, ignored_exts, ignored_folders, folders_only)
    }
}

/// Whether the rendering of the contents of `t` shows any line.
pub open spec fn shows_anything(
    t: DirTree,
    exts: Seq<Seq<char>>,
    ignored_exts: Seq<Seq<char>>,
    ignored_folders: Seq<Seq<char>>,
    folders_only: bool,
) -> bool {
    any_visible_from(t, 0, exts, ignored_exts, ignored_folders, folders_only) || child_files(
        t,
        exts,
        ignored_exts,
        folders_only,
    ).len() > 0
}

/// Whether entry `idx` of `t` is a subdirectory whose line shows (given that it is kept).
pub open spec fn entry_visible(
    t: DirTree,
    idx: int,
    exts: Seq<Seq<char>>,
    ignored_exts: Seq<Seq<char>>,
    ignored_folders: Seq<Seq<char>>,
    folders_only: bool,
) -> bool {
    if 0 <= idx < t.entries@.len() {
        match t.entries@[idx] {
            Entry::Dir(d) => folders_only || exts.len() == 0 || shows_anything(
                d,
                exts,
                ignored_exts,
                ignored_folders,
                folders_only,
            ),
            Entry::File { .. } => false,
        }
    } else {
        false
    }
}

/// The lines of the kept subdirectories of `t` from the `k`-th on (by name),
/// each followed by its own subtree; a subdirectory that shows nothing (see
/// `any_visible_from`) is left out. A subdirectory's line is the last of its
/// level, and takes the closing connector and a blank continuation, when no
/// later subdirectory shows and the level shows no file.
pub open spec fn folder_lines_from(
    t: DirTree,
    k: int,
    indent: Seq<char>,
    exts: Seq<Seq<char>>,
    ignored_exts: Seq<Seq<char>>,
    ignored_folders: Seq<Seq<char>>,
    folders_only: bool,
) -> Seq<char>
    decreases t, child_folders(t, ignored_folders).len() - k,
{
    let fs = child_folders(t, ignored_folders);
    if k < 0 || k >= fs.len() {
        Seq::empty()
    } else {
        let rest = folder_lines_from(
            t,
            k + 1,
            indent,
            exts,
            ignored_exts,
            ignored_folders,
            folders_only,
        );
        let idx = fs[k] as int;
        if 0 <= idx < t.entries@.len() && entry_visible(
            t,
            idx,
            exts,
            ignored_exts,
            ignored_folders,
            folders_only,
        ) {
            match t.entries@[idx] {
                Entry::Dir(d) => {
                    let last = !any_visible_from(
                        t,
                        k + 1,
                        exts,
                        ignored_exts,
                        ignored_folders,
                        folders_only,
                    ) && child_files(t, exts, ignored_exts, folders_only).len() == 0;
                    let ci = indent + continuation(last);
                    let sub = folder_lines_from(
                        d,
                        0,
                        ci,
                        exts,
                        ignored_exts,
                        ignored_folders,
                        folders_only,
                    ) + file_lines_from(d, child_files(d, exts, ignored_exts, folders_only), 0, ci);
                    indent + branch(last) + "📁 "@ + d.name@ + "\n"@ + sub + rest
                },
                Entry::File { .. } => rest,
            }
        } else {
            rest
        }
    }
}

/// The rendering of the contents of `t` at `indent`: subdirectories first, then files.
pub open spec fn tree_lines(
    t: DirTree,
    indent: Seq<char>,
    exts: Seq<Seq<char>>,
    ignored_exts: Seq<Seq<char>>,
    ignored_folders: Seq<Seq<char>>,
    folders_only: bool,
) -> Seq<char> {
    folder_lines_from(t, 0, indent, exts, ignored_exts, ignored_folders, folders_only)
        + file_lines_from(t, child_files(t, exts, ignored_exts, folders_only), 0, indent)
}

/// The name shown on the root line: the base name, or the whole path when it has none.
pub open spec fn root_label(t: DirTree) -> Seq<char> {
    if t.name@.len() == 0 {
        t.path@
    } else {
        t.name@
    }
}

/// The full rendering: the root line, then the tree below it.
pub open spec fn hierarchy_text(
    t: DirTree,
    exts: Seq<Seq<char>>,
    ignored_exts: Seq<Seq<char>>,
    ignored_folders: Seq<Seq<char>>,
    folders_only: bool,
) -> Seq<char> {
    "📁 "@ + root_label(t) + "\n"@ + tree_lines(
        t,
        Seq::empty(),
        exts,
        ignored_exts,
        ignored_folders,
        folders_only,
    )
}

/// The base name of an entry.
fn name_of(e: &Entry) -> (r: &String)
    ensures
        r@ == entry_name(*e),
{
    match e {
        Entry::File { name, .. } => name,
        Entry::Dir(d) => &d.name,
    }
}

/// The base names of the entries of `dir`, by position.
fn collect_names(dir: &DirTree) -> (r: Vec<String>)
    ensures
        r@.map_values(|s: String| s@) == entry_names(*dir),
{
    let mut names: Vec<String> = Vec::new();
    let mut i: usize = 0;
    while i < dir.entries.len()
        invariant
            i <= dir.entries@.len(),
            names@.len() == i,
            entry_names(*dir).len() == dir.entries@.len(),
            views(names@) == entry_names(*dir).subrange(0, i as int),
        decreases dir.entries@.len() - i,
    {
        let name = name_of(&dir.entries[i]);
        let owned = name.clone();
        let ghost before = names@;
        names.push(owned);
        assert(names@ == before.push(owned));
        assert(owned@ == entry_names(*dir)[i as int]);
        assert forall|j: int| 0 <= j < i + 1 implies views(names@)[j] == entry_names(
            *dir,
        ).subrange(0, i + 1)[j] by {
            if j < i {
                assert(views(before)[j] == entry_names(*dir).subrange(0, i as int)[j]);
            }
        }
        assert(views(names@) =~= entry_names(*dir).subrange(0, i + 1));
        i = i + 1;
    }
    assert(entry_names(*dir).subrange(0, i as int) =~= entry_names(*dir));
    names
}

/// The kept subdirectories and all the files of `dir`, each by name.
fn sorted_children(dir: &DirTree, names: &Vec<String>, ignored_folders: &Vec<String>) -> (r: (
    Vec<usize>,
    Vec<usize>,
))
    requires
        views(names@) == entry_names(*dir),
    ensures
        r.0@ == child_folders(*dir, views(ignored_folders@)),
        r.1@ == sort_by_name(entry_names(*dir), file_ids_upto(*dir, dir.entries@.len() as int)),
        forall|j: int| 0 <= j < r.0@.len() ==> r.0@[j] < dir.entries@.len(),
        forall|j: int| 0 <= j < r.1@.len() ==> r.1@[j] < dir.entries@.len(),
{
    let ghost keys = entry_names(*dir);
    let ghost ifold = views(ignored_folders@);
    let mut folders: Vec<usize> = Vec::new();
    let mut files: Vec<usize> = Vec::new();
    let mut i: usize = 0;
    assert(names@.len() == keys.len());
    while i < dir.entries.len()
        invariant
            i <= dir.entries@.len(),
            names@.len() == dir.entries@.len(),
            keys == entry_names(*dir),
            keys == views(names@),
            ifold == views(ignored_folders@),
            folders@ == sort_by_name(keys, folder_ids_upto(*dir, ifold, i as int)),
            files@ == sort_by_name(keys, file_ids_upto(*dir, i as int)),
            forall|j: int| 0 <= j < folders@.len() ==> folders@[j] < dir.entries@.len(),
            forall|j: int| 0 <= j < files@.len() ==> files@[j] < dir.entries@.len(),
        decreases dir.entries@.len() - i,
    {
        match &dir.entries[i] {
            Entry::Dir(d) => {
                if !is_ignored_folder(d.name.as_str(), d.path.as_str(), ignored_folders.as_slice()) {
                    let ghost s = folder_ids_upto(*dir, ifold, i as int);
                    assert(s.push(i).drop_last() =~= s);
                    insert_sorted(names, &mut folders, i);
                }
            },
            Entry::File { .. } => {
                let ghost s = file_ids_upto(*dir, i as int);
                assert(s.push(i).drop_last() =~= s);
                insert_sorted(names, &mut files, i);
            },
        }
        i = i + 1;
    }
    (folders, files)
}

/// The positions of `files` whose file passes the extension filters, in order.
fn shown_files(
    dir: &DirTree,
    files: &Vec<usize>,
    extensions: &Vec<String>,
    ignored_extensions: &Vec<String>,
) -> (r: Vec<usize>)
    requires
        forall|j: int| 0 <= j < files@.len() ==> files@[j] < dir.entries@.len(),
    ensures
        r@ == shown_ids(*dir, files@, views(extensions@), views(ignored_extensions@)),
        forall|j: int| 0 <= j < r@.len() ==> r@[j] < dir.entries@.len(),
{
    let mut shown: Vec<usize> = Vec::new();
    let mut j: usize = 0;
    while j < files.len()
        invariant
            j <= files@.len(),
            forall|q: int| 0 <= q < files@.len() ==> files@[q] < dir.entries@.len(),
            shown@ == shown_ids(
                *dir,
                files@.subrange(0, j as int),
                views(extensions@),
                views(ignored_extensions@),
            ),
            forall|q: int| 0 <= q < shown@.len() ==> shown@[q] < dir.entries@.len(),
        decreases files@.len() - j,
    {
        let ghost s = files@.subrange(0, j + 1);
        assert(s.drop_last() =~= files@.subrange(0, j as int));
        let name = name_of(&dir.entries[files[j]]);
        if !is_ignored_file(name.as_str(), ignored_extensions.as_slice()) && matches_extension(
            name.as_str(),
            extensions.as_slice(),
        ) {
            shown.push(files[j]);
        }
        j = j + 1;
    }
    assert(files@.subrange(0, j as int) =~= files@);
    shown
}

/// Whether the rendering of the contents of `dir` shows any line.
fn has_content(
    dir: &DirTree,
    extensions: &Vec<String>,
    ignored_extensions: &Vec<String>,
    ignored_folders: &Vec<String>,
    folders_only: bool,
) -> (r: bool)
    ensures
        r == shows_anything(
            *dir,
            views(extensions@),
            views(ignored_extensions@),
            views(ignored_folders@),
            folders_only,
        ),
    decreases *dir,
{
    let ghost exts = views(extensions@);
    let ghost iexts = views(ignored_extensions@);
    let ghost ifold = views(ignored_folders@);
    let names = collect_names(dir);
    let (folders, files) = sorted_children(dir, &names, ignored_folders);
    if !folders_only {
        let filtered = shown_files(dir, &files, extensions, ignored_extensions);
        if filtered.len() > 0 {
            return true;
        }
    }
    let mut k: usize = 0;
    while k < folders.len()
        invariant
            k <= folders@.len(),
            exts == views(extensions@),
            iexts == views(ignored_extensions@),
            ifold == views(ignored_folders@),
            folders@ == child_folders(*dir, ifold),
            forall|q: int| 0 <= q < folders@.len() ==> folders@[q] < dir.entries@.len(),
            child_files(*dir, exts, iexts, folders_only).len() == 0,
            any_visible_from(*dir, 0, exts, iexts, ifold, folders_only) == any_visible_from(
                *dir,
                k as int,
                exts,
                iexts,
                ifold,
                folders_only,
            ),
        decreases folders@.len() - k,
    {
        let idx = folders[k];
        match &dir.entries[idx] {
            Entry::Dir(d) => {
                if folders_only || extensions.len() == 0 {
                    return true;
                }
                assert(decreases_to!(*dir => dir.entries));
                assert(decreases_to!(dir.entries => dir.entries@));
                assert(decreases_to!(dir.entries@ => dir.entries@[idx as int]));
                if has_content(d, extensions, ignored_extensions, ignored_folders, folders_only) {
                    return true;
                }
            },
            Entry::File { .. } => {},
        }
        k = k + 1;
    }
    false
}

/// Whether each of `folders`, kept subdirectories of `dir` by name, shows a line.
fn visible_folders(
    dir: &DirTree,
    folders: &Vec<usize>,
    extensions: &Vec<String>,
    ignored_extensions: &Vec<String>,
    ignored_folders: &Vec<String>,
    folders_only: bool,
) -> (r: Vec<bool>)
    requires
        forall|q: int| 0 <= q < folders@.len() ==> folders@[q] < dir.entries@.len(),
    ensures
        r@.len() == folders@.len(),
        forall|q: int|
            0 <= q < folders@.len() ==> r@[q] == entry_visible(
                *dir,
                folders@[q] as int,
                views(extensions@),
                views(ignored_extensions@),
                views(ignored_folders@),
                folders_only,
            ),
{
    let mut vis: Vec<bool> = Vec::new();
    let mut k: usize = 0;
    while k < folders.len()
        invariant
            k <= folders@.len(),
            vis@.len() == k,
            forall|q: int| 0 <= q < folders@.len() ==> folders@[q] < dir.entries@.len(),
            forall|q: int|
                0 <= q < k ==> vis@[q] == entry_visible(
                    *dir,
                    folders@[q] as int,
                    views(extensions@),
                    views(ignored_extensions@),
                    views(ignored_folders@),
                    folders_only,
                ),
        decreases folders@.len() - k,
    {
        let v = match &dir.entries[folders[k]] {
            Entry::Dir(d) => folders_only || extensions.len() == 0 || has_content(
                d,
                extensions,
                ignored_extensions,
                ignored_folders,
                folders_only,
            ),
            Entry::File { .. } => false,
        };
        vis.push(v);
        k = k + 1;
    }
    vis
}

/// Renders the contents of `dir` at `indent`.
#[verifier::rlimit(60)]
fn build_tree(
    dir: &DirTree,
    extensions: &Vec<String>,
    ignored_extensions: &Vec<String>,
    ignored_folders: &Vec<String>,
    indent: &str,
    folders_only: bool,
) -> (r: String)
    ensures
        r@ == tree_lines(
            *dir,
            indent@,
            views(extensions@),
            views(ignored_extensions@),
            views(ignored_folders@),
            folders_only,
        ),
    decreases *dir,
{
    let ghost exts = views(extensions@);
    let ghost iexts = views(ignored_extensions@);
    let ghost ifold = views(ignored_folders@);
    let names = collect_names(dir);
    let (folders, files) = sorted_children(dir, &names, ignored_folders);
    let filtered: Vec<usize> = if folders_only {
        Vec::new()
    } else {
        shown_files(dir, &files, extensions, ignored_extensions)
    };
    assert(filtered@ == child_files(*dir, exts, iexts, folders_only));
    let vis = visible_folders(
        dir,
        &folders,
        extensions,
        ignored_extensions,
        ignored_folders,
        folders_only,
    );
    let mut output = String::new();
    let mut k: usize = 0;
    assert(output@ + folder_lines_from(*dir, 0, indent@, exts, iexts, ifold, folders_only)
        =~= folder_lines_from(*dir, 0, indent@, exts, iexts, ifold, folders_only));
    while k < folders.len()
        invariant
            k <= folders@.len(),
            exts == views(extensions@),
            iexts == views(ignored_extensions@),
            ifold == views(ignored_folders@),
            folders@ == child_folders(*dir, ifold),
            filtered@ == child_files(*dir, exts, iexts, folders_only),
            vis@.len() == folders@.len(),
            forall|q: int|
                0 <= q < folders@.len() ==> vis@[q] == entry_visible(
                    *dir,
                    folders@[q] as int,
                    exts,
                    iexts,
                    ifold,
                    folders_only,
                ),
            forall|q: int| 0 <= q < folders@.len() ==> folders@[q] < dir.entries@.len(),
            folder_lines_from(*dir, 0, indent@, exts, iexts, ifold, folders_only) == output@
                + folder_lines_from(*dir, k as int, indent@, exts, iexts, ifold, folders_only),
        decreases folders@.len() - k,
    {
        let idx = folders[k];
        let ghost before = output@;
        let ghost rest = folder_lines_from(
            *dir,
            k + 1,
            indent@,
            exts,
            iexts,
            ifold,
            folders_only,
        );
        if vis[k] {
            let mut q: usize = k + 1;
            while q < vis.len() && !vis[q]
                invariant
                    k < q <= vis@.len(),
                    vis@.len() == folders@.len(),
                    folders@ == child_folders(*dir, ifold),
                    forall|j: int|
                        0 <= j < folders@.len() ==> vis@[j] == entry_visible(
                            *dir,
                            folders@[j] as int,
                            exts,
                            iexts,
                            ifold,
                            folders_only,
                        ),
                    any_visible_from(*dir, k + 1, exts, iexts, ifold, folders_only)
                        == any_visible_from(*dir, q as int, exts, iexts, ifold, folders_only),
                decreases vis@.len() - q,
            {
                q = q + 1;
            }
            let later = q < vis.len();
            let is_last = !later && filtered.len() == 0;
            match &dir.entries[idx] {
                Entry::Dir(d) => {
                    let mut ci = String::from_str(indent);
                    let cont = if is_last {
                        "    "
                    } else {
                        "│   "
                    };
                    ci.append(cont);
                    assert(decreases_to!(*dir => dir.entries));
                    assert(decreases_to!(dir.entries => dir.entries@));
                    assert(decreases_to!(dir.entries@ => dir.entries@[idx as int]));
                    let sub = build_tree(
                        d,
                        extensions,
                        ignored_extensions,
                        ignored_folders,
                        ci.as_str(),
                        folders_only,
                    );
                    let prefix = if is_last {
                        "└── "
                    } else {
                        "├── "
                    };
                    output.append(indent);
                    output.append(prefix);
                    output.append("📁 ");
                    output.append(d.name.as_str());
                    output.append("\n");
                    output.append(sub.as_str());
                    assert(output@ + rest =~= before + (indent@ + branch(is_last) + "📁 "@ + d.name@
                        + "\n"@ + sub@ + rest));
                },
                Entry::File { .. } => {
                    assert(output@ + rest =~= before + rest);
                },
            }
        } else {
            assert(output@ + rest =~= before + rest);
        }
        k = k + 1;
    }
    let mut j: usize = 0;
    while j < filtered.len()
        invariant
            j <= filtered@.len(),
            forall|q: int| 0 <= q < filtered@.len() ==> filtered@[q] < dir.entries@.len(),
            tree_lines(*dir, indent@, exts, iexts, ifold, folders_only) == output@
                + file_lines_from(*dir, filtered@, j as int, indent@),
            filtered@ == child_files(*dir, exts, iexts, folders_only),
        decreases filtered@.len() - j,
    {
        let ghost before = output@;
        let ghost rest = file_lines_from(*dir, filtered@, j + 1, indent@);
        let is_last = j == filtered.len() - 1;
        let prefix = if is_last {
            "└── "
        } else {
            "├── "
        };
        let name = name_of(&dir.entries[filtered[j]]);
        output.append(indent);
        output.append(prefix);
        output.append("📄 ");
        output.append(name.as_str());
        output.append("\n");
        assert(output@ + rest =~= before + (indent@ + branch(is_last) + "📄 "@ + name@ + "\n"@
            + rest));
        j = j + 1;
    }
    assert(output@ + file_lines_from(*dir, filtered@, j as int, indent@) =~= output@);
    output
}

/// Renders `root` as a tree: the line `📁 <name>` (the whole path when it has
/// no base name), then at each level the kept subdirectories by name, each with
/// its subtree, then the files that pass the filters, by name. With an
/// allow-list set, a subdirectory whose subtree shows nothing is left out.
/// Connectors are `├── ` and, for the last line shown at a level, `└── `;
/// nested lines continue with `│   ` or, below a last line, four spaces.
pub fn get_hierarchy(
    root: &DirTree,
    extension: String,
    folders_only: bool,
    ignored_extensions: String,
    ignored_folders: Vec<String>,
) -> (r: HierarchyResult)
    ensures
        r.success,
        r.error is None,
        r.hierarchy@ == hierarchy_text(
            *root,
            parsed_extensions(extension@),
            parsed_extensions(ignored_extensions@),
            non_blank(views(ignored_folders@)),
            folders_only,
        ),
{
    let extensions = parse_extensions(extension.as_str());
    let ignored_extensions = parse_extensions(ignored_extensions.as_str());
    let ignored_folders = keep_non_blank(ignored_folders);
    let label = if root.name.unicode_len() == 0 {
        root.path.as_str()
    } else {
        root.name.as_str()
    };
    let mut result = String::from_str("📁 ");
    result.append(label);
    result.append("\n");
    let tree = build_tree(root, &extensions, &ignored_extensions, &ignored_folders, "", folders_only);
    proof {
        reveal_strlit("");
    }
    assert(Seq::<char>::empty() =~= ""@);
    result.append(tree.as_str());
    HierarchyResult { success: true, hierarchy: result, error: None }
}

} // verus!
