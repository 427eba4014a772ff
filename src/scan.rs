//! The traversal engine over a directory snapshot: a flat listing and a
//! box-drawn tree rendering.
use vstd::prelude::*;

use crate::filters::{
    extension_allowed, extension_ignored, folder_excluded, is_ignored_file, is_ignored_folder,
    matches_extension, parse_extensions, parsed_extensions, views,
};
use crate::text::{trim_ws, trimmed};
use crate::tree::{DirTree, Entry};
use crate::types::{FileInfo, ListFilesResult};

verus! {

/// The entries of `s` that are not blank, in order.
pub open spec fn non_blank(s: Seq<Seq<char>>) -> Seq<Seq<char>>
    decreases s.len(),
{
    if s.len() == 0 {
        Seq::empty()
    } else if trimmed(s.last()).len() > 0 {
        non_blank(s.drop_last()).push(s.last())
    } else {
        non_blank(s.drop_last())
    }
}

/// What a file of that name contributes to a listing or a tree level.
pub open spec fn file_shown(
    name: Seq<char>,
    exts: Seq<Seq<char>>,
    ignored_exts: Seq<Seq<char>>,
) -> bool {
    !extension_ignored(name, ignored_exts) && extension_allowed(name, exts)
}

/// The listing contributed by the entries of `t` from index `i` on, in order.
pub open spec fn listing_from(
    t: DirTree,
    i: int,
    exts: Seq<Seq<char>>,
    ignored_exts: Seq<Seq<char>>,
    ignored_folders: Seq<Seq<char>>,
    folders_only: bool,
) -> Seq<(Seq<char>, Seq<char>, u64)>
    decreases t, t.entries@.len() - i,
{
    if i < 0 || i >= t.entries@.len() {
        Seq::empty()
    } else {
        let here = match t.entries@[i] {
            Entry::File { name, path, size } => {
                if !folders_only && file_shown(name@, exts, ignored_exts) {
                    seq![(name@, path@, size)]
                } else {
                    Seq::empty()
                }
            },
            Entry::Dir(d) => {
                if folder_excluded(d.name@, d.path@, ignored_folders) {
                    Seq::empty()
                } else {
                    let me: Seq<(Seq<char>, Seq<char>, u64)> = if folders_only {
                        seq![(d.name@, d.path@, 0u64)]
                    } else {
                        Seq::empty()
                    };
                    me + listing_from(d, 0, exts, ignored_exts, ignored_folders, folders_only)
                }
            },
        };
        here + listing_from(t, i + 1, exts, ignored_exts, ignored_folders, folders_only)
    }
}

/// The depth-first pre-order listing of `t`: nothing when `t` itself is excluded.
pub open spec fn tree_listing(
    t: DirTree,
    exts: Seq<Seq<char>>,
    ignored_exts: Seq<Seq<char>>,
    ignored_folders: Seq<Seq<char>>,
    folders_only: bool,
) -> Seq<(Seq<char>, Seq<char>, u64)> {
    if folder_excluded(t.name@, t.path@, ignored_folders) {
        Seq::empty()
    } else {
        listing_from(t, 0, exts, ignored_exts, ignored_folders, folders_only)
    }
}

/// The views of a sequence of listing entries.
pub open spec fn info_views(v: Seq<FileInfo>) -> Seq<(Seq<char>, Seq<char>, u64)> {
    v.map_values(|f: FileInfo| f@)
}

/// Drops the blank entries of an ignored-folder list.
pub(crate) fn keep_non_blank(entries: Vec<String>) -> (r: Vec<String>)
    ensures
        views(r@) == non_blank(views(entries@)),
{
    let mut out: Vec<String> = Vec::new();
    let mut i: usize = 0;
    while i < entries.len()
        invariant
            i <= entries@.len(),
            views(out@) == non_blank(views(entries@.subrange(0, i as int))),
        decreases entries@.len() - i,
    {
        let t = trim_ws(entries[i].as_str());
        assert(views(entries@.subrange(0, i + 1)).drop_last() =~= views(
            entries@.subrange(0, i as int),
        ));
        assert(views(entries@.subrange(0, i + 1)).last() == entries@[i as int]@);
        if t.unicode_len() > 0 {
            out.push(entries[i].clone());
            assert(views(out@) =~= non_blank(views(entries@.subrange(0, i as int))).push(
                entries@[i as int]@,
            ));
        }
        i = i + 1;
    }
    assert(entries@.subrange(0, entries@.len() as int) =~= entries@);
    out
}

/// Appends the listing of `dir` to `files`.
fn scan_dir(
    dir: &DirTree,
    extensions: &Vec<String>,
    ignored_extensions: &Vec<String>,
    ignored_folders: &Vec<String>,
    files: &mut Vec<FileInfo>,
    folders_only: bool,
)
    ensures
        info_views(final(files)@) == info_views(old(files)@) + tree_listing(
            *dir,
            views(extensions@),
            views(ignored_extensions@),
            views(ignored_folders@),
            folders_only,
        ),
    decreases *dir,
{
    let ghost exts = views(extensions@);
    let ghost iexts = views(ignored_extensions@);
    let ghost ifold = views(ignored_folders@);
    if is_ignored_folder(dir.name.as_str(), dir.path.as_str(), ignored_folders.as_slice()) {
        assert(info_views(final(files)@) =~= info_views(old(files)@) + Seq::empty());
        return;
    }
    let mut i: usize = 0;
    assert(info_views(files@) =~= info_views(old(files)@));
    while i < dir.entries.len()
        invariant
            i <= dir.entries@.len(),
            exts == views(extensions@),
            iexts == views(ignored_extensions@),
            ifold == views(ignored_folders@),
            !folder_excluded(dir.name@, dir.path@, ifold),
            info_views(old(files)@) + tree_listing(*dir, exts, iexts, ifold, folders_only)
                == info_views(files@) + listing_from(*dir, i as int, exts, iexts, ifold, folders_only),
        decreases dir.entries@.len() - i,
    {
        let ghost before = info_views(files@);
        match &dir.entries[i] {
            Entry::File { name, path, size } => {
                if !folders_only && !is_ignored_file(name.as_str(), ignored_extensions.as_slice())
                    && matches_extension(name.as_str(), extensions.as_slice()) {
                    files.push(FileInfo { name: name.clone(), path: path.clone(), size: *size });
                    assert(info_views(files@) =~= before + seq![(name@, path@, *size)]);
                } else {
                    assert(info_views(files@) =~= before + Seq::empty());
                }
            },
            Entry::Dir(d) => {
                if is_ignored_folder(d.name.as_str(), d.path.as_str(), ignored_folders.as_slice()) {
                    assert(info_views(files@) =~= before + Seq::empty());
                } else {
                    if folders_only {
                        files.push(FileInfo { name: d.name.clone(), path: d.path.clone(), size: 0 });
                        assert(info_views(files@) =~= before + seq![(d.name@, d.path@, 0u64)]);
                    } else {
                        assert(info_views(files@) =~= before + Seq::empty());
                    }
                    let ghost mid = info_views(files@);
                    assert(decreases_to!(*dir => dir.entries));
                    assert(decreases_to!(dir.entries => dir.entries@));
                    assert(decreases_to!(dir.entries@ => dir.entries@[i as int]));
                    scan_dir(d, extensions, ignored_extensions, ignored_folders, files, folders_only);
                    assert(info_views(files@) =~= before + ((mid.subrange(
                        before.len() as int,
                        mid.len() as int,
                    )) + listing_from(*d, 0, exts, iexts, ifold, folders_only)));
                }
            },
        }
        i = i + 1;
    }
    assert(info_views(files@) =~= info_views(files@) + Seq::empty());
}

/// Lists, depth first and in directory-read order, the files of `root` that
/// pass the extension filters, or with `folders_only` the folders instead.
/// Folders that `ignored_folders` excludes are neither listed nor entered;
/// when `root` itself is excluded the listing is empty.
pub fn list_files(
    root: &DirTree,
    extension: String,
    folders_only: bool,
    ignored_extensions: String,
    ignored_folders: Vec<String>,
) -> (r: ListFilesResult)
    ensures
        r.success,
        r.error is None,
        info_views(r.files@) == tree_listing(
            *root,
            parsed_extensions(extension@),
            parsed_extensions(ignored_extensions@),
            non_blank(views(ignored_folders@)),
            folders_only,
        ),
{
    let extensions = parse_extensions(extension.as_str());
    let ignored_extensions = parse_extensions(ignored_extensions.as_str());
    let ignored_folders = keep_non_blank(ignored_folders);
    let mut files: Vec<FileInfo> = Vec::new();
    scan_dir(root, &extensions, &ignored_extensions, &ignored_folders, &mut files, folders_only);
    assert(info_views(Seq::<FileInfo>::empty()) =~= Seq::empty());
    ListFilesResult { success: true, files, error: None }
}

/// In folders-only mode a listing holds folders alone: every entry has size 0,
/// and the extension lists change nothing.
pub proof fn lemma_folders_only_listing(
    t: DirTree,
    i: int,
    exts: Seq<Seq<char>>,
    ignored_exts: Seq<Seq<char>>,
    ignored_folders: Seq<Seq<char>>,
)
    ensures
        forall|q: int|
            0 <= q < listing_from(t, i, exts, ignored_exts, ignored_folders, true).len()
                ==> #[trigger] listing_from(t, i, exts, ignored_exts, ignored_folders, true)[q].2
                == 0,
        listing_from(t, i, exts, ignored_exts, ignored_folders, true) == listing_from(
            t,
            i,
            Seq::empty(),
            Seq::empty(),
            ignored_folders,
            true,
        ),
    decreases t, t.entries@.len() - i,
{
    if 0 <= i < t.entries@.len() {
        lemma_folders_only_listing(t, i + 1, exts, ignored_exts, ignored_folders);
        let rest = listing_from(t, i + 1, exts, ignored_exts, ignored_folders, true);
        match t.entries@[i] {
            Entry::File { .. } => {
                assert(listing_from(t, i, exts, ignored_exts, ignored_folders, true) =~= rest);
                assert(listing_from(t, i, Seq::empty(), Seq::empty(), ignored_folders, true)
                    =~= rest);
            },
            Entry::Dir(d) => {
                assert(decreases_to!(t => t.entries));
                assert(decreases_to!(t.entries => t.entries@));
                assert(decreases_to!(t.entries@ => t.entries@[i]));
                lemma_folders_only_listing(d, 0, exts, ignored_exts, ignored_folders);
                let all = listing_from(t, i, exts, ignored_exts, ignored_folders, true);
                if folder_excluded(d.name@, d.path@, ignored_folders) {
                    assert(all =~= rest);
                } else {
                    let sub = listing_from(d, 0, exts, ignored_exts, ignored_folders, true);
                    let me: Seq<(Seq<char>, Seq<char>, u64)> = seq![(d.name@, d.path@, 0u64)];
                    assert(all =~= me + sub + rest);
                    assert forall|q: int| 0 <= q < all.len() implies #[trigger] all[q].2 == 0 by {
                        if q == 0 {
                        } else if q < 1 + sub.len() {
                            assert(all[q] == sub[q - 1]);
                        } else {
                            assert(all[q] == rest[q - 1 - sub.len()]);
                        }
                    }
                }
            },
        }
    }
}

} // verus!
