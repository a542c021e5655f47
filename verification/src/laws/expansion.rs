//! Which files patterns stand for.

use crate::exchange::Entry;
use crate::expand;
use crate::paths;
use crate::paths::Style;
use crate::prot;
use crate::text;
use vstd::prelude::*;

verus! {

/// Whether a path below the working directory can be protected: it is a plain
/// one, its name can be recorded, and it is not `.prot` itself.
pub open spec fn is_protectable(style: Style, file: Seq<char>) -> bool {
    &&& paths::is_plain(style, file)
    &&& expand::is_recordable(file)
    &&& file != prot::PROT_FILE@
}

/// Whether a match is the file at this path.
pub open spec fn is_file_at(entry: Entry<Seq<char>>, file: Seq<char>) -> bool {
    entry matches Entry::Found { is_file, relative, .. } && is_file && relative == Some(file)
}

/// Whether one of the matches is the file at this path, and it can be
/// protected.
pub open spec fn is_offered(style: Style, entries: Seq<Entry<Seq<char>>>, file: Seq<char>) -> bool {
    &&& is_protectable(style, file)
    &&& exists|k: int| 0 <= k < entries.len() && is_file_at(#[trigger] entries[k], file)
}

/// Expanding a pattern adds the files it matched that can be protected, and
/// nothing else. The files stay in ascending order, each of them once.
pub proof fn expansion_is_exact(
    cwd: Seq<char>,
    style: Style,
    files: Seq<Seq<char>>,
    entries: Seq<Entry<Seq<char>>>,
)
    requires
        text::ascending(files),
    ensures
        text::ascending(expand::with_entries(cwd, style, files, entries).0),
        forall|file: Seq<char>| #[trigger]
            expand::with_entries(cwd, style, files, entries).0.contains(file) <==> files.contains(
                file,
            ) || is_offered(style, entries, file),
    decreases entries.len(),
{
    let all = expand::with_entries(cwd, style, files, entries).0;
    if entries.len() > 0 {
        let fewer = entries.drop_last();
        let last = entries.last();
        let before = expand::with_entries(cwd, style, files, fewer).0;
        expansion_is_exact(cwd, style, files, fewer);
        if let Entry::Found { relative: Some(path), .. } = last {
            text::lemma_with_item(before, path);
        }
        assert forall|file: Seq<char>| #[trigger] all.contains(file) <==> files.contains(file)
            || is_offered(style, entries, file) by {
            assert(all.contains(file) <==> before.contains(file) || (is_file_at(last, file)
                && is_protectable(style, file)));
            assert(before.contains(file) <==> files.contains(file) || is_offered(
                style,
                fewer,
                file,
            ));
            if is_offered(style, fewer, file) {
                let k = choose|k: int|
                    0 <= k < fewer.len() && is_file_at(#[trigger] fewer[k], file);
                assert(entries[k] == fewer[k]);
            }
            if is_file_at(last, file) && is_protectable(style, file) {
                assert(is_file_at(entries[entries.len() - 1], file));
            }
            if is_offered(style, entries, file) {
                let k = choose|k: int|
                    0 <= k < entries.len() && is_file_at(#[trigger] entries[k], file);
                if k < fewer.len() {
                    assert(is_file_at(fewer[k], file));
                }
            }
        }
    }
}

/// A file that stands in ascending files stands there once.
pub proof fn ascending_files_are_distinct(files: Seq<Seq<char>>, i: int, j: int)
    requires
        text::ascending(files),
        0 <= i < j < files.len(),
    ensures
        files[i] != files[j],
{
    text::lemma_before_irreflexive(files[i]);
}

} // verus!
