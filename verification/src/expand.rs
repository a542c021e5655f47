//! From the patterns in `.prot` to the files they protect.

use crate::exchange;
use crate::exchange::Entry;
use crate::exchange::Line;
use crate::outside;
use crate::paths;
use crate::paths::Place;
use crate::paths::PlaceView;
use crate::paths::Style;
use crate::prot;
use crate::text;
use vstd::prelude::*;

verus! {

// ---------------------------------------------------------------------------
// what to look for
// ---------------------------------------------------------------------------
/// The glob pattern that finds what `pattern` stands for in the working
/// directory. A rooted pattern stands alone; any other is looked for below the
/// working directory, whose own name is taken literally.
pub open spec fn search_for(place: PlaceView, pattern: Seq<char>) -> Seq<char> {
    if paths::rooted(place.style, pattern) {
        paths::taken_from(place, pattern)
    } else {
        outside::escaped(place.cwd) + seq![paths::main_separator(place.style)] + pattern
    }
}

/// The glob pattern that finds what `pattern` stands for in the working
/// directory.
pub fn search_pattern(place: &Place, pattern: &str) -> (r: String)
    ensures
        r@ == search_for(place@, pattern@),
{
    if paths::has_root(place.style, pattern) {
        paths::join(place, pattern)
    } else {
        outside::escape_pattern(place.cwd.as_str()).concat(
            paths::separator(place.style).as_str(),
        ).concat(pattern)
    }
}

// ---------------------------------------------------------------------------
// what was found
// ---------------------------------------------------------------------------
/// Whether a name can stand in `.prot` and be read back: it holds no control
/// character, and no white space at its ends.
pub open spec fn is_recordable(file: Seq<char>) -> bool {
    (forall|i: int| 0 <= i < file.len() ==> !text::is_control_char(#[trigger] file[i]))
        && text::trimmed(file) == file
}

/// What becomes of one match: the files so far with it, or a warning. Only a
/// file with a plain path below the working directory is taken, so that what is
/// recorded can be restored.
pub open spec fn with_entry(
    cwd: Seq<char>,
    style: Style,
    files: Seq<Seq<char>>,
    entry: Entry<Seq<char>>,
) -> (Seq<Seq<char>>, Seq<Line<Seq<char>>>) {
    match entry {
        Entry::Unreadable { shown } => (
            files,
            seq![Line::Warn("  warning: could not read "@ + shown + " — skipped"@)],
        ),
        Entry::Found { shown, is_file, relative } => {
            if !is_file {
                (files, seq![])
            } else if relative is None || !paths::is_plain(style, relative->0) {
                (
                    files,
                    seq![
                        Line::Warn(
                            "  warning: "@ + shown + " is outside "@ + cwd
                                + " — skipped (dotprot only protects files inside the working directory)"@,
                        ),
                    ],
                )
            } else if !is_recordable(relative->0) {
                (
                    files,
                    seq![
                        Line::Warn(
                            "  warning: "@ + outside::quoted(relative->0)
                                + " has control characters or leading/trailing whitespace in its name — skipped (unsupported in .prot)"@,
                        ),
                    ],
                )
            } else if relative->0 == prot::PROT_FILE@ {
                (files, seq![])
            } else {
                (text::with_item(files, relative->0), seq![])
            }
        },
    }
}

/// What becomes of a list of matches.
pub open spec fn with_entries(
    cwd: Seq<char>,
    style: Style,
    files: Seq<Seq<char>>,
    entries: Seq<Entry<Seq<char>>>,
) -> (Seq<Seq<char>>, Seq<Line<Seq<char>>>)
    decreases entries.len(),
{
    if entries.len() == 0 {
        (files, seq![])
    } else {
        let before = with_entries(cwd, style, files, entries.drop_last());
        let after = with_entry(cwd, style, before.0, entries.last());
        (after.0, before.1 + after.1)
    }
}

/// Whether a name can stand in `.prot` and be read back.
pub fn recordable(file: &str) -> (r: bool)
    ensures
        r == is_recordable(file@),
{
    let chars = text::chars_of(file);
    let mut i: usize = 0;
    while i < chars.len()
        invariant
            i <= chars@.len(),
            chars@ == file@,
            forall|j: int| 0 <= j < i ==> !text::is_control_char(#[trigger] file@[j]),
        decreases chars@.len() - i,
    {
        if text::control_char(chars[i]) {
            assert(text::is_control_char(file@[i as int]));
            return false;
        }
        i += 1;
    }
    text::same(text::trim(file).as_str(), file)
}

/// The warning that a name cannot stand in `.prot`, with the name as it is
/// quoted.
pub fn unsupported_warning(shown: String) -> (r: Line)
    ensures
        r@ == Line::Warn(
            "  warning: "@ + shown@
                + " has control characters or leading/trailing whitespace in its name — skipped (unsupported in .prot)"@,
        ),
{
    Line::Warn(
        "  warning: ".to_owned().concat(shown.as_str()).concat(
            " has control characters or leading/trailing whitespace in its name — skipped (unsupported in .prot)",
        ),
    )
}

/// Adds one match to the files so far, or warns of it.
fn take_entry(
    cwd: &str,
    style: Style,
    files: &mut Vec<String>,
    entry: &Entry,
    lines: &mut Vec<Line>,
)
    ensures
        text::texts(final(files)@) == with_entry(
            cwd@,
            style,
            text::texts(old(files)@),
            entry@,
        ).0,
        exchange::line_views(final(lines)@) == exchange::line_views(old(lines)@) + with_entry(
            cwd@,
            style,
            text::texts(old(files)@),
            entry@,
        ).1,
{
    let ghost said = exchange::line_views(lines@);
    let ghost added = with_entry(cwd@, style, text::texts(files@), entry@).1;
    match entry {
        Entry::Unreadable { shown } => {
            lines.push(
                Line::Warn(
                    "  warning: could not read ".to_owned().concat(shown.as_str()).concat(
                        " — skipped",
                    ),
                ),
            );
        },
        Entry::Found { shown, is_file, relative } => {
            if *is_file {
                match relative {
                    Some(rel) if paths::plain(style, rel.as_str()) => {
                        if !recordable(rel.as_str()) {
                            lines.push(unsupported_warning(outside::debug_text(rel.as_str())));
                        } else if !text::same(rel.as_str(), prot::PROT_FILE) {
                            text::insert(files, rel.clone());
                        }
                    },
                    _ => {
                        lines.push(
                            Line::Warn(
                                "  warning: ".to_owned().concat(shown.as_str()).concat(
                                    " is outside ",
                                ).concat(cwd).concat(
                                    " — skipped (dotprot only protects files inside the working directory)",
                                ),
                            ),
                        );
                    },
                }
            }
        },
    }
    assert(exchange::line_views(lines@) =~= said + added);
}

/// Adds the matches of a pattern to the files so far. The files are plain paths
/// below the working directory in ascending order, each once; `.prot` itself is never among them.
/// What cannot be protected is warned of.
pub fn expand_patterns(place: &Place, files: Vec<String>, entries: &Vec<Entry>) -> (r: (
    Vec<String>,
    Vec<Line>,
))
    ensures
        (text::texts(r.0@), exchange::line_views(r.1@)) == with_entries(
            place.cwd@,
            place.style,
            text::texts(files@),
            exchange::entry_views(entries@),
        ),
{
    let ghost start = text::texts(files@);
    let ghost all = exchange::entry_views(entries@);
    let mut files = files;
    let mut lines: Vec<Line> = Vec::new();
    let mut i: usize = 0;
    assert(exchange::line_views(lines@) =~= seq![]);
    while i < entries.len()
        invariant
            i <= entries@.len(),
            all == exchange::entry_views(entries@),
            text::texts(files@) == with_entries(
                place.cwd@,
                place.style,
                start,
                all.take(i as int),
            ).0,
            exchange::line_views(lines@) == with_entries(
                place.cwd@,
                place.style,
                start,
                all.take(i as int),
            ).1,
        decreases entries@.len() - i,
    {
        proof {
            assert(all.take(i as int + 1).drop_last() =~= all.take(i as int));
            assert(all.take(i as int + 1).last() == entries@[i as int]@);
        }
        take_entry(place.cwd.as_str(), place.style, &mut files, &entries[i], &mut lines);
        i += 1;
    }
    assert(all.take(i as int) =~= all);
    (files, lines)
}

} // verus!
