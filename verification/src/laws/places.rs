//! Where things are: paths, and the backups of `.prot`.

use super::backups;
use super::titles;
use crate::backup;
use crate::paths;
use crate::paths::PlaceView;
use crate::paths::Style;
use vstd::prelude::*;

verus! {

// ---------------------------------------------------------------------------
// pieces
// ---------------------------------------------------------------------------
/// A path is split at its separators: what stands before one and after it is
/// split on its own, and what holds none is one piece. `/` is a separator
/// everywhere, and `\` on Windows.
pub proof fn a_path_is_split_at_its_separators(
    style: Style,
    before: Seq<char>,
    c: char,
    after: Seq<char>,
    name: Seq<char>,
)
    requires
        c == '/' || (c == '\\' && style == Style::Windows),
        forall|i: int|
            0 <= i < name.len() ==> #[trigger] name[i] != '/' && (name[i] != '\\' || style
                == Style::Unix),
    ensures
        paths::pieces(style, before + seq![c] + after) == paths::pieces(style, before)
            + paths::pieces(style, after),
        paths::pieces(style, name) == seq![name],
{
    titles::lemma_pieces_split(style, before, c, after);
    titles::lemma_one_piece(style, name);
}

/// Whether a name is one that a path can go through: not empty, neither `.` nor
/// `..`, and without separators.
pub open spec fn is_step(style: Style, name: Seq<char>) -> bool {
    titles::is_proper(style, name) && name != ".."@
}

/// Whether all these are names that a path can go through.
pub open spec fn are_steps(style: Style, names: Seq<Seq<char>>) -> bool {
    forall|i: int| 0 <= i < names.len() ==> is_step(style, #[trigger] names[i])
}

proof fn lemma_pieces_along(style: Style, names: Seq<Seq<char>>)
    requires
        are_steps(style, names),
        names.len() > 0,
    ensures
        paths::pieces(style, paths::along(style, names)) == names,
    decreases names.len(),
{
    let last = names[names.len() - 1];
    assert(is_step(style, last));
    titles::lemma_one_piece(style, last);
    if names.len() == 1 {
        assert(names =~= seq![last]);
    } else {
        let fewer = names.drop_last();
        lemma_fewer(style, names);
        lemma_pieces_along(style, fewer);
        titles::lemma_pieces_split(
            style,
            paths::along(style, fewer),
            paths::main_separator(style),
            last,
        );
        assert(fewer + seq![last] =~= names);
    }
}

proof fn lemma_fewer(style: Style, names: Seq<Seq<char>>)
    requires
        are_steps(style, names),
        names.len() > 0,
    ensures
        are_steps(style, names.drop_last()),
        titles::are_proper(style, names),
        backups::are_names(style, names),
{
    let fewer = names.drop_last();
    assert forall|i: int| 0 <= i < fewer.len() implies is_step(style, #[trigger] fewer[i]) by {
        assert(fewer[i] == names[i]);
    }
    assert forall|i: int| 0 <= i < names.len() implies titles::is_proper(
        style,
        #[trigger] names[i],
    ) by {
        assert(is_step(style, names[i]));
    }
    assert forall|i: int| 0 <= i < names.len() implies backups::is_name(
        style,
        #[trigger] names[i],
    ) by {
        assert(is_step(style, names[i]));
    }
}

proof fn lemma_along_first(style: Style, names: Seq<Seq<char>>)
    requires
        are_steps(style, names),
        names.len() > 0,
    ensures
        paths::along(style, names).len() >= names[0].len(),
        paths::along(style, names).take(names[0].len() as int) == names[0],
        names.len() > 1 ==> paths::along(style, names).len() > names[0].len() && paths::along(
            style,
            names,
        )[names[0].len() as int] == paths::main_separator(style),
    decreases names.len(),
{
    let all = paths::along(style, names);
    let n = names[0].len() as int;
    if names.len() == 1 {
        assert(all.take(n) =~= names[0]);
    } else {
        let fewer = names.drop_last();
        lemma_fewer(style, names);
        lemma_along_first(style, fewer);
        let before = paths::along(style, fewer);
        assert(all.take(n) =~= before.take(n));
        if fewer.len() > 1 {
            assert(all[n] == before[n]);
        } else {
            assert(before == names[0]);
        }
    }
}

/// A path made of names is plain, so that it can be protected and restored. On
/// Windows the first name must not look like a drive.
pub proof fn a_path_made_of_names_is_plain(style: Style, names: Seq<Seq<char>>)
    requires
        are_steps(style, names),
        names.len() > 0,
        !paths::has_drive(style, names[0]),
    ensures
        paths::is_plain(style, paths::along(style, names)),
{
    let path = paths::along(style, names);
    let first = names[0];
    lemma_pieces_along(style, names);
    lemma_along_first(style, names);
    assert(is_step(style, first));
    assert(path[0] == path.take(first.len() as int)[0]);
    assert(!paths::is_separator(style, first[0]));
    if paths::has_drive(style, path) {
        if first.len() >= 2 {
            assert(path[1] == path.take(first.len() as int)[1]);
        }
    }
    if paths::climbs(style, path) {
        let i = choose|i: int|
            0 <= i < paths::pieces(style, path).len() && #[trigger] paths::pieces(style, path)[i]
                == ".."@;
        assert(is_step(style, names[i]));
    }
}

/// No path that begins at a root, with a drive, or with `.`, or that goes up
/// anywhere, is plain; nor is the empty one.
pub proof fn what_leaves_the_directory_is_not_plain(
    style: Style,
    before: Seq<char>,
    c: char,
    after: Seq<char>,
)
    requires
        c == '/' || (c == '\\' && style == Style::Windows),
    ensures
        !paths::is_plain(style, Seq::empty()),
        !paths::is_plain(style, seq![c] + after),
        !paths::is_plain(style, ".."@),
        !paths::is_plain(style, "."@),
        !paths::is_plain(style, "."@ + seq![c] + after),
        !paths::is_plain(style, ".."@ + seq![c] + after),
        !paths::is_plain(style, before + seq![c] + ".."@),
        !paths::is_plain(style, before + seq![c] + (".."@ + seq![c] + after)),
        style == Style::Windows && before.len() >= 2 && before[1] == ':' && ('a' <= before[0] <= 'z'
            || 'A' <= before[0] <= 'Z') ==> !paths::is_plain(style, before),
{
    reveal_strlit(".");
    reveal_strlit("..");
    titles::lemma_one_piece(style, "."@);
    titles::lemma_one_piece(style, ".."@);
    titles::lemma_pieces_split(style, "."@, c, after);
    titles::lemma_pieces_split(style, ".."@, c, after);
    titles::lemma_pieces_split(style, before, c, ".."@);
    titles::lemma_pieces_split(style, before, c, ".."@ + seq![c] + after);
    paths::lemma_pieces(style, before);
    let n = paths::pieces(style, before).len() as int;
    let up = ".."@ + seq![c] + after;
    let inside = before + seq![c] + up;
    assert((seq![c] + after)[0] == c);
    assert(paths::pieces(style, ".."@)[0] == ".."@);
    assert(paths::pieces(style, up)[0] == ".."@);
    assert(paths::pieces(style, "."@ + seq![c] + after)[0] == "."@);
    assert(paths::pieces(style, before + seq![c] + ".."@)[n] == ".."@);
    assert(paths::pieces(style, inside)[n] == ".."@);
}

/// The name of a file is the last name of its path.
pub proof fn the_name_of_a_file_is_its_last_name(style: Style, names: Seq<Seq<char>>)
    requires
        are_steps(style, names),
        names.len() > 0,
        !paths::has_drive(style, names[0]),
    ensures
        paths::name_of(style, paths::along(style, names)) == names.last(),
{
    let path = paths::along(style, names);
    a_path_made_of_names_is_plain(style, names);
    lemma_pieces_along(style, names);
    assert(is_step(style, names[names.len() - 1]));
}

proof fn lemma_above(style: Style, names: Seq<Seq<char>>, i: int)
    requires
        0 <= i < names.len() - 1,
    ensures
        paths::above(style, names).len() == names.len() - 1,
        paths::above(style, names)[i] == paths::along(style, names.take(i + 1)),
    decreases names.len(),
{
    let fewer = names.drop_last();
    if names.len() == 2 {
        assert(paths::above(style, fewer).len() == 0);
        assert(names.take(1) =~= fewer);
    } else {
        lemma_above(style, fewer, 0);
        if i < fewer.len() - 1 {
            lemma_above(style, fewer, i);
            assert(fewer.take(i + 1) =~= names.take(i + 1));
            assert(paths::above(style, names)[i] == paths::above(style, fewer)[i]);
        } else {
            assert(names.take(i + 1) =~= fewer);
        }
    }
}

/// The directories on the way to a file are those that its path goes through,
/// all of them, from the outermost in.
pub proof fn the_way_to_a_file_is_every_directory_above_it(
    style: Style,
    names: Seq<Seq<char>>,
    i: int,
)
    requires
        are_steps(style, names),
        0 <= i < names.len() - 1,
    ensures
        paths::directories_to(style, paths::along(style, names)).len() == names.len() - 1,
        paths::directories_to(style, paths::along(style, names))[i] == paths::along(
            style,
            names.take(i + 1),
        ),
{
    lemma_pieces_along(style, names);
    lemma_all_significant(style, names);
    lemma_above(style, names, i);
}

proof fn lemma_all_significant(style: Style, names: Seq<Seq<char>>)
    requires
        are_steps(style, names),
    ensures
        paths::significant(names) == names,
    decreases names.len(),
{
    if names.len() == 0 {
        assert(paths::significant(names) =~= names);
    } else {
        lemma_fewer(style, names);
        lemma_all_significant(style, names.drop_last());
        assert(is_step(style, names[names.len() - 1]));
        assert(paths::significant(names) =~= names);
    }
}

/// A path begins at a root where a separator comes first, or, on Windows, first
/// after a drive; `C:x` does not.
pub proof fn what_begins_at_a_root(style: Style, path: Seq<char>, letter: char, rest: Seq<char>)
    requires
        'a' <= letter <= 'z' || 'A' <= letter <= 'Z',
    ensures
        !paths::rooted(style, Seq::empty()),
        path.len() > 0 && (path[0] == '/' || (path[0] == '\\' && style == Style::Windows))
            ==> paths::rooted(style, path),
        path.len() > 0 && style == Style::Unix && path[0] != '/' ==> !paths::rooted(style, path),
        style == Style::Windows && rest.len() > 0 ==> (paths::rooted(
            style,
            seq![letter, ':'] + rest,
        ) <==> rest[0] == '/' || rest[0] == '\\'),
        style == Style::Windows ==> !paths::rooted(style, seq![letter, ':']),
{
    let on_drive = seq![letter, ':'] + rest;
    assert(on_drive[0] == letter && on_drive[1] == ':');
    if rest.len() > 0 {
        assert(on_drive[2] == rest[0]);
    }
}

// ---------------------------------------------------------------------------
// joining
// ---------------------------------------------------------------------------
/// On Unix a plain path is taken from the working directory by putting it after
/// that, with one `/` between them.
pub proof fn a_plain_path_is_put_after_the_directory(place: PlaceView, file: Seq<char>)
    requires
        place.style == Style::Unix,
        place.cwd.len() > 0,
        paths::is_plain(place.style, file),
    ensures
        place.cwd.last() != '/' ==> paths::taken_from(place, file) == place.cwd + seq!['/'] + file,
        place.cwd.last() == '/' ==> paths::taken_from(place, file) == place.cwd + file,
{
}

/// On Windows a path with a drive stands alone, and so does one on a share; one
/// that begins at a root is taken from the root of the working directory's drive
/// or share; and a plain one is put after the working directory.
pub proof fn windows_paths_are_taken_by_what_they_begin_with(
    place: PlaceView,
    path: Seq<char>,
    server: Seq<char>,
    share: Seq<char>,
    rest: Seq<char>,
)
    requires
        place.style == Style::Windows,
    ensures
        path.len() >= 2 && path[1] == ':' && ('a' <= path[0] <= 'z' || 'A' <= path[0] <= 'Z')
            ==> paths::taken_from(place, path) == path,
        backups::is_name(Style::Windows, server) && backups::is_name(Style::Windows, share)
            ==> paths::taken_from(place, titles::on_network(server, share)) == titles::on_network(
            server,
            share,
        ) && paths::taken_from(place, titles::on_network(server, share) + seq!['\\'] + rest)
            == titles::on_network(server, share) + seq!['\\'] + rest,
        !paths::is_verbatim(place) && rest.len() > 0 && !paths::is_separator(Style::Windows, rest[0])
            ==> paths::taken_from(place, seq!['\\'] + rest) == paths::prefix_of(place.components)
            + (seq!['\\'] + rest),
        !paths::is_verbatim(place) && paths::is_plain(Style::Windows, path) && place.cwd.len() > 2
            ==> paths::taken_from(place, path) == (if place.cwd.last() == '\\' || place.cwd.last()
            == '/' {
            place.cwd + path
        } else {
            place.cwd + seq!['\\'] + path
        }),
{
    reveal_strlit("\\\\?\\");
    let style = Style::Windows;
    if backups::is_name(style, server) && backups::is_name(style, share) {
        let short = titles::on_network(server, share);
        let long = short + seq!['\\'] + rest;
        assert(short.take(short.len() as int) =~= short);
        assert(long.take(short.len() as int) =~= short);
        lemma_share_begins(short, server, share);
        lemma_share_begins(long, server, share);
    }
    let from_root = seq!['\\'] + rest;
    assert(from_root[0] == '\\');
    if rest.len() > 0 {
        assert(from_root[1] == rest[0]);
    }
}

proof fn lemma_piece_end(path: Seq<char>, from: int, to: int)
    requires
        0 <= from <= to <= path.len(),
        forall|i: int|
            from <= i < to ==> !paths::is_separator(Style::Windows, #[trigger] path[i]),
        to == path.len() || paths::is_separator(Style::Windows, path[to]),
    ensures
        paths::piece_end(Style::Windows, path, from) == to,
    decreases to - from,
{
    if from < to {
        lemma_piece_end(path, from + 1, to);
    }
}

proof fn lemma_share_begins(path: Seq<char>, server: Seq<char>, share: Seq<char>)
    requires
        backups::is_name(Style::Windows, server),
        backups::is_name(Style::Windows, share),
        path.len() >= titles::on_network(server, share).len(),
        path.take(titles::on_network(server, share).len() as int) == titles::on_network(
            server,
            share,
        ),
        path.len() > titles::on_network(server, share).len() ==> path[titles::on_network(
            server,
            share,
        ).len() as int] == '\\',
    ensures
        paths::has_share(Style::Windows, path),
{
    let start = titles::on_network(server, share);
    let m = 2 + server.len() as int;
    let n = start.len() as int;
    assert forall|i: int| 0 <= i < n implies path[i] == start[i] by {
        assert(path.take(n)[i] == path[i]);
    }
    assert forall|i: int| 2 <= i < m implies !paths::is_separator(
        Style::Windows,
        #[trigger] path[i],
    ) by {
        assert(path[i] == server[i - 2]);
    }
    assert(path[m] == '\\');
    assert forall|i: int| m + 1 <= i < n implies !paths::is_separator(
        Style::Windows,
        #[trigger] path[i],
    ) by {
        assert(path[i] == share[i - m - 1]);
    }
    lemma_piece_end(path, 2, m);
    lemma_piece_end(path, m + 1, n);
}

/// Below a verbatim directory a plain path is written as the names it goes
/// through, one `\` before each.
pub proof fn a_plain_path_below_a_verbatim_directory(
    place: PlaceView,
    volume: Seq<char>,
    names: Seq<Seq<char>>,
    file: Seq<char>,
)
    requires
        titles::is_at(place, Some(volume), names),
        paths::is_verbatim(place),
        paths::is_plain(place.style, file),
    ensures
        paths::taken_from(place, file) == volume + seq!['\\'] + paths::along(
            Style::Windows,
            names + paths::names_in(place.style, file),
        ),
{
    titles::lemma_verbatim_title(place, volume, names, file);
    lemma_along_concat(Style::Windows, names, paths::names_in(place.style, file));
}

proof fn lemma_along_concat(style: Style, a: Seq<Seq<char>>, b: Seq<Seq<char>>)
    requires
        b.len() > 0,
    ensures
        paths::along(style, a + b) == (if a.len() == 0 {
            paths::along(style, b)
        } else {
            paths::along(style, a) + seq![paths::main_separator(style)] + paths::along(style, b)
        }),
    decreases b.len(),
{
    let c = paths::main_separator(style);
    if a.len() == 0 {
        assert(a + b =~= b);
    } else {
        let fewer = b.drop_last();
        assert((a + b).drop_last() =~= a + fewer);
        assert((a + b).last() == b.last());
        if b.len() == 1 {
            assert(a + fewer =~= a);
            assert(paths::along(style, a + b) =~= paths::along(style, a) + seq![c] + paths::along(
                style,
                b,
            ));
        } else {
            lemma_along_concat(style, a, fewer);
            assert(paths::along(style, a + b) =~= paths::along(style, a) + seq![c] + paths::along(
                style,
                b,
            ));
        }
    }
}

// ---------------------------------------------------------------------------
// backups
// ---------------------------------------------------------------------------
proof fn lemma_nested_along(style: Style, base: Seq<char>, names: Seq<Seq<char>>)
    requires
        backups::takes_separator(style, base),
        backups::are_names(style, names),
        names.len() > 0,
    ensures
        backup::nested(style, base, names) == base + seq![paths::main_separator(style)]
            + paths::along(style, names),
    decreases names.len(),
{
    let c = paths::main_separator(style);
    let fewer = names.drop_last();
    assert forall|i: int| 0 <= i < fewer.len() implies backups::is_name(
        style,
        #[trigger] fewer[i],
    ) by {
        assert(fewer[i] == names[i]);
    }
    backups::lemma_nested(style, base, fewer);
    if names.len() == 1 {
        assert(fewer =~= seq![]);
        assert(backup::nested(style, base, fewer) == base);
        assert(backup::nested(style, base, names) =~= base + seq![c] + paths::along(style, names));
    } else {
        lemma_nested_along(style, base, fewer);
        assert(backup::nested(style, base, names) =~= base + seq![c] + paths::along(style, names));
    }
}

/// On Unix the backup of a project's `.prot` mirrors the project's path below
/// `.prot/backups` in the home directory.
pub proof fn a_backup_mirrors_the_project(home: Seq<char>, names: Seq<Seq<char>>)
    requires
        home.len() > 0,
        home.last() != '/',
        backups::are_names(Style::Unix, names),
        names.len() > 0,
    ensures
        backup::backup_dir(Style::Unix, home, backups::absolute(None, names)) == home
            + "/.prot/backups/"@ + paths::along(Style::Unix, names),
        backup::backup_path(Style::Unix, home, backups::absolute(None, names)) == home
            + "/.prot/backups/"@ + paths::along(Style::Unix, names) + "/.prot"@,
{
    reveal_strlit("/.prot/backups/");
    reveal_strlit(".prot");
    reveal_strlit("/.prot");
    reveal_strlit("backups");
    let style = Style::Unix;
    let none: Option<Seq<char>> = None;
    let base = backup::backups_in(style, home);
    let dir = paths::below(style, home, ".prot"@);
    let way = paths::along(style, names);
    assert(dir =~= home + seq!['/'] + ".prot"@);
    assert(dir.last() == 't');
    assert(base =~= dir + seq!['/'] + "backups"@);
    backups::lemma_backups_in(style, home);
    backups::lemma_directories(none, names);
    backups::lemma_root_directories(none);
    let empty: Seq<Seq<char>> = seq![];
    assert(empty + names =~= names);
    lemma_nested_along(style, base, names);
    backups::lemma_nested(style, base, names);
    let project = backup::backup_dir(style, home, backups::absolute(none, names));
    assert(project =~= home + "/.prot/backups/"@ + way);
    assert(backup::backup_path(style, home, backups::absolute(none, names)) =~= project
        + "/.prot"@);
}

/// On Windows the drive or share comes first, under its own name.
pub proof fn a_backup_mirrors_the_volume(
    home: Seq<char>,
    volume: Seq<char>,
    names: Seq<Seq<char>>,
)
    requires
        home.len() > 2,
        home.last() != '\\',
        home.last() != '/',
        backups::are_names(Style::Windows, names),
    ensures
        backup::backup_path(Style::Windows, home, backups::absolute(Some(volume), names)) == home
            + "\\.prot\\backups\\"@ + paths::along(
            Style::Windows,
            seq![backup::volume_name(volume)] + names,
        ) + "\\.prot"@,
{
    reveal_strlit("\\.prot\\backups\\");
    reveal_strlit(".prot");
    reveal_strlit("\\.prot");
    reveal_strlit("backups");
    let style = Style::Windows;
    let base = backup::backups_in(style, home);
    let dir = paths::below(style, home, ".prot"@);
    let name = backup::volume_name(volume);
    let all = seq![name] + names;
    let way = paths::along(style, all);
    assert(dir =~= home + seq!['\\'] + ".prot"@);
    assert(dir.last() == 't');
    assert(base =~= dir + seq!['\\'] + "backups"@);
    backups::lemma_backups_in(style, home);
    backups::lemma_directories(Some(volume), names);
    backups::lemma_root_directories(Some(volume));
    backups::a_volume_has_a_directory(volume);
    assert forall|i: int| 0 <= i < all.len() implies backups::is_name(style, #[trigger] all[i]) by {
        if i > 0 {
            assert(all[i] == names[i - 1]);
        } else {
            assert forall|k: int| 0 <= k < name.len() implies !paths::is_separator(
                style,
                #[trigger] name[k],
            ) by {
                assert(backups::is_allowed(name[k]));
            }
        }
    }
    lemma_nested_along(style, base, all);
    backups::lemma_nested(style, base, all);
    let project = backup::backup_dir(style, home, backups::absolute(Some(volume), names));
    assert(project =~= home + "\\.prot\\backups\\"@ + way);
    assert(backup::backup_path(style, home, backups::absolute(Some(volume), names)) =~= project
        + "\\.prot"@);
}

/// A drive has its letter as its directory, however it is written, and a share
/// whose names are simple has the two with `_` between them.
pub proof fn a_plain_volume_keeps_its_name(letter: char, server: Seq<char>, share: Seq<char>)
    ensures
        paths::is_drive_letter(letter) ==> backup::volume_name(seq![letter, ':']) == seq![letter],
        paths::is_drive_letter(letter) ==> backup::volume_name("\\\\?\\"@ + seq![letter, ':'])
            == seq![letter],
        server.len() > 0 && share.len() > 0 && are_simple(server) && are_simple(share)
            && share.last() != '.' ==> backup::volume_name(
            seq!['\\', '\\'] + server + seq!['\\'] + share,
        ) == server + seq!['_'] + share,
{
    reveal_strlit("\\\\?\\");
    if paths::is_drive_letter(letter) {
        let short = seq![letter, ':'];
        let long = "\\\\?\\"@ + seq![letter, ':'];
        assert(long.take(4) =~= "\\\\?\\"@);
        backups::lemma_drive_name(short);
        backups::lemma_drive_name(long);
    }
    if server.len() > 0 && share.len() > 0 && are_simple(server) && are_simple(share)
        && share.last() != '.' {
        let prefix = seq!['\\', '\\'] + server + seq!['\\'] + share;
        let k = server.len() as int + 2;
        assert forall|i: int| 2 <= i < prefix.len() && i != k implies backup::is_simple(
            #[trigger] prefix[i],
        ) by {
            if i < k {
                assert(prefix[i] == server[i - 2]);
            } else {
                assert(prefix[i] == share[i - k - 1]);
            }
        }
        assert(prefix.last() == share.last());
        assert(backup::is_share_parted_at(prefix, k));
        backups::lemma_share_name(prefix, k);
        assert(prefix.subrange(2, k) =~= server);
        assert(prefix.skip(k + 1) =~= share);
        assert(backup::is_simple_share(prefix));
        assert(backup::drive_of(prefix) is None) by {
            if backup::drive_of(prefix) is Some {
                backups::lemma_drive_name(prefix);
                assert(backup::sanitized(prefix).len() == 1);
            }
        }
    }
}

/// Whether all characters are letters, digits, `-` or `.`.
pub open spec fn are_simple(s: Seq<char>) -> bool {
    forall|i: int| 0 <= i < s.len() ==> backup::is_simple(#[trigger] s[i])
}

} // verus!
