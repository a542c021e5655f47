//! What the title of a document tells.

use super::backups;
use crate::paths;
use crate::paths::Component;
use crate::paths::PlaceView;
use crate::paths::Style;
use vstd::prelude::*;

verus! {

/// The names along a path are names: not empty, and without separators.
pub proof fn lemma_pieces_are_names(style: Style, path: Seq<char>)
    ensures
        forall|i: int, k: int|
            0 <= i < paths::pieces(style, path).len() && 0 <= k < paths::pieces(style, path)[i].len()
                ==> !paths::is_separator(style, #[trigger] paths::pieces(style, path)[i][k]),
    decreases path.len(),
{
    if path.len() > 0 {
        lemma_pieces_are_names(style, path.drop_last());
        paths::lemma_pieces(style, path.drop_last());
        let before = paths::pieces(style, path.drop_last());
        let all = paths::pieces(style, path);
        assert forall|i: int, k: int| 0 <= i < all.len() && 0 <= k < all[i].len() implies
            !paths::is_separator(style, #[trigger] all[i][k]) by {
            if i < before.len() - 1 {
                assert(all[i] == before[i]);
                assert(!paths::is_separator(style, before[i][k]));
            } else if i == before.len() - 1 && !paths::is_separator(style, path.last()) {
                if k < before[i].len() {
                    assert(all[i][k] == before[i][k]);
                }
            } else if i == before.len() - 1 {
                assert(all[i] == before[i]);
                assert(!paths::is_separator(style, before[i][k]));
            }
        }
    }
}

proof fn lemma_significant(style: Style, list: Seq<Seq<char>>)
    requires
        forall|i: int, k: int|
            0 <= i < list.len() && 0 <= k < list[i].len() ==> !paths::is_separator(
                style,
                #[trigger] list[i][k],
            ),
    ensures
        backups::are_names(style, paths::significant(list)),
    decreases list.len(),
{
    if list.len() > 0 {
        let fewer = list.drop_last();
        assert forall|i: int, k: int| 0 <= i < fewer.len() && 0 <= k < fewer[i].len() implies
            !paths::is_separator(style, #[trigger] fewer[i][k]) by {
            assert(fewer[i][k] == list[i][k]);
        }
        lemma_significant(style, fewer);
        let last = list[list.len() - 1];
        assert forall|k: int| 0 <= k < last.len() implies !paths::is_separator(
            style,
            #[trigger] last[k],
        ) by {
            assert(last[k] == list[list.len() - 1][k]);
        }
        let all = paths::significant(list);
        let before = paths::significant(fewer);
        assert forall|i: int| 0 <= i < all.len() implies backups::is_name(
            style,
            #[trigger] all[i],
        ) by {
            if i < before.len() {
                assert(all[i] == before[i]);
            }
        }
    }
}

/// A path made of names tells the names.
proof fn lemma_along(style: Style, names: Seq<Seq<char>>, others: Seq<Seq<char>>)
    requires
        backups::are_names(style, names),
        backups::are_names(style, others),
        paths::along(style, names) == paths::along(style, others),
    ensures
        names == others,
    decreases names.len(),
{
    let c = paths::main_separator(style);
    lemma_along_length(style, names);
    lemma_along_length(style, others);
    if names.len() == 0 || others.len() == 0 {
        assert(names =~= others);
    } else if names.len() == 1 && others.len() == 1 {
        assert(names =~= others);
    } else if names.len() == 1 {
        lemma_one_is_not_many(style, names[0], others);
    } else if others.len() == 1 {
        lemma_one_is_not_many(style, others[0], names);
    } else {
        let fewer = names.drop_last();
        let fewer_others = others.drop_last();
        assert forall|i: int| 0 <= i < fewer.len() implies backups::is_name(
            style,
            #[trigger] fewer[i],
        ) by {
            assert(fewer[i] == names[i]);
        }
        assert forall|i: int| 0 <= i < fewer_others.len() implies backups::is_name(
            style,
            #[trigger] fewer_others[i],
        ) by {
            assert(fewer_others[i] == others[i]);
        }
        assert(backups::is_name(style, names[names.len() - 1]));
        assert(backups::is_name(style, others[others.len() - 1]));
        backups::lemma_last_name(
            style,
            c,
            paths::along(style, fewer),
            names.last(),
            paths::along(style, fewer_others),
            others.last(),
        );
        lemma_along(style, fewer, fewer_others);
        assert(names =~= fewer.push(names.last()));
        assert(others =~= fewer_others.push(others.last()));
    }
}

/// A path made of names is empty only where there are none.
proof fn lemma_along_length(style: Style, names: Seq<Seq<char>>)
    requires
        backups::are_names(style, names),
    ensures
        names.len() > 0 ==> paths::along(style, names).len() > 0,
{
    if names.len() == 1 {
        assert(backups::is_name(style, names[0]));
    }
}

/// One name is not the path of several.
proof fn lemma_one_is_not_many(style: Style, name: Seq<char>, names: Seq<Seq<char>>)
    requires
        backups::is_name(style, name),
        names.len() > 1,
    ensures
        paths::along(style, names) != name,
{
    let before = paths::along(style, names.drop_last());
    let whole = paths::along(style, names);
    assert(whole[before.len() as int] == paths::main_separator(style));
    if whole == name {
        assert(paths::is_separator(style, name[before.len() as int]));
    }
}

/// Parts with plain names added to them.
spec fn with_names(base: Seq<Component<Seq<char>>>, names: Seq<Seq<char>>) -> Seq<
    Component<Seq<char>>,
> {
    base + names.map_values(|name: Seq<char>| Component::Normal(name))
}

/// Where no name is `..`, walking adds the names.
proof fn lemma_walked(base: Seq<Component<Seq<char>>>, list: Seq<Seq<char>>)
    requires
        forall|i: int| 0 <= i < list.len() ==> #[trigger] list[i] != ".."@,
    ensures
        paths::walked(base, list) == with_names(base, paths::significant(list)),
    decreases list.len(),
{
    if list.len() == 0 {
        assert(with_names(base, paths::significant(list)) =~= base);
    } else {
        let fewer = list.drop_last();
        assert forall|i: int| 0 <= i < fewer.len() implies #[trigger] fewer[i] != ".."@ by {
            assert(fewer[i] == list[i]);
        }
        lemma_walked(base, fewer);
        assert(list[list.len() - 1] != ".."@);
        assert(paths::walked(base, list) =~= with_names(base, paths::significant(list)));
    }
}

/// A verbatim path with names added to it is written as the path and the names
/// after it.
proof fn lemma_written(base: Seq<Component<Seq<char>>>, names: Seq<Seq<char>>)
    requires
        base.len() > 0,
        names.len() > 0,
    ensures
        paths::written(with_names(base, names)) == paths::written(base) + (if base.last() is RootDir {
            Seq::<char>::empty()
        } else {
            seq!['\\']
        }) + paths::along(Style::Windows, names),
    decreases names.len(),
{
    let all = with_names(base, names);
    let fewer = names.drop_last();
    assert(all.last() == Component::Normal(names.last()));
    assert(all.drop_last() =~= with_names(base, fewer));
    if names.len() == 1 {
        assert(all.drop_last() =~= base);
        assert(all[all.len() - 2] == base.last());
        assert(paths::written(base) + Seq::<char>::empty() =~= paths::written(base));
    } else {
        lemma_written(base, fewer);
        assert(all[all.len() - 2] == Component::Normal(names[names.len() - 2]));
        assert(paths::written(all) =~= paths::written(base) + (if base.last() is RootDir {
            Seq::<char>::empty()
        } else {
            seq!['\\']
        }) + paths::along(Style::Windows, names));
    }
}

/// Two files of one directory whose paths name different things have different
/// titles.
pub proof fn titles_tell_files_of_a_directory_apart(place: PlaceView, file: Seq<char>, other: Seq<char>)
    requires
        paths::is_plain(place.style, file),
        paths::is_plain(place.style, other),
        paths::names_in(place.style, file) != paths::names_in(place.style, other),
    ensures
        paths::taken_from(place, file) != paths::taken_from(place, other),
{
    let title = paths::taken_from(place, file);
    let other_title = paths::taken_from(place, other);
    if title == other_title {
        if paths::is_verbatim(place) {
            let base = place.components;
            let names = paths::names_in(place.style, file);
            let others = paths::names_in(place.style, other);
            reveal_strlit("\\\\?\\");
            lemma_pieces_are_names(place.style, file);
            lemma_pieces_are_names(place.style, other);
            lemma_significant(place.style, paths::pieces(place.style, file));
            lemma_significant(place.style, paths::pieces(place.style, other));
            lemma_walked(base, paths::pieces(place.style, file));
            lemma_walked(base, paths::pieces(place.style, other));
            lemma_named(place.style, file);
            lemma_named(place.style, other);
            lemma_written(base, names);
            lemma_written(base, others);
            let start = paths::written(base) + (if base.last() is RootDir {
                Seq::<char>::empty()
            } else {
                seq!['\\']
            });
            assert(title.skip(start.len() as int) =~= paths::along(Style::Windows, names));
            assert(other_title.skip(start.len() as int) =~= paths::along(Style::Windows, others));
            lemma_along(Style::Windows, names, others);
        } else {
            assert(file =~= title.skip(title.len() - file.len()));
            assert(other =~= other_title.skip(other_title.len() - other.len()));
        }
    }
}

/// A plain path has a name.
proof fn lemma_named(style: Style, path: Seq<char>)
    requires
        paths::is_plain(style, path),
    ensures
        paths::names_in(style, path).len() > 0,
{
    lemma_first_piece(style, path);
    lemma_first_kept(paths::pieces(style, path));
}

/// The first piece of a path that does not begin with a separator is not empty.
proof fn lemma_first_piece(style: Style, path: Seq<char>)
    requires
        path.len() > 0,
        !paths::is_separator(style, path[0]),
    ensures
        paths::pieces(style, path).len() > 0,
        paths::pieces(style, path)[0].len() > 0,
    decreases path.len(),
{
    let before = path.drop_last();
    paths::lemma_pieces(style, before);
    if before.len() > 0 {
        lemma_first_piece(style, before);
    } else {
        assert(path.last() == path[0]);
    }
}

/// A first piece that names something is kept.
proof fn lemma_first_kept(list: Seq<Seq<char>>)
    requires
        list.len() > 0,
        list[0].len() > 0,
        list[0] != "."@,
    ensures
        paths::significant(list).len() > 0,
    decreases list.len(),
{
    if list.len() > 1 {
        lemma_first_kept(list.drop_last());
    }
}

// ---------------------------------------------------------------------------
// files of different directories
// ---------------------------------------------------------------------------
/// Whether a name can be that of a directory on the way to a working directory.
pub open spec fn is_proper(style: Style, name: Seq<char>) -> bool {
    backups::is_name(style, name) && name != "."@
}

/// Whether all these can be names of directories on the way to a working
/// directory.
pub open spec fn are_proper(style: Style, names: Seq<Seq<char>>) -> bool {
    forall|i: int| 0 <= i < names.len() ==> is_proper(style, #[trigger] names[i])
}

/// How two names on a network are written, as in `\\server\share`.
pub open spec fn on_network(first: Seq<char>, second: Seq<char>) -> Seq<char> {
    seq!['\\', '\\'] + first + seq!['\\'] + second
}

/// Whether a prefix is a drive, as in `C:`.
pub open spec fn is_drive(prefix: Seq<char>) -> bool {
    prefix.len() == 2 && paths::has_drive(Style::Windows, prefix)
}

/// Whether a prefix is two names on a network: `\\server\share`, `\\?\C:`,
/// `\\.\device`.
pub open spec fn is_pair(prefix: Seq<char>, first: Seq<char>, second: Seq<char>) -> bool {
    &&& backups::is_name(Style::Windows, first)
    &&& backups::is_name(Style::Windows, second)
    &&& !(first == "?"@ && second == "UNC"@)
    &&& prefix == on_network(first, second)
}

/// Whether a prefix is a verbatim share: `\\?\UNC\server\share`.
pub open spec fn is_verbatim_share(
    prefix: Seq<char>,
    server: Seq<char>,
    share: Seq<char>,
) -> bool {
    &&& backups::is_name(Style::Windows, server)
    &&& backups::is_name(Style::Windows, share)
    &&& prefix == on_network("?"@, "UNC"@) + seq!['\\'] + server + seq!['\\'] + share
}

/// Whether a text is what an absolute path on Windows begins with.
pub open spec fn is_volume(prefix: Seq<char>) -> bool {
    ||| is_drive(prefix)
    ||| exists|first: Seq<char>, second: Seq<char>| is_pair(prefix, first, second)
    ||| exists|server: Seq<char>, share: Seq<char>| is_verbatim_share(prefix, server, share)
}

/// The directory that an absolute path leads to, as a text.
pub open spec fn directory_text(
    style: Style,
    prefix: Option<Seq<char>>,
    names: Seq<Seq<char>>,
) -> Seq<char> {
    let volume = match prefix {
        Some(name) => name,
        None => Seq::empty(),
    };
    volume + seq![paths::main_separator(style)] + paths::along(style, names)
}

/// Whether a command runs in the absolute directory with this drive or share
/// and these names. The root of a share may be written without a separator at
/// its end.
pub open spec fn is_at(
    place: PlaceView,
    prefix: Option<Seq<char>>,
    names: Seq<Seq<char>>,
) -> bool {
    &&& place.components == backups::absolute(prefix, names)
    &&& are_proper(place.style, names)
    &&& prefix is Some <==> place.style == Style::Windows
    &&& prefix matches Some(volume) ==> is_volume(volume)
    &&& {
        ||| place.cwd == directory_text(place.style, prefix, names)
        ||| names.len() == 0 && (prefix matches Some(volume) && !is_drive(volume) && place.cwd
            == volume)
    }
}

/// What stands before and after a separator is split there.
pub proof fn lemma_pieces_split(style: Style, before: Seq<char>, c: char, after: Seq<char>)
    requires
        paths::is_separator(style, c),
    ensures
        paths::pieces(style, before + seq![c] + after) == paths::pieces(style, before)
            + paths::pieces(style, after),
    decreases after.len(),
{
    let whole = before + seq![c] + after;
    let first = paths::pieces(style, before);
    if after.len() == 0 {
        assert(whole.drop_last() =~= before);
        assert(whole.last() == c);
        assert(paths::pieces(style, whole) =~= first + paths::pieces(style, after));
    } else {
        let fewer = after.drop_last();
        lemma_pieces_split(style, before, c, fewer);
        paths::lemma_pieces(style, fewer);
        assert(whole.drop_last() =~= before + seq![c] + fewer);
        assert(whole.last() == after.last());
        let second = paths::pieces(style, fewer);
        assert((first + second).last() == second.last());
        assert((first + second).drop_last() =~= first + second.drop_last());
        assert(paths::pieces(style, whole) =~= first + paths::pieces(style, after));
    }
}

proof fn lemma_significant_split(a: Seq<Seq<char>>, b: Seq<Seq<char>>)
    ensures
        paths::significant(a + b) == paths::significant(a) + paths::significant(b),
    decreases b.len(),
{
    if b.len() == 0 {
        assert(a + b =~= a);
        assert(paths::significant(a) + paths::significant(b) =~= paths::significant(a));
    } else {
        lemma_significant_split(a, b.drop_last());
        assert((a + b).drop_last() =~= a + b.drop_last());
        assert((a + b).last() == b.last());
        assert(paths::significant(a + b) =~= paths::significant(a) + paths::significant(b));
    }
}

/// The names along two paths with a separator between them.
proof fn lemma_names_split(style: Style, before: Seq<char>, after: Seq<char>)
    ensures
        paths::names_in(style, before + seq![paths::main_separator(style)] + after)
            == paths::names_in(style, before) + paths::names_in(style, after),
{
    lemma_pieces_split(style, before, paths::main_separator(style), after);
    lemma_significant_split(paths::pieces(style, before), paths::pieces(style, after));
}

/// A text without separators is one piece.
pub proof fn lemma_one_piece(style: Style, name: Seq<char>)
    requires
        forall|i: int| 0 <= i < name.len() ==> !paths::is_separator(style, #[trigger] name[i]),
    ensures
        paths::pieces(style, name) == seq![name],
    decreases name.len(),
{
    if name.len() > 0 {
        let fewer = name.drop_last();
        assert forall|i: int| 0 <= i < fewer.len() implies !paths::is_separator(
            style,
            #[trigger] fewer[i],
        ) by {
            assert(fewer[i] == name[i]);
        }
        lemma_one_piece(style, fewer);
        assert(!paths::is_separator(style, name[name.len() - 1]));
        assert(fewer.push(name.last()) =~= name);
        assert(paths::pieces(style, name) =~= seq![name]);
    } else {
        assert(name =~= Seq::<char>::empty());
        assert(paths::pieces(style, name) =~= seq![name]);
    }
}

/// The names along a path made of proper names are these.
proof fn lemma_names_along(style: Style, names: Seq<Seq<char>>)
    requires
        are_proper(style, names),
    ensures
        paths::names_in(style, paths::along(style, names)) == names,
    decreases names.len(),
{
    if names.len() == 0 {
        lemma_one_piece(style, Seq::empty());
        let none = seq![Seq::<char>::empty()];
        assert(none.drop_last() =~= Seq::<Seq<char>>::empty());
        reveal_with_fuel(paths::significant, 2);
        assert(paths::significant(none) =~= names);
    } else {
        let last = names[names.len() - 1];
        let fewer = names.drop_last();
        assert(is_proper(style, last));
        lemma_one_piece(style, last);
        let one = seq![last];
        assert(one.drop_last() =~= Seq::<Seq<char>>::empty());
        assert(paths::significant(one) =~= one) by {
            reveal_with_fuel(paths::significant, 2);
        }
        if names.len() == 1 {
            assert(names =~= one);
        } else {
            assert forall|i: int| 0 <= i < fewer.len() implies is_proper(
                style,
                #[trigger] fewer[i],
            ) by {
                assert(fewer[i] == names[i]);
            }
            lemma_names_along(style, fewer);
            lemma_names_split(style, paths::along(style, fewer), last);
            assert(fewer + one =~= names);
        }
    }
}

/// The first name of a path is told by it.
proof fn lemma_first_name(a: Seq<char>, x: Seq<char>, b: Seq<char>, y: Seq<char>)
    requires
        backups::is_name(Style::Windows, a),
        backups::is_name(Style::Windows, b),
        a + seq!['\\'] + x == b + seq!['\\'] + y,
    ensures
        a == b,
        x == y,
{
    let whole = a + seq!['\\'] + x;
    let other = b + seq!['\\'] + y;
    assert(whole[a.len() as int] == '\\');
    assert(other[b.len() as int] == '\\');
    if a.len() < b.len() {
        assert(other[a.len() as int] == b[a.len() as int]);
    } else if b.len() < a.len() {
        assert(whole[b.len() as int] == a[b.len() as int]);
    }
    assert(a =~= whole.take(a.len() as int));
    assert(b =~= other.take(b.len() as int));
    assert(x =~= whole.skip(a.len() as int + 1));
    assert(y =~= other.skip(b.len() as int + 1));
}

/// What two names on a network, and more, begin with is told.
proof fn lemma_network(
    a: Seq<char>,
    b: Seq<char>,
    x: Seq<char>,
    c: Seq<char>,
    d: Seq<char>,
    y: Seq<char>,
)
    requires
        backups::is_name(Style::Windows, a),
        backups::is_name(Style::Windows, b),
        backups::is_name(Style::Windows, c),
        backups::is_name(Style::Windows, d),
        on_network(a, b) + seq!['\\'] + x == on_network(c, d) + seq!['\\'] + y,
    ensures
        a == c,
        b == d,
        x == y,
{
    let whole = on_network(a, b) + seq!['\\'] + x;
    let other = on_network(c, d) + seq!['\\'] + y;
    assert(whole.skip(2) =~= a + seq!['\\'] + (b + seq!['\\'] + x));
    assert(other.skip(2) =~= c + seq!['\\'] + (d + seq!['\\'] + y));
    lemma_first_name(a, b + seq!['\\'] + x, c, d + seq!['\\'] + y);
    lemma_first_name(b, x, d, y);
}

/// A verbatim share is two names on a network, with more after them.
proof fn lemma_verbatim_share(
    prefix: Seq<char>,
    server: Seq<char>,
    share: Seq<char>,
    rest: Seq<char>,
)
    requires
        is_verbatim_share(prefix, server, share),
    ensures
        backups::is_name(Style::Windows, "?"@),
        backups::is_name(Style::Windows, "UNC"@),
        prefix + seq!['\\'] + rest == on_network("?"@, "UNC"@) + seq!['\\'] + (server
            + seq!['\\'] + (share + seq!['\\'] + rest)),
{
    reveal_strlit("?");
    reveal_strlit("UNC");
    assert(prefix + seq!['\\'] + rest =~= on_network("?"@, "UNC"@) + seq!['\\'] + (server
        + seq!['\\'] + (share + seq!['\\'] + rest)));
}

/// The drive or share that a path begins with is told by it.
proof fn lemma_volume(p: Seq<char>, x: Seq<char>, q: Seq<char>, y: Seq<char>)
    requires
        is_volume(p),
        is_volume(q),
        p + seq!['\\'] + x == q + seq!['\\'] + y,
    ensures
        p == q,
        x == y,
{
    let whole = p + seq!['\\'] + x;
    let other = q + seq!['\\'] + y;
    assert(whole[0] == p[0]);
    assert(other[0] == q[0]);
    if is_drive(p) && is_drive(q) {
        assert(p =~= whole.take(2));
        assert(q =~= other.take(2));
        assert(x =~= whole.skip(3));
        assert(y =~= other.skip(3));
    } else if is_drive(p) {
        assert(q[0] == '\\');
    } else if is_drive(q) {
        assert(p[0] == '\\');
    } else if exists|a: Seq<char>, b: Seq<char>| is_pair(p, a, b) {
        let (a, b) = choose|a: Seq<char>, b: Seq<char>| is_pair(p, a, b);
        if exists|c: Seq<char>, d: Seq<char>| is_pair(q, c, d) {
            let (c, d) = choose|c: Seq<char>, d: Seq<char>| is_pair(q, c, d);
            lemma_network(a, b, x, c, d, y);
        } else {
            let (c, d) = choose|c: Seq<char>, d: Seq<char>| is_verbatim_share(q, c, d);
            lemma_verbatim_share(q, c, d, y);
            lemma_network(a, b, x, "?"@, "UNC"@, c + seq!['\\'] + (d + seq!['\\'] + y));
        }
    } else {
        let (a, b) = choose|a: Seq<char>, b: Seq<char>| is_verbatim_share(p, a, b);
        lemma_verbatim_share(p, a, b, x);
        let more = a + seq!['\\'] + (b + seq!['\\'] + x);
        if exists|c: Seq<char>, d: Seq<char>| is_pair(q, c, d) {
            let (c, d) = choose|c: Seq<char>, d: Seq<char>| is_pair(q, c, d);
            lemma_network("?"@, "UNC"@, more, c, d, y);
        } else {
            let (c, d) = choose|c: Seq<char>, d: Seq<char>| is_verbatim_share(q, c, d);
            lemma_verbatim_share(q, c, d, y);
            let rest = c + seq!['\\'] + (d + seq!['\\'] + y);
            lemma_network("?"@, "UNC"@, more, "?"@, "UNC"@, rest);
            lemma_first_name(a, b + seq!['\\'] + x, c, d + seq!['\\'] + y);
            lemma_first_name(b, x, d, y);
        }
    }
}

/// The directory of a verbatim path, as it is written.
proof fn lemma_written_directory(volume: Seq<char>, names: Seq<Seq<char>>)
    ensures
        paths::written(backups::absolute(Some(volume), names)) == volume + seq!['\\']
            + paths::along(Style::Windows, names),
{
    let root = seq![Component::Prefix(volume), Component::RootDir];
    let start = seq![Component::Prefix(volume)];
    let none = Seq::<Component<Seq<char>>>::empty();
    assert(root.drop_last() =~= start);
    assert(start.drop_last() =~= none);
    assert(paths::written(none) =~= Seq::<char>::empty());
    assert(paths::written(start) =~= volume);
    assert(paths::written(root) =~= volume + seq!['\\']);
    if names.len() == 0 {
        assert(backups::absolute(Some(volume), names) =~= root);
        assert(paths::written(root) =~= volume + seq!['\\'] + paths::along(
            Style::Windows,
            names,
        ));
    } else {
        lemma_written(root, names);
        assert(backups::absolute(Some(volume), names) =~= with_names(root, names));
        assert(paths::written(root) + Seq::<char>::empty() =~= paths::written(root));
    }
}

/// The title of a file below a verbatim directory.
pub proof fn lemma_verbatim_title(
    place: PlaceView,
    volume: Seq<char>,
    names: Seq<Seq<char>>,
    file: Seq<char>,
)
    requires
        is_at(place, Some(volume), names),
        paths::is_verbatim(place),
        paths::is_plain(place.style, file),
    ensures
        paths::names_in(place.style, file).len() > 0,
        paths::taken_from(place, file) == volume + seq!['\\'] + (if names.len() == 0 {
            paths::along(Style::Windows, paths::names_in(place.style, file))
        } else {
            paths::along(Style::Windows, names) + seq!['\\'] + paths::along(
                Style::Windows,
                paths::names_in(place.style, file),
            )
        }),
{
    let base = place.components;
    let list = paths::pieces(place.style, file);
    let found = paths::names_in(place.style, file);
    let title = paths::taken_from(place, file);
    let way = paths::along(Style::Windows, names);
    let tail = paths::along(Style::Windows, found);
    reveal_strlit("\\\\?\\");
    lemma_walked(base, list);
    lemma_named(place.style, file);
    lemma_written(base, found);
    lemma_written_directory(volume, names);
    if names.len() == 0 {
        assert(base.last() == Component::<Seq<char>>::RootDir);
        assert(title =~= volume + seq!['\\'] + tail);
    } else {
        assert(base.last() == Component::Normal(names.last()));
        assert(title =~= volume + seq!['\\'] + (way + seq!['\\'] + tail));
    }
}

/// The title of a file is the drive or share, the root, and a text along which
/// the names of the directory and those of the file stand.
proof fn lemma_title(
    place: PlaceView,
    prefix: Option<Seq<char>>,
    names: Seq<Seq<char>>,
    file: Seq<char>,
) -> (rest: Seq<char>)
    requires
        is_at(place, prefix, names),
        paths::is_plain(place.style, file),
    ensures
        paths::taken_from(place, file) == (match prefix {
            Some(volume) => volume,
            None => Seq::empty(),
        }) + seq![paths::main_separator(place.style)] + rest,
        paths::names_in(place.style, rest) == names + paths::names_in(place.style, file),
{
    let style = place.style;
    let volume = match prefix {
        Some(name) => name,
        None => Seq::empty(),
    };
    let c = paths::main_separator(style);
    let way = paths::along(style, names);
    let found = paths::names_in(style, file);
    let title = paths::taken_from(place, file);
    lemma_names_along(style, names);
    lemma_names_split(style, way, file);
    if paths::is_verbatim(place) {
        let base = place.components;
        let list = paths::pieces(style, file);
        reveal_strlit("\\\\?\\");
        lemma_walked(base, list);
        lemma_named(style, file);
        lemma_written(base, found);
        lemma_written_directory(volume, names);
        lemma_pieces_are_names(style, file);
        lemma_significant(style, list);
        lemma_significant_proper(list);
        assert(are_proper(style, found)) by {
            assert forall|i: int| 0 <= i < found.len() implies is_proper(
                style,
                #[trigger] found[i],
            ) by {
                assert(backups::is_name(style, found[i]));
            }
        }
        lemma_names_along(style, found);
        let tail = paths::along(style, found);
        lemma_names_split(style, way, tail);
        if names.len() == 0 {
            assert(base.last() == Component::<Seq<char>>::RootDir);
            assert(title =~= volume + seq![c] + tail);
            assert(names + found =~= found);
            tail
        } else {
            assert(base.last() == Component::Normal(names.last()));
            assert(title =~= volume + seq![c] + (way + seq![c] + tail));
            way + seq![c] + tail
        }
    } else {
        assert(title == paths::below(style, place.cwd, file));
        if names.len() == 0 {
            assert(names + found =~= found);
            if place.cwd == directory_text(style, prefix, names) {
                assert(place.cwd =~= volume + seq![c]);
                assert(place.cwd.last() == c);
            } else {
                lemma_volume_end(volume);
            }
            assert(title =~= volume + seq![c] + file);
            file
        } else {
            lemma_along_end(style, names);
            assert(place.cwd.last() == way.last());
            assert(place.cwd[volume.len() as int] == c);
            if paths::has_drive(style, place.cwd) && place.cwd.len() == 2 {
                assert(place.cwd[1] == ':');
            }
            assert(title =~= volume + seq![c] + (way + seq![c] + file));
            way + seq![c] + file
        }
    }
}

/// What is kept of pieces is not `.`.
proof fn lemma_significant_proper(list: Seq<Seq<char>>)
    ensures
        forall|i: int|
            0 <= i < paths::significant(list).len() ==> #[trigger] paths::significant(list)[i]
                != "."@,
    decreases list.len(),
{
    if list.len() > 0 {
        lemma_significant_proper(list.drop_last());
        let before = paths::significant(list.drop_last());
        let all = paths::significant(list);
        assert forall|i: int| 0 <= i < all.len() implies #[trigger] all[i] != "."@ by {
            if i < before.len() {
                assert(all[i] == before[i]);
            }
        }
    }
}

/// A share does not end in a separator.
proof fn lemma_volume_end(volume: Seq<char>)
    requires
        is_volume(volume),
        !is_drive(volume),
    ensures
        volume.len() > 2,
        !paths::is_separator(Style::Windows, volume.last()),
{
    if exists|a: Seq<char>, b: Seq<char>| is_pair(volume, a, b) {
        let (a, b) = choose|a: Seq<char>, b: Seq<char>| is_pair(volume, a, b);
        assert(volume.last() == b[b.len() - 1]);
    } else {
        let (a, b) = choose|a: Seq<char>, b: Seq<char>| is_verbatim_share(volume, a, b);
        assert(volume.last() == b[b.len() - 1]);
    }
}

/// A path made of names does not end in a separator.
pub proof fn lemma_along_end(style: Style, names: Seq<Seq<char>>)
    requires
        are_proper(style, names),
        names.len() > 0,
    ensures
        paths::along(style, names).len() > 0,
        !paths::is_separator(style, paths::along(style, names).last()),
{
    let last = names[names.len() - 1];
    assert(is_proper(style, last));
    assert(paths::along(style, names).last() == last[last.len() - 1]);
}

/// Titles tell files apart across directories: two files that differ in the
/// drive or share, or in the names that lead to them from the root, have
/// different titles.
pub proof fn titles_tell_files_apart(
    place: PlaceView,
    prefix: Option<Seq<char>>,
    names: Seq<Seq<char>>,
    file: Seq<char>,
    other_place: PlaceView,
    other_prefix: Option<Seq<char>>,
    others: Seq<Seq<char>>,
    other: Seq<char>,
)
    requires
        place.style == other_place.style,
        is_at(place, prefix, names),
        is_at(other_place, other_prefix, others),
        paths::is_plain(place.style, file),
        paths::is_plain(place.style, other),
        prefix != other_prefix || names + paths::names_in(place.style, file) != others
            + paths::names_in(place.style, other),
    ensures
        paths::taken_from(place, file) != paths::taken_from(other_place, other),
{
    let rest = lemma_title(place, prefix, names, file);
    let other_rest = lemma_title(other_place, other_prefix, others, other);
    let title = paths::taken_from(place, file);
    let other_title = paths::taken_from(other_place, other);
    if title == other_title {
        if prefix is Some {
            lemma_volume(prefix->0, rest, other_prefix->0, other_rest);
        } else {
            assert(title.skip(1) =~= rest);
            assert(other_title.skip(1) =~= other_rest);
        }
    }
}

} // verus!
