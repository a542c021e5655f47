//! Paths as texts: what they are made of, which of them stay inside a
//! directory, and how they are joined.

use crate::failure::Failure;
use crate::failure::Error;
use crate::prot;
use crate::text;
use vstd::prelude::*;

verus! {

/// The platform whose rules a path follows.
#[derive(Debug, Clone, Copy, PartialEq, Eq, Structural)]
pub enum Style {
    Unix,
    Windows,
}

/// A part of a path, as `std::path` tells them apart.
#[verifier::ext_equal]
#[derive(Debug)]
pub enum Component<T = String> {
    /// A drive or a share.
    Prefix(T),
    /// The root directory.
    RootDir,
    /// `.` at the start of the path.
    CurDir,
    /// `..`
    ParentDir,
    /// A name.
    Normal(T),
}

impl View for Component<String> {
    type V = Component<Seq<char>>;

    open spec fn view(&self) -> Component<Seq<char>> {
        match self {
            Component::Prefix(name) => Component::Prefix(name@),
            Component::RootDir => Component::RootDir,
            Component::CurDir => Component::CurDir,
            Component::ParentDir => Component::ParentDir,
            Component::Normal(name) => Component::Normal(name@),
        }
    }
}

/// The views of a path's parts.
pub open spec fn parts(list: Seq<Component<String>>) -> Seq<Component<Seq<char>>> {
    list.map_values(|part: Component<String>| part@)
}

/// Where a command runs.
#[derive(Debug)]
pub struct Place {
    /// The working directory.
    pub cwd: String,
    /// The parts of the working directory.
    pub components: Vec<Component<String>>,
    /// The platform's rules.
    pub style: Style,
    /// The user's home directory, where one is known.
    pub home: Option<String>,
}

/// Where a command runs, as mathematical values.
#[verifier::ext_equal]
pub struct PlaceView {
    pub cwd: Seq<char>,
    pub components: Seq<Component<Seq<char>>>,
    pub style: Style,
    pub home: Option<Seq<char>>,
}

impl View for Place {
    type V = PlaceView;

    open spec fn view(&self) -> PlaceView {
        PlaceView {
            cwd: self.cwd@,
            components: parts(self.components@),
            style: self.style,
            home: prot::maybe(self.home),
        }
    }
}

// ---------------------------------------------------------------------------
// pieces
// ---------------------------------------------------------------------------
/// Whether a character parts the names of a path.
pub open spec fn is_separator(style: Style, c: char) -> bool {
    c == '/' || (style == Style::Windows && c == '\\')
}

/// The separator that is put between a directory and a name.
pub open spec fn main_separator(style: Style) -> char {
    match style {
        Style::Unix => '/',
        Style::Windows => '\\',
    }
}

/// What stands between the separators of a path.
pub open spec fn pieces(style: Style, s: Seq<char>) -> Seq<Seq<char>>
    decreases s.len(),
{
    if s.len() == 0 {
        seq![Seq::empty()]
    } else {
        let before = pieces(style, s.drop_last());
        if is_separator(style, s.last()) {
            before.push(Seq::empty())
        } else {
            before.drop_last().push(before.last().push(s.last()))
        }
    }
}

/// There is always one piece.
pub proof fn lemma_pieces(style: Style, s: Seq<char>)
    ensures
        pieces(style, s).len() > 0,
    decreases s.len(),
{
    if s.len() > 0 {
        lemma_pieces(style, s.drop_last());
    }
}

/// Whether a character parts the names of a path.
pub fn separates(style: Style, c: char) -> (r: bool)
    ensures
        r == is_separator(style, c),
{
    c == '/' || (style == Style::Windows && c == '\\')
}

/// The separator that is put between a directory and a name.
pub fn separator(style: Style) -> (r: String)
    ensures
        r@ == seq![main_separator(style)],
{
    proof {
        reveal_strlit("/");
        reveal_strlit("\\");
    }
    let r = match style {
        Style::Unix => "/".to_owned(),
        Style::Windows => "\\".to_owned(),
    };
    assert(r@ =~= seq![main_separator(style)]);
    r
}

/// What stands between the separators of a path.
pub fn split(style: Style, chars: &Vec<char>) -> (r: Vec<String>)
    ensures
        text::texts(r@) == pieces(style, chars@),
{
    let mut done: Vec<String> = Vec::new();
    let mut current = String::new();
    let mut i: usize = 0;
    assert(text::texts(done@).push(current@) =~= pieces(style, chars@.take(0)));
    while i < chars.len()
        invariant
            i <= chars@.len(),
            text::texts(done@).push(current@) == pieces(style, chars@.take(i as int)),
        decreases chars@.len() - i,
    {
        let c = chars[i];
        let ghost upto = chars@.take(i as int + 1);
        let ghost before = text::texts(done@);
        let ghost piece = current@;
        proof {
            assert(upto.drop_last() =~= chars@.take(i as int));
            assert(upto.last() == c);
            assert(before.push(piece).drop_last() =~= before);
        }
        if separates(style, c) {
            done.push(current);
            current = String::new();
            assert(text::texts(done@) =~= before.push(piece));
            assert(text::texts(done@).push(current@) =~= pieces(style, upto));
        } else {
            current.push(c);
            assert(text::texts(done@).push(current@) =~= pieces(style, upto));
        }
        i += 1;
    }
    assert(chars@.take(i as int) =~= chars@);
    let ghost before = text::texts(done@);
    let ghost piece = current@;
    done.push(current);
    assert(text::texts(done@) =~= before.push(piece));
    done
}

// ---------------------------------------------------------------------------
// what a path is
// ---------------------------------------------------------------------------
/// Whether `c` is one of the letters that name a drive.
pub open spec fn is_drive_letter(c: char) -> bool {
    'a' <= c <= 'z' || 'A' <= c <= 'Z'
}

/// Whether a path begins with a drive, as in `C:`.
pub open spec fn has_drive(style: Style, path: Seq<char>) -> bool {
    style == Style::Windows && path.len() >= 2 && is_drive_letter(path[0]) && path[1] == ':'
}

/// Whether a path begins at a root.
pub open spec fn rooted(style: Style, path: Seq<char>) -> bool {
    if has_drive(style, path) {
        path.len() > 2 && is_separator(style, path[2])
    } else {
        path.len() > 0 && is_separator(style, path[0])
    }
}

/// Whether a path names something below the directory it is taken from: it is
/// made of plain names alone, at least one of them. A leading `.`, a `..`, a
/// root and a drive are no plain names; empty pieces and a `.` further on name
/// nothing.
pub open spec fn is_plain(style: Style, path: Seq<char>) -> bool {
    &&& path.len() > 0
    &&& !is_separator(style, path[0])
    &&& !has_drive(style, path)
    &&& pieces(style, path)[0] != "."@
    &&& !climbs(style, path)
}

/// Whether a path goes up to a parent directory.
pub open spec fn climbs(style: Style, path: Seq<char>) -> bool {
    exists|i: int| 0 <= i < pieces(style, path).len() && #[trigger] pieces(style, path)[i] == ".."@
}

/// Whether a path begins with a drive.
fn with_drive(style: Style, chars: &Vec<char>) -> (r: bool)
    ensures
        r == has_drive(style, chars@),
{
    style == Style::Windows && chars.len() >= 2 && (('a' <= chars[0] && chars[0] <= 'z') || ('A'
        <= chars[0] && chars[0] <= 'Z')) && chars[1] == ':'
}

/// Whether a path begins at a root.
pub fn has_root(style: Style, path: &str) -> (r: bool)
    ensures
        r == rooted(style, path@),
{
    let chars = text::chars_of(path);
    if with_drive(style, &chars) {
        chars.len() > 2 && separates(style, chars[2])
    } else {
        chars.len() > 0 && separates(style, chars[0])
    }
}

/// Whether one of the pieces of a path is `..`.
pub fn goes_up(style: Style, path: &str) -> (r: bool)
    ensures
        r == climbs(style, path@),
{
    let list = split(style, &text::chars_of(path));
    let ghost all = pieces(style, path@);
    let mut i: usize = 0;
    while i < list.len()
        invariant
            i <= list@.len(),
            all == pieces(style, path@),
            text::texts(list@) == all,
            forall|j: int| 0 <= j < i ==> #[trigger] all[j] != ".."@,
        decreases list@.len() - i,
    {
        assert(all[i as int] == list@[i as int]@);
        if text::same(list[i].as_str(), "..") {
            return true;
        }
        i += 1;
    }
    false
}

/// Whether a path is a plain one that stays inside the directory it is taken
/// from.
pub fn plain(style: Style, path: &str) -> (r: bool)
    ensures
        r == is_plain(style, path@),
{
    let chars = text::chars_of(path);
    proof {
        lemma_pieces(style, path@);
    }
    chars.len() > 0 && !separates(style, chars[0]) && !with_drive(style, &chars) && {
        let list = split(style, &chars);
        assert(text::texts(list@)[0] == list@[0]@);
        !text::same(list[0].as_str(), ".") && !goes_up(style, path)
    }
}

/// Refuses a recorded path that could leave the working directory. `.prot` can
/// be edited by anyone and must not steer where a file is restored.
pub fn validate_restore_path(style: Style, rel_file: &str) -> (r: Result<(), Error>)
    ensures
        match r {
            Ok(_) => is_plain(style, rel_file@),
            Err(e) => !is_plain(style, rel_file@) && e@ == (Failure::RefusedPath {
                file: rel_file@,
            }),
        },
{
    if plain(style, rel_file) {
        Ok(())
    } else {
        Err(Failure::RefusedPath { file: rel_file.to_owned() })
    }
}

// ---------------------------------------------------------------------------
// the name of a file
// ---------------------------------------------------------------------------
/// The name that pieces end in. Empty pieces and a `.` that is not the first
/// are passed over; a `.` at the start and a `..` are no names.
pub open spec fn last_name(list: Seq<Seq<char>>) -> Option<Seq<char>>
    decreases list.len(),
{
    if list.len() == 0 {
        None
    } else if list.last().len() == 0 || (list.last() == "."@ && list.len() > 1) {
        last_name(list.drop_last())
    } else if list.last() == "."@ || list.last() == ".."@ {
        None
    } else {
        Some(list.last())
    }
}

/// The name of the file at a path; the path itself where it ends in no name.
pub open spec fn name_of(style: Style, path: Seq<char>) -> Seq<char> {
    let body = if has_drive(style, path) {
        path.skip(2)
    } else {
        path
    };
    match last_name(pieces(style, body)) {
        Some(name) => name,
        None => path,
    }
}

/// The name of the file at a path; the path itself where it ends in no name.
pub fn file_name(style: Style, path: &str) -> (r: String)
    ensures
        r@ == name_of(style, path@),
{
    let chars = text::chars_of(path);
    let start: usize = if with_drive(style, &chars) {
        2
    } else {
        0
    };
    let body = text::text_of(&chars, start, chars.len());
    proof {
        assert(chars@.subrange(2, chars@.len() as int) =~= chars@.skip(2));
        assert(chars@.subrange(0, chars@.len() as int) =~= chars@);
    }
    let list = split(style, &text::chars_of(body.as_str()));
    let ghost all = pieces(style, body@);
    let mut n: usize = list.len();
    assert(all.take(n as int) =~= all);
    while n > 0
        invariant
            n <= list@.len(),
            all == text::texts(list@),
            last_name(all) == last_name(all.take(n as int)),
            name_of(style, path@) == (match last_name(all) {
                Some(name) => name,
                None => path@,
            }),
        decreases n,
    {
        let piece = list[n - 1].as_str();
        assert(all.take(n as int).last() == piece@);
        assert(all.take(n as int).drop_last() =~= all.take(n - 1));
        if !piece.is_empty() && !(text::same(piece, ".") && n > 1) {
            if text::same(piece, ".") || text::same(piece, "..") {
                return path.to_owned();
            }
            return piece.to_owned();
        }
        n -= 1;
    }
    path.to_owned()
}

// ---------------------------------------------------------------------------
// the directories on the way to a file
// ---------------------------------------------------------------------------
/// The pieces that name something: empty ones and `.` do not.
pub open spec fn significant(list: Seq<Seq<char>>) -> Seq<Seq<char>>
    decreases list.len(),
{
    if list.len() == 0 {
        seq![]
    } else {
        let before = significant(list.drop_last());
        if list.last().len() == 0 || list.last() == "."@ {
            before
        } else {
            before.push(list.last())
        }
    }
}

/// The names along a path.
pub open spec fn names_in(style: Style, path: Seq<char>) -> Seq<Seq<char>> {
    significant(pieces(style, path))
}

/// A path made of names.
pub open spec fn along(style: Style, names: Seq<Seq<char>>) -> Seq<char>
    decreases names.len(),
{
    if names.len() == 0 {
        Seq::empty()
    } else if names.len() == 1 {
        names[0]
    } else {
        along(style, names.drop_last()) + seq![main_separator(style)] + names.last()
    }
}

/// The directories that lie above what names lead to, from the outermost in.
pub open spec fn above(style: Style, names: Seq<Seq<char>>) -> Seq<Seq<char>>
    decreases names.len(),
{
    if names.len() <= 1 {
        seq![]
    } else {
        above(style, names.drop_last()).push(along(style, names.drop_last()))
    }
}

/// The directories on the way from the working directory to a file below it.
pub open spec fn directories_to(style: Style, path: Seq<char>) -> Seq<Seq<char>> {
    above(style, names_in(style, path))
}

/// The directories on the way from the working directory to a file below it.
pub fn parents(style: Style, path: &str) -> (r: Vec<String>)
    ensures
        text::texts(r@) == directories_to(style, path@),
{
    let list = split(style, &text::chars_of(path));
    let ghost all = pieces(style, path@);
    let mut dirs: Vec<String> = Vec::new();
    let mut current = String::new();
    let mut count: usize = 0;
    let mut i: usize = 0;
    assert(text::texts(dirs@) =~= above(style, significant(all.take(0))));
    while i < list.len()
        invariant
            i <= list@.len(),
            count <= i,
            all == text::texts(list@),
            count == significant(all.take(i as int)).len(),
            current@ == along(style, significant(all.take(i as int))),
            text::texts(dirs@) == above(style, significant(all.take(i as int))),
        decreases list@.len() - i,
    {
        let name = list[i].as_str();
        let ghost names = significant(all.take(i as int));
        let ghost before = text::texts(dirs@);
        proof {
            assert(all.take(i as int + 1).drop_last() =~= all.take(i as int));
            assert(all.take(i as int + 1).last() == name@);
            assert(names.push(name@).drop_last() =~= names);
        }
        if !name.is_empty() && !text::same(name, ".") {
            if count > 0 {
                dirs.push(current.clone());
                assert(text::texts(dirs@) =~= before.push(along(style, names)));
                current.append(separator(style).as_str());
                current.append(name);
            } else {
                current = name.to_owned();
            }
            count += 1;
        }
        i += 1;
    }
    assert(all.take(i as int) =~= all);
    dirs
}

// ---------------------------------------------------------------------------
// joining
// ---------------------------------------------------------------------------
/// A name put below a directory.
pub open spec fn below(style: Style, dir: Seq<char>, name: Seq<char>) -> Seq<char> {
    if dir.len() == 0 || is_separator(style, dir.last()) || (has_drive(style, dir) && dir.len()
        == 2) {
        dir + name
    } else {
        dir + seq![main_separator(style)] + name
    }
}

/// The drive or share that a path begins with; nothing where there is none.
pub open spec fn prefix_of(components: Seq<Component<Seq<char>>>) -> Seq<char> {
    if components.len() > 0 {
        match components[0] {
            Component::Prefix(name) => name,
            _ => Seq::empty(),
        }
    } else {
        Seq::empty()
    }
}

/// The index of the first separator at or after `from`; the length where there
/// is none.
pub open spec fn piece_end(style: Style, path: Seq<char>, from: int) -> int
    decreases path.len() - from,
{
    if from >= path.len() || is_separator(style, path[from]) {
        from
    } else {
        piece_end(style, path, from + 1)
    }
}

/// Whether a path begins with a share, as in `\\server\share`, or in one of the
/// ways in which Windows names devices: `\\.\` and `\\?\`.
pub open spec fn has_share(style: Style, path: Seq<char>) -> bool {
    let server_end = piece_end(style, path, 2);
    &&& style == Style::Windows && path.len() >= 2
    &&& is_separator(style, path[0]) && is_separator(style, path[1])
    &&& {
        ||| text::begins_with(path, "\\\\?\\"@)
        ||| path.len() >= 4 && path[2] == '.' && is_separator(style, path[3])
        ||| 2 < server_end < path.len() && server_end + 1 < piece_end(style, path, server_end + 1)
    }
}

/// Whether the working directory is a verbatim one, as in `\\?\C:\project`.
pub open spec fn is_verbatim(place: PlaceView) -> bool {
    place.style == Style::Windows && text::begins_with(
        prefix_of(place.components),
        "\\\\?\\"@,
    )
}

/// The parts of a directory followed by the names between the separators of a
/// path. Empty names and `.` name nothing, and `..` takes a name back.
pub open spec fn walked(
    components: Seq<Component<Seq<char>>>,
    names: Seq<Seq<char>>,
) -> Seq<Component<Seq<char>>>
    decreases names.len(),
{
    if names.len() == 0 {
        components
    } else {
        let before = walked(components, names.drop_last());
        let name = names.last();
        if name.len() == 0 || name == "."@ {
            before
        } else if name == ".."@ {
            if before.len() > 0 && before.last() is Normal {
                before.drop_last()
            } else {
                before
            }
        } else {
            before.push(Component::Normal(name))
        }
    }
}

/// How a part of a verbatim path is written.
pub open spec fn part_text(part: Component<Seq<char>>) -> Seq<char> {
    match part {
        Component::Prefix(name) => name,
        Component::RootDir => seq!['\\'],
        Component::CurDir => "."@,
        Component::ParentDir => ".."@,
        Component::Normal(name) => name,
    }
}

/// Whether a separator comes between two parts of a verbatim path.
pub open spec fn parted(part: Component<Seq<char>>, next: Component<Seq<char>>) -> bool {
    !(part is RootDir) && !(next is RootDir)
}

/// A verbatim path, written out of its parts.
pub open spec fn written(components: Seq<Component<Seq<char>>>) -> Seq<char>
    decreases components.len(),
{
    if components.len() == 0 {
        Seq::empty()
    } else {
        let before = written(components.drop_last());
        let part = components.last();
        if components.len() > 1 && parted(components[components.len() - 2], part) {
            before + seq!['\\'] + part_text(part)
        } else {
            before + part_text(part)
        }
    }
}

/// The parts of a path taken from a verbatim directory.
pub open spec fn verbatim_parts(place: PlaceView, path: Seq<char>) -> Seq<Component<Seq<char>>> {
    let base = if path.len() > 0 && is_separator(place.style, path[0]) {
        place.components.take(1).push(Component::RootDir)
    } else {
        place.components
    };
    walked(base, pieces(place.style, path))
}

/// A path taken from the working directory. One that begins with a drive or a
/// share stands alone, and one that begins at a root begins at that of the
/// working directory's drive or share. Below a verbatim directory, whose names
/// are taken literally, `.` and `..` are resolved and one separator is written.
pub open spec fn taken_from(place: PlaceView, path: Seq<char>) -> Seq<char> {
    if has_drive(place.style, path) || has_share(place.style, path) {
        path
    } else if is_verbatim(place) && path.len() > 0 {
        written(verbatim_parts(place, path))
    } else if path.len() > 0 && is_separator(place.style, path[0]) {
        prefix_of(place.components) + path
    } else {
        below(place.style, place.cwd, path)
    }
}

/// A name put below a directory.
pub fn put_below(style: Style, dir: &str, name: &str) -> (r: String)
    ensures
        r@ == below(style, dir@, name@),
{
    let chars = text::chars_of(dir);
    let n = chars.len();
    if n == 0 || separates(style, chars[n - 1]) || (with_drive(style, &chars) && n == 2) {
        dir.to_owned().concat(name)
    } else {
        dir.to_owned().concat(separator(style).as_str()).concat(name)
    }
}

/// The index of the first separator at or after `from`.
fn end_of_piece(style: Style, chars: &Vec<char>, from: usize) -> (r: usize)
    requires
        from <= chars@.len(),
    ensures
        from <= r <= chars@.len(),
        r == piece_end(style, chars@, from as int),
{
    let mut i: usize = from;
    while i < chars.len() && !separates(style, chars[i])
        invariant
            from <= i <= chars@.len(),
            piece_end(style, chars@, from as int) == piece_end(style, chars@, i as int),
        decreases chars@.len() - i,
    {
        i += 1;
    }
    i
}

/// Whether a path begins with `\\?\`.
pub fn with_verbatim(chars: &Vec<char>) -> (r: bool)
    ensures
        r == text::begins_with(chars@, "\\\\?\\"@),
{
    proof {
        reveal_strlit("\\\\?\\");
        if chars@.len() >= 4 {
            let start = chars@.subrange(0, 4);
            assert(start[0] == chars@[0] && start[1] == chars@[1] && start[2] == chars@[2]
                && start[3] == chars@[3]);
            assert((chars@[0] == '\\' && chars@[1] == '\\' && chars@[2] == '?' && chars@[3]
                == '\\') ==> start =~= "\\\\?\\"@);
        }
    }
    chars.len() >= 4 && chars[0] == '\\' && chars[1] == '\\' && chars[2] == '?' && chars[3]
        == '\\'
}

/// Whether a path begins with a share.
fn with_share(style: Style, chars: &Vec<char>) -> (r: bool)
    ensures
        r == has_share(style, chars@),
{
    if style != Style::Windows || chars.len() < 2 || !separates(style, chars[0]) || !separates(
        style,
        chars[1],
    ) {
        return false;
    }
    if with_verbatim(chars) || (chars.len() >= 4 && chars[2] == '.' && separates(style, chars[3])) {
        return true;
    }
    let server_end: usize = end_of_piece(style, chars, 2);
    2 < server_end && server_end < chars.len() && server_end + 1 < end_of_piece(
        style,
        chars,
        server_end + 1,
    )
}

/// A copy of a part.
fn copy_part(part: &Component<String>) -> (r: Component<String>)
    ensures
        r@ == part@,
{
    match part {
        Component::Prefix(name) => Component::Prefix(name.clone()),
        Component::RootDir => Component::RootDir,
        Component::CurDir => Component::CurDir,
        Component::ParentDir => Component::ParentDir,
        Component::Normal(name) => Component::Normal(name.clone()),
    }
}

/// The first `n` parts of a path.
fn first_parts(list: &Vec<Component<String>>, n: usize) -> (r: Vec<Component<String>>)
    requires
        n <= list@.len(),
    ensures
        parts(r@) == parts(list@).take(n as int),
{
    let mut out: Vec<Component<String>> = Vec::new();
    let mut i: usize = 0;
    assert(parts(out@) =~= parts(list@).take(0));
    while i < n
        invariant
            i <= n <= list@.len(),
            parts(out@) == parts(list@).take(i as int),
        decreases n - i,
    {
        let ghost before = parts(out@);
        out.push(copy_part(&list[i]));
        assert(parts(out@) =~= before.push(list@[i as int]@));
        assert(parts(list@).take(i as int + 1) =~= before.push(list@[i as int]@));
        i += 1;
    }
    out
}

/// The parts of a directory followed by names.
fn walk(components: Vec<Component<String>>, names: &Vec<String>) -> (r: Vec<Component<String>>)
    ensures
        parts(r@) == walked(parts(components@), text::texts(names@)),
{
    let ghost start = parts(components@);
    let ghost all = text::texts(names@);
    let mut out = components;
    let mut i: usize = 0;
    while i < names.len()
        invariant
            i <= names@.len(),
            all == text::texts(names@),
            parts(out@) == walked(start, all.take(i as int)),
        decreases names@.len() - i,
    {
        let name = names[i].as_str();
        let ghost before = out@;
        proof {
            assert(all.take(i as int + 1).drop_last() =~= all.take(i as int));
            assert(all.take(i as int + 1).last() == name@);
        }
        if name.is_empty() || text::same(name, ".") {
        } else if text::same(name, "..") {
            let taken_back = if out.len() > 0 {
                match &out[out.len() - 1] {
                    Component::Normal(_) => true,
                    _ => false,
                }
            } else {
                false
            };
            if out.len() > 0 {
                assert(parts(before).last() == before.last()@);
            }
            if taken_back {
                out.pop();
                assert(parts(out@) =~= parts(before).drop_last());
            }
        } else {
            out.push(Component::Normal(name.to_owned()));
            assert(parts(out@) =~= parts(before).push(Component::Normal(name@)));
        }
        i += 1;
    }
    assert(all.take(i as int) =~= all);
    out
}

/// A verbatim path, written out of its parts.
fn write_out(components: &Vec<Component<String>>) -> (r: String)
    ensures
        r@ == written(parts(components@)),
{
    proof {
        reveal_strlit("\\");
        assert("\\"@ =~= seq!['\\']);
    }
    let ghost all = parts(components@);
    let mut out = String::new();
    let mut after_root = true;
    let mut i: usize = 0;
    while i < components.len()
        invariant
            i <= components@.len(),
            all == parts(components@),
            out@ == written(all.take(i as int)),
            after_root == (i == 0 || all[i - 1] is RootDir),
            "\\"@ == seq!['\\'],
        decreases components@.len() - i,
    {
        let ghost upto = all.take(i as int + 1);
        proof {
            assert(upto.drop_last() =~= all.take(i as int));
            assert(upto.last() == components@[i as int]@);
            if i > 0 {
                assert(upto[upto.len() - 2] == all[i - 1]);
            }
        }
        match &components[i] {
            Component::RootDir => {
                out.append("\\");
                after_root = true;
            },
            part => {
                if !after_root {
                    out.append("\\");
                }
                match part {
                    Component::Prefix(name) => out.append(name.as_str()),
                    Component::CurDir => out.append("."),
                    Component::ParentDir => out.append(".."),
                    Component::Normal(name) => out.append(name.as_str()),
                    Component::RootDir => {},
                }
                after_root = false;
            },
        }
        assert(out@ =~= written(upto));
        i += 1;
    }
    assert(all.take(i as int) =~= all);
    out
}

/// Whether the working directory is a verbatim one.
fn at_verbatim(place: &Place) -> (r: bool)
    ensures
        r == is_verbatim(place@),
        r ==> place.components@.len() > 0,
{
    proof {
        reveal_strlit("\\\\?\\");
    }
    if place.style != Style::Windows || place.components.len() == 0 {
        return false;
    }
    assert(place@.components[0] == place.components@[0]@);
    match &place.components[0] {
        Component::Prefix(name) => with_verbatim(&text::chars_of(name.as_str())),
        _ => false,
    }
}

/// A path taken from the working directory.
pub fn join(place: &Place, path: &str) -> (r: String)
    ensures
        r@ == taken_from(place@, path@),
{
    let chars = text::chars_of(path);
    if with_drive(place.style, &chars) || with_share(place.style, &chars) {
        return path.to_owned();
    }
    let from_root = chars.len() > 0 && separates(place.style, chars[0]);
    if chars.len() > 0 && at_verbatim(place) {
        let base = if from_root {
            let mut root = first_parts(&place.components, 1);
            let ghost before = parts(root@);
            root.push(Component::RootDir);
            assert(parts(root@) =~= before.push(Component::RootDir));
            root
        } else {
            assert(place@.components.take(place.components@.len() as int) =~= place@.components);
            first_parts(&place.components, place.components.len())
        };
        return write_out(&walk(base, &split(place.style, &chars)));
    }
    if !from_root {
        return put_below(place.style, place.cwd.as_str(), path);
    }
    assert(Seq::<char>::empty() + path@ =~= path@);
    if place.components.len() == 0 {
        return path.to_owned();
    }
    assert(place@.components[0] == place.components@[0]@);
    match &place.components[0] {
        Component::Prefix(name) => name.clone().concat(path),
        _ => path.to_owned(),
    }
}

/// The title of a file's document: its absolute path.
pub fn document_title(place: &Place, rel_file: &str) -> (r: String)
    ensures
        r@ == taken_from(place@, rel_file@),
{
    join(place, rel_file)
}

/// Where the working directory's `.prot` is.
pub fn prot_path(place: &Place) -> (r: String)
    ensures
        r@ == taken_from(place@, prot::PROT_FILE@),
{
    join(place, prot::PROT_FILE)
}

} // verus!
