//! Local backups of `.prot` files under the user's home directory.
//!
//! Every write of a project's `.prot` is mirrored to
//! `~/.prot/backups/<absolute project path>/.prot`. Like `.prot` itself, a
//! backup holds no secrets, only IDs and the user's patterns, but it is the way
//! back to the documents.

use crate::failure::Error;
use crate::failure::Failure;
use crate::paths;
use crate::paths::Component;
use crate::paths::Style;
use crate::prot;
use crate::text;
use vstd::prelude::*;

verus! {

// ---------------------------------------------------------------------------
// the name of a drive or share
// ---------------------------------------------------------------------------
/// Whether a character may stand in the directory name of a drive or share.
pub open spec fn is_kept(c: char) -> bool {
    ('a' <= c <= 'z') || ('A' <= c <= 'Z') || ('0' <= c <= '9') || c == '-' || c == '_' || c == '.'
}

/// Colons are dropped, and every other character that may not stand in the
/// name becomes an underscore.
pub open spec fn cleaned(s: Seq<char>) -> Seq<char>
    decreases s.len(),
{
    if s.len() == 0 {
        Seq::empty()
    } else {
        let before = cleaned(s.drop_last());
        if is_kept(s.last()) {
            before.push(s.last())
        } else if s.last() == ':' {
            before
        } else {
            before.push('_')
        }
    }
}

/// Without the underscores at its start.
pub open spec fn without_leading(s: Seq<char>) -> Seq<char>
    decreases s.len(),
{
    if s.len() > 0 && s[0] == '_' {
        without_leading(s.skip(1))
    } else {
        s
    }
}

/// Without the underscores at its end.
pub open spec fn without_trailing(s: Seq<char>) -> Seq<char>
    decreases s.len(),
{
    if s.len() > 0 && s.last() == '_' {
        without_trailing(s.drop_last())
    } else {
        s
    }
}

/// The plain name of a drive or share: `C:` and `\\?\C:` become `C`, and
/// `\\server\share` becomes `server_share`.
pub open spec fn sanitized(prefix: Seq<char>) -> Seq<char> {
    without_trailing(without_leading(cleaned(prefix)))
}

/// The plain name of a drive or share.
pub fn sanitize_prefix(prefix: &str) -> (r: String)
    ensures
        r@ == sanitized(prefix@),
{
    let chars = text::chars_of(prefix);
    let mut kept: Vec<char> = Vec::new();
    let mut i: usize = 0;
    assert(kept@ =~= cleaned(chars@.take(0)));
    while i < chars.len()
        invariant
            i <= chars@.len(),
            kept@ == cleaned(chars@.take(i as int)),
        decreases chars@.len() - i,
    {
        let c = chars[i];
        proof {
            assert(chars@.take(i as int + 1).drop_last() =~= chars@.take(i as int));
            assert(chars@.take(i as int + 1).last() == c);
        }
        if ('a' <= c && c <= 'z') || ('A' <= c && c <= 'Z') || ('0' <= c && c <= '9') || c == '-'
            || c == '_' || c == '.' {
            kept.push(c);
        } else if c != ':' {
            kept.push('_');
        }
        i += 1;
    }
    assert(chars@.take(i as int) =~= chars@);
    let mut from: usize = 0;
    let mut to: usize = kept.len();
    assert(kept@.skip(0) =~= kept@);
    while from < kept.len() && kept[from] == '_'
        invariant
            from <= kept@.len(),
            without_leading(kept@) == without_leading(kept@.skip(from as int)),
        decreases kept@.len() - from,
    {
        assert(kept@.skip(from as int).skip(1) =~= kept@.skip(from as int + 1));
        from += 1;
    }
    let ghost started = kept@.skip(from as int);
    assert(started.take(to - from) =~= started);
    while from < to && kept[to - 1] == '_'
        invariant
            from <= to <= kept@.len(),
            started == kept@.skip(from as int),
            without_trailing(started) == without_trailing(started.take(to - from)),
        decreases to,
    {
        assert(started.take(to - from).drop_last() =~= started.take(to - from - 1));
        assert(started.take(to - from).last() == kept@[to - 1]);
        to -= 1;
    }
    assert(kept@.subrange(from as int, to as int) =~= started.take(to - from));
    if from < to {
        assert(started.take(to - from).last() == kept@[to - 1]);
    }
    text::text_of(&kept, from, to)
}

/// The letter of a drive, written as `C:` or as `\\?\C:`.
pub open spec fn drive_of(prefix: Seq<char>) -> Option<char> {
    if prefix.len() == 2 && paths::is_drive_letter(prefix[0]) && prefix[1] == ':' {
        Some(prefix[0])
    } else if prefix.len() == 6 && prefix.take(4) == "\\\\?\\"@ && paths::is_drive_letter(prefix[4])
        && prefix[5] == ':' {
        Some(prefix[4])
    } else {
        None
    }
}

/// Whether a character stands for itself in a directory name, and for nothing
/// else.
pub open spec fn is_simple(c: char) -> bool {
    is_kept(c) && c != '_'
}

/// Whether a prefix is a share whose server ends at `k`, and both names are
/// made of simple characters. A dot at the end is none: Windows drops it from
/// the name of a directory.
pub open spec fn is_share_parted_at(prefix: Seq<char>, k: int) -> bool {
    &&& 2 < k < prefix.len() - 1
    &&& prefix[0] == '\\' && prefix[1] == '\\' && prefix[k] == '\\'
    &&& prefix.last() != '.'
    &&& forall|i: int| 2 <= i < prefix.len() && i != k ==> is_simple(#[trigger] prefix[i])
}

/// Whether a prefix is a share, as in `\\server\share`, whose names are made of
/// simple characters.
pub open spec fn is_simple_share(prefix: Seq<char>) -> bool {
    exists|k: int| is_share_parted_at(prefix, k)
}

/// A hexadecimal digit.
pub open spec fn hex_digit(d: int) -> char {
    if d < 10 {
        ('0' as int + d) as char
    } else {
        ('a' as int + d - 10) as char
    }
}

/// Whether a character stands for itself in a name that is written out: Windows
/// takes it in the name of a directory, and it marks nothing here.
pub open spec fn is_literal(c: char) -> bool {
    &&& c as int >= 32 && c as int != 127
    &&& c != '\\' && c != '/' && c != ':' && c != '*' && c != '?' && c != '"'
    &&& c != '<' && c != '>' && c != '|'
    &&& c != '=' && c != '+'
}

/// How a character is written out: as itself where it can be, a separator as
/// `=`, and any other as `+` with its code in two hexadecimal digits.
pub open spec fn code_of(c: char) -> Seq<char> {
    if is_literal(c) {
        seq![c]
    } else if c == '\\' {
        seq!['=']
    } else {
        seq!['+', hex_digit(c as int / 16), hex_digit(c as int % 16)]
    }
}

/// How a text is written out.
pub open spec fn escaped(s: Seq<char>) -> Seq<char>
    decreases s.len(),
{
    if s.len() == 0 {
        Seq::empty()
    } else {
        code_of(s[0]) + escaped(s.skip(1))
    }
}

/// A name that Windows keeps as it is: it drops a dot or a space at the end.
pub open spec fn guarded(name: Seq<char>) -> Seq<char> {
    if name.len() > 0 && (name.last() == '.' || name.last() == ' ') {
        name.push('+')
    } else {
        name
    }
}

/// Whether a prefix is a server and more, as in `\\server\share`.
pub open spec fn is_on_network(prefix: Seq<char>) -> bool {
    &&& prefix.len() > 2 && prefix[0] == '\\' && prefix[1] == '\\' && prefix[2] != '\\'
    &&& exists|k: int| 2 < k < prefix.len() && #[trigger] prefix[k] == '\\'
}

/// The name of a drive or share that tells it from all others. Whatever can
/// stand in the name of a server or share takes one character.
pub open spec fn written_out(prefix: Seq<char>) -> Seq<char> {
    if text::begins_with(prefix, "\\\\?\\"@) {
        guarded(escaped(prefix.skip(3)))
    } else if is_on_network(prefix) {
        guarded(escaped(prefix.skip(2)))
    } else {
        escaped(prefix) + "++"@
    }
}

/// The directory of a drive or share: its plain name where that tells it from
/// all others, and otherwise its name written out. The two ways to write a
/// drive lead to one directory.
pub open spec fn volume_name(prefix: Seq<char>) -> Seq<char> {
    if drive_of(prefix) is Some || is_simple_share(prefix) {
        sanitized(prefix)
    } else {
        written_out(prefix)
    }
}

/// Whether a prefix is a drive.
fn is_drive(chars: &Vec<char>) -> (r: bool)
    ensures
        r == (drive_of(chars@) is Some),
{
    proof {
        reveal_strlit("\\\\?\\");
        if chars@.len() == 6 {
            let start = chars@.take(4);
            assert(start[0] == chars@[0] && start[1] == chars@[1] && start[2] == chars@[2]
                && start[3] == chars@[3]);
            assert((chars@[0] == '\\' && chars@[1] == '\\' && chars@[2] == '?' && chars@[3]
                == '\\') ==> start =~= "\\\\?\\"@);
        }
    }
    if chars.len() == 2 {
        is_letter(chars[0]) && chars[1] == ':'
    } else {
        chars.len() == 6 && chars[0] == '\\' && chars[1] == '\\' && chars[2] == '?' && chars[3]
            == '\\' && is_letter(chars[4]) && chars[5] == ':'
    }
}

/// Whether `c` is one of the letters that name a drive.
fn is_letter(c: char) -> (r: bool)
    ensures
        r == paths::is_drive_letter(c),
{
    ('a' <= c && c <= 'z') || ('A' <= c && c <= 'Z')
}

/// Whether a character stands for itself in a directory name, and for nothing
/// else.
fn simple(c: char) -> (r: bool)
    ensures
        r == is_simple(c),
{
    is_letter(c) || ('0' <= c && c <= '9') || c == '-' || c == '.'
}

/// Whether a prefix is a share whose names are made of simple characters.
fn is_share(chars: &Vec<char>) -> (r: bool)
    ensures
        r == is_simple_share(chars@),
{
    if chars.len() < 2 || chars[0] != '\\' || chars[1] != '\\' || chars[chars.len() - 1] == '.' {
        return false;
    }
    let mut k: usize = 2;
    while k < chars.len() && simple(chars[k])
        invariant
            2 <= k <= chars@.len(),
            forall|i: int| 2 <= i < k ==> is_simple(#[trigger] chars@[i]),
        decreases chars@.len() - k,
    {
        k += 1;
    }
    proof {
        assert forall|j: int| is_share_parted_at(chars@, j) implies j == k by {
            assert(!is_simple(chars@[j]));
            if j > k {
                assert(is_simple(chars@[k as int]));
            }
        }
    }
    if k <= 2 || k >= chars.len() || chars.len() - k < 2 || chars[k] != '\\' {
        return false;
    }
    let mut i: usize = k + 1;
    while i < chars.len()
        invariant
            2 < k < i <= chars@.len(),
            k < chars@.len() - 1,
            chars@[0] == '\\' && chars@[1] == '\\' && chars@[k as int] == '\\',
            chars@.last() != '.',
            forall|j: int| 2 <= j < i && j != k ==> is_simple(#[trigger] chars@[j]),
            forall|j: int| is_share_parted_at(chars@, j) ==> j == k,
        decreases chars@.len() - i,
    {
        if !simple(chars[i]) {
            assert(!is_simple(chars@[i as int]));
            return false;
        }
        i += 1;
    }
    assert(is_share_parted_at(chars@, k as int));
    true
}

/// A hexadecimal digit.
fn hex(d: u32) -> (r: char)
    requires
        d < 16,
    ensures
        r == hex_digit(d as int),
{
    if d < 10 {
        (48u8 + d as u8) as char
    } else {
        (87u8 + d as u8) as char
    }
}

/// Whether a character stands for itself in a name that is written out.
fn literal(c: char) -> (r: bool)
    ensures
        r == is_literal(c),
{
    c as u32 >= 32 && c as u32 != 127 && c != '\\' && c != '/' && c != ':' && c != '*' && c != '?'
        && c != '"' && c != '<' && c != '>' && c != '|' && c != '=' && c != '+'
}

/// Appends a character as it is written out.
fn append_code(out: &mut String, c: char)
    ensures
        final(out)@ == old(out)@ + code_of(c),
{
    let ghost before = out@;
    if literal(c) {
        out.push(c);
    } else if c == '\\' {
        out.push('=');
    } else {
        let n: u32 = c as u32;
        let high: char = hex(n / 16);
        let low: char = hex(n % 16);
        out.push('+');
        out.push(high);
        out.push(low);
    }
    assert(out@ =~= before + code_of(c));
}

/// How a text is written out, from a place on.
fn escape(chars: &Vec<char>, from: usize) -> (r: String)
    requires
        from <= chars@.len(),
    ensures
        r@ == escaped(chars@.skip(from as int)),
{
    let ghost all = escaped(chars@.skip(from as int));
    let mut out = String::new();
    let mut i: usize = from;
    assert(out@ + all =~= all);
    while i < chars.len()
        invariant
            i <= chars@.len(),
            out@ + escaped(chars@.skip(i as int)) == all,
        decreases chars@.len() - i,
    {
        let ghost before = out@;
        let ghost rest = chars@.skip(i as int);
        append_code(&mut out, chars[i]);
        assert(rest.skip(1) =~= chars@.skip(i as int + 1));
        assert(before + (code_of(rest[0]) + escaped(rest.skip(1))) =~= out@ + escaped(
            rest.skip(1),
        ));
        i += 1;
    }
    assert(out@ + escaped(chars@.skip(i as int)) =~= out@);
    out
}

/// A name that Windows keeps as it is.
fn guard(name: String) -> (r: String)
    ensures
        r@ == guarded(name@),
{
    let chars = text::chars_of(name.as_str());
    let n = chars.len();
    let mut name = name;
    if n > 0 && (chars[n - 1] == '.' || chars[n - 1] == ' ') {
        name.push('+');
    }
    name
}

/// Whether a prefix is a server and more.
fn on_network(chars: &Vec<char>) -> (r: bool)
    ensures
        r == is_on_network(chars@),
{
    if chars.len() < 3 || chars[0] != '\\' || chars[1] != '\\' || chars[2] == '\\' {
        return false;
    }
    let mut k: usize = 3;
    while k < chars.len()
        invariant
            3 <= k <= chars@.len(),
            chars@[0] == '\\' && chars@[1] == '\\' && chars@[2] != '\\',
            forall|j: int| 2 < j < k ==> #[trigger] chars@[j] != '\\',
        decreases chars@.len() - k,
    {
        if chars[k] == '\\' {
            return true;
        }
        k += 1;
    }
    false
}

/// The directory of a drive or share.
pub fn volume_directory(prefix: &str) -> (r: String)
    ensures
        r@ == volume_name(prefix@),
{
    let chars = text::chars_of(prefix);
    if is_drive(&chars) || is_share(&chars) {
        sanitize_prefix(prefix)
    } else if paths::with_verbatim(&chars) {
        proof {
            reveal_strlit("\\\\?\\");
        }
        guard(escape(&chars, 3))
    } else if on_network(&chars) {
        guard(escape(&chars, 2))
    } else {
        assert(chars@.skip(0) =~= chars@);
        escape(&chars, 0).concat("++")
    }
}

// ---------------------------------------------------------------------------
// where a backup is
// ---------------------------------------------------------------------------
/// The directory that a part of a project's path becomes, where it becomes
/// one: a root has no name, and `.` and `..` do not occur in the absolute path
/// of a working directory.
pub open spec fn directory_of(part: Component<Seq<char>>) -> Option<Seq<char>> {
    match part {
        Component::Normal(name) => Some(name),
        Component::Prefix(prefix) => Some(volume_name(prefix)),
        _ => None,
    }
}

/// The directories that a project's path becomes, in order.
pub open spec fn directories(components: Seq<Component<Seq<char>>>) -> Seq<Seq<char>>
    decreases components.len(),
{
    if components.len() == 0 {
        seq![]
    } else {
        let before = directories(components.drop_last());
        match directory_of(components.last()) {
            Some(name) => before.push(name),
            None => before,
        }
    }
}

/// Directories put below one another.
pub open spec fn nested(style: Style, base: Seq<char>, names: Seq<Seq<char>>) -> Seq<char>
    decreases names.len(),
{
    if names.len() == 0 {
        base
    } else {
        paths::below(style, nested(style, base, names.drop_last()), names.last())
    }
}

/// The directory under `home` that holds all backups.
pub open spec fn backups_in(style: Style, home: Seq<char>) -> Seq<char> {
    paths::below(style, paths::below(style, home, ".prot"@), "backups"@)
}

/// The directory of a project's backup.
pub open spec fn backup_dir(
    style: Style,
    home: Seq<char>,
    components: Seq<Component<Seq<char>>>,
) -> Seq<char> {
    nested(style, backups_in(style, home), directories(components))
}

/// The backup of a project's `.prot`.
pub open spec fn backup_path(
    style: Style,
    home: Seq<char>,
    components: Seq<Component<Seq<char>>>,
) -> Seq<char> {
    paths::below(style, backup_dir(style, home, components), prot::PROT_FILE@)
}

/// The directory of a project's backup.
fn project_dir(style: Style, home: &str, components: &Vec<Component<String>>) -> (r: String)
    ensures
        r@ == backup_dir(style, home@, paths::parts(components@)),
{
    let mut path = paths::put_below(
        style,
        paths::put_below(style, home, ".prot").as_str(),
        "backups",
    );
    let ghost all = paths::parts(components@);
    let ghost base = path@;
    let mut i: usize = 0;
    assert(directories(all.take(0)) =~= seq![]);
    while i < components.len()
        invariant
            i <= components@.len(),
            all == paths::parts(components@),
            path@ == nested(style, base, directories(all.take(i as int))),
        decreases components@.len() - i,
    {
        let ghost before = directories(all.take(i as int));
        proof {
            assert(all.take(i as int + 1).drop_last() =~= all.take(i as int));
            assert(all.take(i as int + 1).last() == components@[i as int]@);
        }
        match &components[i] {
            Component::Normal(name) => {
                path = paths::put_below(style, path.as_str(), name.as_str());
                assert(before.push(name@).drop_last() =~= before);
            },
            Component::Prefix(prefix) => {
                let name = volume_directory(prefix.as_str());
                path = paths::put_below(style, path.as_str(), name.as_str());
                assert(before.push(name@).drop_last() =~= before);
            },
            _ => {},
        }
        i += 1;
    }
    assert(all.take(i as int) =~= all);
    path
}

/// Where the backup of a project's `.prot` is under `home`.
pub fn backup_file(style: Style, home: &str, components: &Vec<Component<String>>) -> (r: String)
    ensures
        r@ == backup_path(style, home@, paths::parts(components@)),
{
    paths::put_below(style, project_dir(style, home, components).as_str(), prot::PROT_FILE)
}

/// A backup to be made: a directory to create, with all its parents, and the
/// file in it to write as a `.prot`.
#[derive(Debug)]
pub struct Saving {
    pub dir: String,
    pub file: String,
}

/// How the `.prot` of a project is backed up.
pub fn save(style: Style, home: &str, components: &Vec<Component<String>>) -> (r: Saving)
    ensures
        r.dir@ == backup_dir(style, home@, paths::parts(components@)),
        r.file@ == backup_path(style, home@, paths::parts(components@)),
{
    let dir = project_dir(style, home, components);
    let file = paths::put_below(style, dir.as_str(), prot::PROT_FILE);
    Saving { dir, file }
}

/// The failure to create the directory of a backup.
pub fn directory_failure(dir: &str, cause: String) -> (r: Error)
    ensures
        r@ == (Failure::BackupDir { path: dir@, cause: cause@ }),
{
    Failure::BackupDir { path: dir.to_owned(), cause }
}

} // verus!
