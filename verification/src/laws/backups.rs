//! Where backups are.

use crate::backup;
use crate::paths;
use crate::paths::Component;
use crate::paths::Style;
use crate::prot;
use crate::text;
use vstd::prelude::*;

verus! {

/// Whether a name can be that of a directory.
pub open spec fn is_name(style: Style, name: Seq<char>) -> bool {
    name.len() > 0 && forall|i: int|
        0 <= i < name.len() ==> !paths::is_separator(style, #[trigger] name[i])
}

/// Whether all these can be names of directories.
pub open spec fn are_names(style: Style, names: Seq<Seq<char>>) -> bool {
    forall|i: int| 0 <= i < names.len() ==> is_name(style, #[trigger] names[i])
}

/// The parts of an absolute path: perhaps a drive or share, the root, and names.
pub open spec fn absolute(prefix: Option<Seq<char>>, names: Seq<Seq<char>>) -> Seq<
    Component<Seq<char>>,
> {
    let root = match prefix {
        Some(name) => seq![Component::Prefix(name), Component::RootDir],
        None => seq![Component::RootDir],
    };
    root + names.map_values(|name: Seq<char>| Component::Normal(name))
}

// ---------------------------------------------------------------------------
// the name of a drive or share
// ---------------------------------------------------------------------------
proof fn lemma_cleaned(s: Seq<char>)
    ensures
        forall|i: int|
            0 <= i < backup::cleaned(s).len() ==> backup::is_kept(
                #[trigger] backup::cleaned(s)[i],
            ),
    decreases s.len(),
{
    if s.len() > 0 {
        let before = backup::cleaned(s.drop_last());
        let all = backup::cleaned(s);
        lemma_cleaned(s.drop_last());
        assert forall|i: int| 0 <= i < all.len() implies backup::is_kept(#[trigger] all[i]) by {
            if i < before.len() {
                assert(all[i] == before[i]);
            }
        }
    }
}

proof fn lemma_leading(s: Seq<char>) -> (n: int)
    ensures
        0 <= n <= s.len(),
        backup::without_leading(s) == s.skip(n),
        n < s.len() ==> s[n] != '_',
    decreases s.len(),
{
    if s.len() > 0 && s[0] == '_' {
        let n = lemma_leading(s.skip(1));
        assert(s.skip(1).skip(n) =~= s.skip(n + 1));
        n + 1
    } else {
        assert(s.skip(0) =~= s);
        0
    }
}

proof fn lemma_trailing(s: Seq<char>) -> (n: int)
    ensures
        0 <= n <= s.len(),
        backup::without_trailing(s) == s.take(n),
        n > 0 ==> s[n - 1] != '_',
    decreases s.len(),
{
    if s.len() > 0 && s.last() == '_' {
        let n = lemma_trailing(s.drop_last());
        assert(s.drop_last().take(n) =~= s.take(n));
        n
    } else {
        assert(s.take(s.len() as int) =~= s);
        s.len() as int
    }
}

/// Whatever a drive or share is called, its directory name is made of letters,
/// digits, `-`, `_` and `.` alone, with no `_` at its ends.
pub proof fn a_prefix_becomes_a_plain_name(prefix: Seq<char>)
    ensures
        forall|i: int|
            0 <= i < backup::sanitized(prefix).len() ==> backup::is_kept(
                #[trigger] backup::sanitized(prefix)[i],
            ),
        backup::sanitized(prefix).len() > 0 ==> backup::sanitized(prefix)[0] != '_'
            && backup::sanitized(prefix).last() != '_',
{
    lemma_cleaned(prefix);
    let s = backup::cleaned(prefix);
    let n = lemma_leading(s);
    let t = s.skip(n);
    let m = lemma_trailing(t);
    let r = backup::sanitized(prefix);
    assert(r == t.take(m));
    assert forall|i: int| 0 <= i < r.len() implies backup::is_kept(#[trigger] r[i]) by {
        assert(r[i] == s[n + i]);
    }
}

proof fn lemma_cleaned_concat(a: Seq<char>, b: Seq<char>)
    ensures
        backup::cleaned(a + b) == backup::cleaned(a) + backup::cleaned(b),
    decreases b.len(),
{
    if b.len() == 0 {
        assert(a + b =~= a);
        assert(backup::cleaned(a) + backup::cleaned(b) =~= backup::cleaned(a));
    } else {
        lemma_cleaned_concat(a, b.drop_last());
        assert((a + b).drop_last() =~= a + b.drop_last());
        assert(backup::cleaned(a + b) =~= backup::cleaned(a) + backup::cleaned(b));
    }
}

proof fn lemma_cleaned_simple(s: Seq<char>)
    requires
        forall|i: int| 0 <= i < s.len() ==> backup::is_simple(#[trigger] s[i]),
    ensures
        backup::cleaned(s) == s,
    decreases s.len(),
{
    if s.len() > 0 {
        let fewer = s.drop_last();
        assert forall|i: int| 0 <= i < fewer.len() implies backup::is_simple(
            #[trigger] fewer[i],
        ) by {
            assert(fewer[i] == s[i]);
        }
        lemma_cleaned_simple(fewer);
        assert(backup::is_simple(s[s.len() - 1]));
        assert(backup::cleaned(s) =~= s);
    } else {
        assert(backup::cleaned(s) =~= s);
    }
}

/// The plain name of a drive is its letter.
pub proof fn lemma_drive_name(prefix: Seq<char>)
    requires
        backup::drive_of(prefix) is Some,
    ensures
        backup::sanitized(prefix) == seq![backup::drive_of(prefix)->0],
{
    let letter = backup::drive_of(prefix)->0;
    reveal_with_fuel(backup::cleaned, 7);
    reveal_with_fuel(backup::without_leading, 5);
    reveal_with_fuel(backup::without_trailing, 2);
    reveal_strlit("\\\\?\\");
    if prefix.len() == 2 {
        assert(prefix.drop_last() =~= seq![letter]);
        assert(seq![letter].drop_last() =~= Seq::<char>::empty());
        assert(backup::cleaned(prefix) =~= seq![letter]);
    } else {
        let start = prefix.take(4);
        assert(start[0] == prefix[0] && start[1] == prefix[1] && start[2] == prefix[2] && start[3]
            == prefix[3]);
        let a = seq!['\\'];
        let b = seq!['\\', '\\'];
        let c = seq!['\\', '\\', '?'];
        let d = seq!['\\', '\\', '?', '\\'];
        let f = seq!['\\', '\\', '?', '\\', letter];
        assert(prefix.drop_last() =~= f);
        assert(f.drop_last() =~= d);
        assert(d.drop_last() =~= c);
        assert(c.drop_last() =~= b);
        assert(b.drop_last() =~= a);
        assert(a.drop_last() =~= Seq::<char>::empty());
        assert(backup::cleaned(Seq::<char>::empty()) =~= Seq::<char>::empty());
        assert(backup::cleaned(a) =~= seq!['_']);
        assert(backup::cleaned(b) =~= seq!['_', '_']);
        assert(backup::cleaned(c) =~= seq!['_', '_', '_']);
        let dashes = seq!['_', '_', '_', '_'];
        assert(backup::cleaned(d) =~= dashes);
        let whole = dashes.push(letter);
        assert(backup::cleaned(f) =~= whole);
        assert(backup::cleaned(prefix) =~= whole);
        assert(whole.skip(1) =~= seq!['_', '_', '_', letter]);
        assert(whole.skip(1).skip(1) =~= seq!['_', '_', letter]);
        assert(whole.skip(1).skip(1).skip(1) =~= seq!['_', letter]);
        assert(whole.skip(1).skip(1).skip(1).skip(1) =~= seq![letter]);
        assert(backup::without_leading(whole) =~= seq![letter]);
    }
}

/// The plain name of a simple share is the server and the share with one `_`
/// between them.
pub proof fn lemma_share_name(prefix: Seq<char>, k: int)
    requires
        backup::is_share_parted_at(prefix, k),
    ensures
        backup::sanitized(prefix) == prefix.subrange(2, k) + seq!['_'] + prefix.skip(k + 1),
{
    let server = prefix.subrange(2, k);
    let share = prefix.skip(k + 1);
    let slashes = seq!['\\', '\\'];
    let slash = seq!['\\'];
    let tail = server + slash + share;
    let name = server + seq!['_'] + share;
    assert(prefix =~= slashes + tail);
    lemma_cleaned_concat(slashes, tail);
    lemma_cleaned_concat(server + slash, share);
    lemma_cleaned_concat(server, slash);
    assert forall|i: int| 0 <= i < server.len() implies backup::is_simple(#[trigger] server[i]) by {
        assert(server[i] == prefix[i + 2]);
    }
    assert forall|i: int| 0 <= i < share.len() implies backup::is_simple(#[trigger] share[i]) by {
        assert(share[i] == prefix[i + k + 1]);
    }
    lemma_cleaned_simple(server);
    lemma_cleaned_simple(share);
    reveal_with_fuel(backup::cleaned, 3);
    assert(slash.drop_last() =~= Seq::<char>::empty());
    assert(slashes.drop_last() =~= slash);
    assert(backup::cleaned(slash) =~= seq!['_']);
    assert(backup::cleaned(slashes) =~= seq!['_', '_']);
    let whole = seq!['_', '_'] + name;
    assert(backup::cleaned(prefix) =~= whole);
    reveal_with_fuel(backup::without_leading, 3);
    assert(whole.skip(1) =~= seq!['_'] + name);
    assert(whole.skip(1).skip(1) =~= name);
    assert(backup::is_simple(server[0]));
    assert(name[0] == server[0]);
    assert(backup::without_leading(whole) == name);
    assert(backup::is_simple(share[share.len() - 1]));
    assert(name.last() == share[share.len() - 1]);
}

/// Two digits are the same only where the numbers are.
proof fn lemma_hex_digit(a: int, b: int)
    requires
        0 <= a < 16,
        0 <= b < 16,
        backup::hex_digit(a) == backup::hex_digit(b),
    ensures
        a == b,
{
}

/// What marks the end of a name that is written out.
spec fn is_mark(mark: Seq<char>) -> bool {
    mark == Seq::<char>::empty() || mark == seq!['+'] || mark == seq!['+', '+']
}

/// The code of a character is one that stands for itself, or three that begin
/// with `+`.
proof fn lemma_code(c: char)
    ensures
        backup::code_of(c).len() == 1 || backup::code_of(c).len() == 3,
        backup::code_of(c)[0] == '+' <==> backup::code_of(c).len() == 3,
        backup::code_of(c).len() == 3 <==> !backup::is_literal(c) && c != '\\',
        backup::code_of(c).len() == 3 ==> 0 <= c as int <= 127,
{
}

/// Two characters with one code are the same.
proof fn lemma_code_tells(a: char, b: char)
    requires
        backup::code_of(a) == backup::code_of(b),
    ensures
        a == b,
{
    let x = backup::code_of(a);
    let y = backup::code_of(b);
    lemma_code(a);
    lemma_code(b);
    assert(x[0] == y[0]);
    if x.len() == 3 {
        assert(x[1] == y[1] && x[2] == y[2]);
        lemma_hex_digit(a as int / 16, b as int / 16);
        lemma_hex_digit(a as int % 16, b as int % 16);
    }
}

/// A text that is written out, and the mark after it, tell the text.
proof fn lemma_escaped_tells(a: Seq<char>, x: Seq<char>, b: Seq<char>, y: Seq<char>)
    requires
        is_mark(x),
        is_mark(y),
        backup::escaped(a) + x == backup::escaped(b) + y,
    ensures
        a == b,
        x == y,
    decreases a.len(),
{
    let whole = backup::escaped(a) + x;
    let other = backup::escaped(b) + y;
    if a.len() == 0 && b.len() == 0 {
        assert(a =~= b);
        assert(whole =~= x);
        assert(other =~= y);
    } else if a.len() == 0 {
        lemma_code(b[0]);
        assert(whole =~= x);
        assert(other[0] == backup::code_of(b[0])[0]);
    } else if b.len() == 0 {
        lemma_code(a[0]);
        assert(other =~= y);
        assert(whole[0] == backup::code_of(a[0])[0]);
    } else {
        let p = backup::code_of(a[0]);
        let q = backup::code_of(b[0]);
        lemma_code(a[0]);
        lemma_code(b[0]);
        assert(whole[0] == p[0]);
        assert(other[0] == q[0]);
        assert(p.len() == q.len());
        assert(p =~= whole.take(p.len() as int));
        assert(q =~= other.take(q.len() as int));
        lemma_code_tells(a[0], b[0]);
        assert(backup::escaped(a.skip(1)) + x =~= whole.skip(p.len() as int));
        assert(backup::escaped(b.skip(1)) + y =~= other.skip(q.len() as int));
        lemma_escaped_tells(a.skip(1), x, b.skip(1), y);
        assert(a =~= seq![a[0]] + a.skip(1));
        assert(b =~= seq![b[0]] + b.skip(1));
    }
}

/// Whether Windows takes a character in the name of a directory.
pub open spec fn is_allowed(c: char) -> bool {
    &&& c as int >= 32 && c as int != 127
    &&& c != '\\' && c != '/' && c != ':' && c != '*' && c != '?' && c != '"'
    &&& c != '<' && c != '>' && c != '|'
}

/// Windows takes a hexadecimal digit in a name.
proof fn lemma_hex_allowed(d: int)
    requires
        0 <= d < 16,
    ensures
        is_allowed(backup::hex_digit(d)),
{
}

/// How long a text is when it is written out, and what it is made of.
proof fn lemma_escaped(s: Seq<char>)
    ensures
        s.len() <= backup::escaped(s).len() <= 3 * s.len(),
        forall|i: int|
            0 <= i < backup::escaped(s).len() ==> is_allowed(#[trigger] backup::escaped(s)[i]),
        (forall|i: int|
            0 <= i < s.len() ==> backup::is_literal(#[trigger] s[i]) || s[i] == '\\')
            ==> backup::escaped(s).len() == s.len(),
    decreases s.len(),
{
    if s.len() > 0 {
        let rest = s.skip(1);
        let code = backup::code_of(s[0]);
        let all = backup::escaped(s);
        lemma_escaped(rest);
        lemma_code(s[0]);
        assert forall|i: int| 0 <= i < all.len() implies is_allowed(#[trigger] all[i]) by {
            if i < code.len() {
                assert(all[i] == code[i]);
                if code.len() == 3 {
                    lemma_hex_allowed(s[0] as int / 16);
                    lemma_hex_allowed(s[0] as int % 16);
                }
            } else {
                assert(all[i] == backup::escaped(rest)[i - code.len()]);
            }
        }
        if forall|i: int|
            0 <= i < s.len() ==> backup::is_literal(#[trigger] s[i]) || s[i] == '\\' {
            assert forall|i: int| 0 <= i < rest.len() implies backup::is_literal(
                #[trigger] rest[i],
            ) || rest[i] == '\\' by {
                assert(rest[i] == s[i + 1]);
            }
        }
    }
}

/// A separator is seen in a text that is written out.
proof fn lemma_separator_shows(s: Seq<char>, k: int) -> (at: int)
    requires
        0 <= k < s.len(),
        s[k] == '\\',
    ensures
        0 <= at < backup::escaped(s).len(),
        backup::escaped(s)[at] == '=',
    decreases s.len(),
{
    let code = backup::code_of(s[0]);
    if k == 0 {
        assert(backup::escaped(s)[0] == code[0]);
        0
    } else {
        let at = lemma_separator_shows(s.skip(1), k - 1);
        assert(backup::escaped(s)[at + code.len()] == backup::escaped(s.skip(1))[at]);
        at + code.len()
    }
}

/// What of a prefix is written out.
spec fn source(prefix: Seq<char>) -> Seq<char> {
    if text::begins_with(prefix, "\\\\?\\"@) {
        prefix.skip(3)
    } else if backup::is_on_network(prefix) {
        prefix.skip(2)
    } else {
        prefix
    }
}

/// A name that is written out is its source and a mark, and holds a character
/// that no plain name does.
proof fn lemma_written_out(prefix: Seq<char>) -> (mark: Seq<char>)
    ensures
        is_mark(mark),
        backup::written_out(prefix) == backup::escaped(source(prefix)) + mark,
        mark == seq!['+', '+'] <==> !text::begins_with(prefix, "\\\\?\\"@)
            && !backup::is_on_network(prefix),
        exists|i: int|
            0 <= i < backup::written_out(prefix).len() && !backup::is_kept(
                #[trigger] backup::written_out(prefix)[i],
            ),
{
    reveal_strlit("++");
    reveal_strlit("\\\\?\\");
    assert("++"@ =~= seq!['+', '+']);
    let from = source(prefix);
    let body = backup::escaped(from);
    let all = backup::written_out(prefix);
    let none = Seq::<char>::empty();
    if !text::begins_with(prefix, "\\\\?\\"@) && !backup::is_on_network(prefix) {
        assert(all[body.len() as int] == '+');
        seq!['+', '+']
    } else {
        let k = if text::begins_with(prefix, "\\\\?\\"@) {
            assert(prefix.subrange(0, 4)[3] == prefix[3]);
            0
        } else {
            let k = choose|k: int| 2 < k < prefix.len() && #[trigger] prefix[k] == '\\';
            k - 2
        };
        let at = lemma_separator_shows(from, k);
        assert(all[at] == '=');
        if body.len() > 0 && (body.last() == '.' || body.last() == ' ') {
            assert(all =~= body + seq!['+']);
            seq!['+']
        } else {
            assert(all =~= body + none);
            none
        }
    }
}

/// The directory of a volume has a name that Windows takes and keeps as it is:
/// it holds no forbidden character, and ends in no dot and no space.
pub proof fn a_volume_has_a_directory(prefix: Seq<char>)
    ensures
        backup::volume_name(prefix).len() > 0,
        forall|i: int|
            0 <= i < backup::volume_name(prefix).len() ==> is_allowed(
                #[trigger] backup::volume_name(prefix)[i],
            ),
        backup::volume_name(prefix).last() != '.',
        backup::volume_name(prefix).last() != ' ',
{
    let all = backup::volume_name(prefix);
    a_prefix_becomes_a_plain_name(prefix);
    if backup::drive_of(prefix) is Some {
        lemma_drive_name(prefix);
    } else if backup::is_simple_share(prefix) {
        let k = choose|k: int| backup::is_share_parted_at(prefix, k);
        lemma_share_name(prefix, k);
        assert(all.last() == prefix.last());
    } else {
        let mark = lemma_written_out(prefix);
        let body = backup::escaped(source(prefix));
        reveal_strlit("++");
        lemma_escaped(source(prefix));
        assert forall|i: int| 0 <= i < all.len() implies is_allowed(#[trigger] all[i]) by {
            if i < body.len() {
                assert(all[i] == body[i]);
            }
        }
    }
}

/// Whether a prefix is a server or a verbatim one, and all that comes after
/// that can stand in a name: as it does in the names of servers and shares.
pub open spec fn is_named_plainly(prefix: Seq<char>) -> bool {
    let from: int = if text::begins_with(prefix, "\\\\?\\"@) {
        4
    } else {
        2
    };
    &&& text::begins_with(prefix, "\\\\?\\"@) || backup::is_on_network(prefix)
    &&& forall|i: int|
        from <= i < prefix.len() ==> backup::is_literal(#[trigger] prefix[i]) || prefix[i] == '\\'
}

/// The directory of a drive or share has a name that is shorter than what it
/// stands for, so that it can be made.
pub proof fn a_volume_has_a_short_directory(prefix: Seq<char>)
    requires
        backup::drive_of(prefix) is Some || is_named_plainly(prefix),
    ensures
        backup::volume_name(prefix).len() < prefix.len(),
{
    if backup::drive_of(prefix) is Some {
        lemma_drive_name(prefix);
    } else if backup::is_simple_share(prefix) {
        let k = choose|k: int| backup::is_share_parted_at(prefix, k);
        lemma_share_name(prefix, k);
    } else {
        let mark = lemma_written_out(prefix);
        let from = source(prefix);
        let start: int = prefix.len() - from.len();
        reveal_strlit("\\\\?\\");
        if text::begins_with(prefix, "\\\\?\\"@) {
            assert(prefix.subrange(0, 4)[3] == prefix[3]);
        }
        assert forall|i: int| 0 <= i < from.len() implies backup::is_literal(#[trigger] from[i])
            || from[i] == '\\' by {
            assert(from[i] == prefix[i + start]);
        }
        lemma_escaped(from);
    }
}

/// Whether two prefixes are the same, or two ways to write one drive.
pub open spec fn is_same_volume(a: Seq<char>, b: Seq<char>) -> bool {
    a == b || (backup::drive_of(a) is Some && backup::drive_of(a) == backup::drive_of(b))
}

/// The name of a simple share holds one `_`.
proof fn lemma_share_has_one_mark(prefix: Seq<char>, k: int, i: int)
    requires
        backup::is_share_parted_at(prefix, k),
    ensures
        0 <= i < backup::sanitized(prefix).len() ==> (backup::sanitized(prefix)[i] == '_' <==> i == k
            - 2),
        backup::sanitized(prefix).len() == prefix.len() - 2,
{
    lemma_share_name(prefix, k);
    let name = backup::sanitized(prefix);
    if 0 <= i < name.len() && i != k - 2 {
        assert(name[i] == prefix[i + 2]);
        assert(backup::is_simple(prefix[i + 2]));
    }
}

/// Two simple shares with one name are the same.
proof fn lemma_share_tells(a: Seq<char>, b: Seq<char>)
    requires
        backup::is_simple_share(a),
        backup::is_simple_share(b),
        backup::sanitized(a) == backup::sanitized(b),
    ensures
        a == b,
{
    let k = choose|k: int| backup::is_share_parted_at(a, k);
    let m = choose|m: int| backup::is_share_parted_at(b, m);
    lemma_share_name(a, k);
    lemma_share_name(b, m);
    let name = backup::sanitized(a);
    lemma_share_has_one_mark(a, k, k - 2);
    lemma_share_has_one_mark(b, m, k - 2);
    assert(k == m);
    assert forall|i: int| 0 <= i < a.len() implies a[i] == b[i] by {
        if i >= 2 && i != k {
            assert(name[i - 2] == a[i]);
            assert(name[i - 2] == b[i]);
        }
    }
    assert(a =~= b);
}

/// The directory of a drive or share tells which it is.
pub proof fn different_volumes_have_different_directories(a: Seq<char>, b: Seq<char>)
    requires
        !is_same_volume(a, b),
    ensures
        backup::volume_name(a) != backup::volume_name(b),
{
    if backup::volume_name(a) == backup::volume_name(b) {
        let a_plain = backup::drive_of(a) is Some || backup::is_simple_share(a);
        let b_plain = backup::drive_of(b) is Some || backup::is_simple_share(b);
        let x = lemma_written_out(a);
        let y = lemma_written_out(b);
        a_prefix_becomes_a_plain_name(a);
        a_prefix_becomes_a_plain_name(b);
        if a_plain && b_plain {
            lemma_plain_tells(a, b);
        } else if a_plain {
            let i = choose|i: int|
                0 <= i < backup::written_out(b).len() && !backup::is_kept(
                    #[trigger] backup::written_out(b)[i],
                );
            assert(backup::is_kept(backup::sanitized(a)[i]));
        } else if b_plain {
            let i = choose|i: int|
                0 <= i < backup::written_out(a).len() && !backup::is_kept(
                    #[trigger] backup::written_out(a)[i],
                );
            assert(backup::is_kept(backup::sanitized(b)[i]));
        } else {
            lemma_escaped_tells(source(a), x, source(b), y);
            lemma_source_tells(a, b);
        }
    }
}

/// What is written out of a prefix tells the prefix.
proof fn lemma_source_tells(a: Seq<char>, b: Seq<char>)
    requires
        source(a) == source(b),
        (text::begins_with(a, "\\\\?\\"@) || backup::is_on_network(a)) == (text::begins_with(
            b,
            "\\\\?\\"@,
        ) || backup::is_on_network(b)),
    ensures
        a == b,
{
    reveal_strlit("\\\\?\\");
    let from = source(a);
    let a_verbatim = text::begins_with(a, "\\\\?\\"@);
    let b_verbatim = text::begins_with(b, "\\\\?\\"@);
    if a_verbatim {
        assert(a =~= a.subrange(0, 4) + a.skip(4));
        assert(a.subrange(0, 4)[3] == a[3]);
        assert(from[0] == a[3]);
        assert(from.skip(1) =~= a.skip(4));
    } else if backup::is_on_network(a) {
        assert(from[0] == a[2]);
        assert(a =~= seq!['\\', '\\'] + from);
    }
    if b_verbatim {
        assert(b =~= b.subrange(0, 4) + b.skip(4));
        assert(b.subrange(0, 4)[3] == b[3]);
        assert(from[0] == b[3]);
        assert(from.skip(1) =~= b.skip(4));
    } else if backup::is_on_network(b) {
        assert(from[0] == b[2]);
        assert(b =~= seq!['\\', '\\'] + from);
    }
}

/// Two plain names are the same only for one volume.
proof fn lemma_plain_tells(a: Seq<char>, b: Seq<char>)
    requires
        backup::drive_of(a) is Some || backup::is_simple_share(a),
        backup::drive_of(b) is Some || backup::is_simple_share(b),
        backup::sanitized(a) == backup::sanitized(b),
    ensures
        is_same_volume(a, b),
{
    if backup::drive_of(a) is Some {
        lemma_drive_name(a);
        assert(backup::sanitized(a).len() == 1);
        assert(backup::sanitized(a)[0] == backup::drive_of(a)->0);
    }
    if backup::drive_of(b) is Some {
        lemma_drive_name(b);
        assert(backup::sanitized(b).len() == 1);
        assert(backup::sanitized(b)[0] == backup::drive_of(b)->0);
    }
    if backup::is_simple_share(a) {
        let k = choose|k: int| backup::is_share_parted_at(a, k);
        lemma_share_has_one_mark(a, k, 0);
        assert(backup::sanitized(a).len() >= 3);
    }
    if backup::is_simple_share(b) {
        let k = choose|k: int| backup::is_share_parted_at(b, k);
        lemma_share_has_one_mark(b, k, 0);
        assert(backup::sanitized(b).len() >= 3);
    }
    if backup::drive_of(a) is None && backup::drive_of(b) is None {
        lemma_share_tells(a, b);
    }
}

// ---------------------------------------------------------------------------
// different projects
// ---------------------------------------------------------------------------
/// A directory to which a name is added with a separator.
pub open spec fn takes_separator(style: Style, dir: Seq<char>) -> bool {
    dir.len() > 2 && !paths::is_separator(style, dir.last())
}

pub proof fn lemma_backups_in(style: Style, home: Seq<char>)
    ensures
        takes_separator(style, backup::backups_in(style, home)),
{
    reveal_strlit("backups");
    let dir = paths::below(style, home, ".prot"@);
    let all = paths::below(style, dir, "backups"@);
    assert(all.last() == 's');
}

pub proof fn lemma_nested(style: Style, base: Seq<char>, names: Seq<Seq<char>>)
    requires
        takes_separator(style, base),
        are_names(style, names),
    ensures
        takes_separator(style, backup::nested(style, base, names)),
        backup::nested(style, base, names).len() >= base.len(),
        names.len() > 0 ==> backup::nested(style, base, names).len() > base.len(),
    decreases names.len(),
{
    if names.len() > 0 {
        let fewer = names.drop_last();
        assert forall|i: int| 0 <= i < fewer.len() implies is_name(style, #[trigger] fewer[i]) by {
            assert(fewer[i] == names[i]);
        }
        lemma_nested(style, base, fewer);
        let last = names[names.len() - 1];
        assert(is_name(style, last));
        assert(!paths::is_separator(style, last[last.len() - 1]));
    }
}

/// A name after a separator tells itself and the directory before it.
pub proof fn lemma_last_name(
    style: Style,
    c: char,
    a: Seq<char>,
    x: Seq<char>,
    b: Seq<char>,
    y: Seq<char>,
)
    requires
        paths::is_separator(style, c),
        is_name(style, x),
        is_name(style, y),
        a + seq![c] + x == b + seq![c] + y,
    ensures
        a == b,
        x == y,
{
    let whole = a + seq![c] + x;
    assert(whole.len() == a.len() + 1 + x.len());
    if a.len() < b.len() {
        assert(whole[b.len() as int] == c);
        assert(whole[b.len() as int] == x[b.len() - a.len() - 1]);
        assert(false);
    }
    if b.len() < a.len() {
        assert(whole[a.len() as int] == c);
        assert((b + seq![c] + y)[a.len() as int] == y[a.len() - b.len() - 1]);
        assert(false);
    }
    assert(a =~= whole.take(a.len() as int));
    assert(b =~= (b + seq![c] + y).take(a.len() as int));
    assert(x =~= whole.skip(a.len() as int + 1));
    assert(y =~= (b + seq![c] + y).skip(a.len() as int + 1));
}

proof fn lemma_nested_tells_names(
    style: Style,
    base: Seq<char>,
    names: Seq<Seq<char>>,
    others: Seq<Seq<char>>,
)
    requires
        takes_separator(style, base),
        are_names(style, names),
        are_names(style, others),
        backup::nested(style, base, names) == backup::nested(style, base, others),
    ensures
        names == others,
    decreases names.len(),
{
    lemma_nested(style, base, names);
    lemma_nested(style, base, others);
    if names.len() > 0 && others.len() > 0 {
        let fewer = names.drop_last();
        let fewer_others = others.drop_last();
        assert forall|i: int| 0 <= i < fewer.len() implies is_name(style, #[trigger] fewer[i]) by {
            assert(fewer[i] == names[i]);
        }
        assert forall|i: int| 0 <= i < fewer_others.len() implies is_name(
            style,
            #[trigger] fewer_others[i],
        ) by {
            assert(fewer_others[i] == others[i]);
        }
        lemma_nested(style, base, fewer);
        lemma_nested(style, base, fewer_others);
        assert(is_name(style, names[names.len() - 1]));
        assert(is_name(style, others[others.len() - 1]));
        lemma_last_name(
            style,
            paths::main_separator(style),
            backup::nested(style, base, fewer),
            names.last(),
            backup::nested(style, base, fewer_others),
            others.last(),
        );
        lemma_nested_tells_names(style, base, fewer, fewer_others);
        assert(names =~= fewer.push(names.last()));
        assert(others =~= fewer_others.push(others.last()));
    } else {
        assert(names =~= others);
    }
}

pub proof fn lemma_directories(prefix: Option<Seq<char>>, names: Seq<Seq<char>>)
    ensures
        backup::directories(absolute(prefix, names)) == backup::directories(
            absolute(prefix, seq![]),
        ) + names,
    decreases names.len(),
{
    let all = absolute(prefix, names);
    let none: Seq<Seq<char>> = seq![];
    if names.len() == 0 {
        assert(all =~= absolute(prefix, none));
        assert(backup::directories(all) + names =~= backup::directories(all));
    } else {
        let fewer = names.drop_last();
        lemma_directories(prefix, fewer);
        assert(all.drop_last() =~= absolute(prefix, fewer));
        assert(all.last() == Component::Normal(names.last()));
        assert(backup::directories(all) =~= backup::directories(absolute(prefix, none)) + names);
    }
}

proof fn lemma_root_names(style: Style, prefix: Option<Seq<char>>)
    ensures
        are_names(style, backup::directories(absolute(prefix, seq![]))),
{
    let none: Seq<Seq<char>> = seq![];
    let root = absolute(prefix, none);
    reveal_with_fuel(backup::directories, 3);
    match prefix {
        Some(name) => {
            a_volume_has_a_directory(name);
            assert(root =~= seq![Component::Prefix(name), Component::RootDir]);
            assert(root.drop_last() =~= seq![Component::Prefix(name)]);
            assert(root.drop_last().drop_last() =~= seq![]);
        },
        None => {
            assert(root =~= seq![Component::RootDir]);
            assert(root.drop_last() =~= seq![]);
        },
    }
}

/// The directory of the root of a project: that of its drive or share.
pub proof fn lemma_root_directories(prefix: Option<Seq<char>>)
    ensures
        backup::directories(absolute(prefix, seq![])) == (match prefix {
            Some(name) => seq![backup::volume_name(name)],
            None => seq![],
        }),
{
    let none: Seq<Seq<char>> = seq![];
    let root = absolute(prefix, none);
    reveal_with_fuel(backup::directories, 3);
    match prefix {
        Some(name) => {
            assert(root =~= seq![Component::Prefix(name), Component::RootDir]);
            assert(root.drop_last() =~= seq![Component::Prefix(name)]);
            assert(root.drop_last().drop_last() =~= seq![]);
            assert(backup::directories(root) =~= seq![backup::volume_name(name)]);
        },
        None => {
            assert(root =~= seq![Component::RootDir]);
            assert(root.drop_last() =~= seq![]);
            assert(backup::directories(root) =~= seq![]);
        },
    }
}

/// Whether two paths lie on the same drive or share, or both on none.
pub open spec fn is_same_root(a: Option<Seq<char>>, b: Option<Seq<char>>) -> bool {
    match (a, b) {
        (Some(x), Some(y)) => is_same_volume(x, y),
        (None, None) => true,
        _ => false,
    }
}

/// Two projects never have the same backup, whether they lie in different
/// directories or on different drives or shares. (All absolute paths of a
/// platform have a prefix, or none has.)
pub proof fn different_projects_have_different_backups(
    style: Style,
    home: Seq<char>,
    prefix: Option<Seq<char>>,
    names: Seq<Seq<char>>,
    other_prefix: Option<Seq<char>>,
    others: Seq<Seq<char>>,
)
    requires
        are_names(style, names),
        are_names(style, others),
        prefix is Some <==> other_prefix is Some,
        names != others || !is_same_root(prefix, other_prefix),
    ensures
        backup::backup_path(style, home, absolute(prefix, names)) != backup::backup_path(
            style,
            home,
            absolute(other_prefix, others),
        ),
{
    reveal_strlit(".prot");
    let base = backup::backups_in(style, home);
    let root = backup::directories(absolute(prefix, seq![]));
    let other_root = backup::directories(absolute(other_prefix, seq![]));
    let dirs = root + names;
    let other_dirs = other_root + others;
    lemma_backups_in(style, home);
    lemma_root_names(style, prefix);
    lemma_root_names(style, other_prefix);
    lemma_root_directories(prefix);
    lemma_root_directories(other_prefix);
    lemma_directories(prefix, names);
    lemma_directories(other_prefix, others);
    lemma_names_concat(style, root, names);
    lemma_names_concat(style, other_root, others);
    lemma_nested(style, base, dirs);
    lemma_nested(style, base, other_dirs);
    assert(is_name(style, prot::PROT_FILE@));
    if backup::backup_path(style, home, absolute(prefix, names)) == backup::backup_path(
        style,
        home,
        absolute(other_prefix, others),
    ) {
        lemma_last_name(
            style,
            paths::main_separator(style),
            backup::nested(style, base, dirs),
            prot::PROT_FILE@,
            backup::nested(style, base, other_dirs),
            prot::PROT_FILE@,
        );
        lemma_nested_tells_names(style, base, dirs, other_dirs);
        assert(names =~= dirs.skip(root.len() as int));
        assert(others =~= other_dirs.skip(other_root.len() as int));
        if prefix is Some {
            assert(dirs[0] == other_dirs[0]);
            if !is_same_volume(prefix->0, other_prefix->0) {
                different_volumes_have_different_directories(prefix->0, other_prefix->0);
            }
        }
    }
}

proof fn lemma_names_concat(style: Style, a: Seq<Seq<char>>, b: Seq<Seq<char>>)
    requires
        are_names(style, a),
        are_names(style, b),
    ensures
        are_names(style, a + b),
{
    let all = a + b;
    assert forall|i: int| 0 <= i < all.len() implies is_name(style, #[trigger] all[i]) by {
        if i < a.len() {
            assert(all[i] == a[i]);
        } else {
            assert(all[i] == b[i - a.len()]);
        }
    }
}

} // verus!
