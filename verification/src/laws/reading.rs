//! What a `.prot` file says, whoever wrote it.

use super::round_trip;
use crate::prot;
use crate::text;
use vstd::prelude::*;

verus! {

// ---------------------------------------------------------------------------
// trimming
// ---------------------------------------------------------------------------
proof fn lemma_start(s: Seq<char>) -> (n: int)
    ensures
        0 <= n <= s.len(),
        text::trim_start(s) == s.skip(n),
        n < s.len() ==> !text::is_white_space(s[n]),
        forall|i: int| 0 <= i < n ==> text::is_white_space(#[trigger] s[i]),
    decreases s.len(),
{
    if s.len() > 0 && text::is_white_space(s[0]) {
        let rest = s.skip(1);
        let n = lemma_start(rest);
        assert(rest.skip(n) =~= s.skip(n + 1));
        assert forall|i: int| 0 <= i < n + 1 implies text::is_white_space(#[trigger] s[i]) by {
            if i > 0 {
                assert(rest[i - 1] == s[i]);
            }
        }
        n + 1
    } else {
        assert(s.skip(0) =~= s);
        0
    }
}

proof fn lemma_end(s: Seq<char>) -> (n: int)
    ensures
        0 <= n <= s.len(),
        text::trim_end(s) == s.take(n),
        n > 0 ==> !text::is_white_space(s[n - 1]),
        forall|i: int| n <= i < s.len() ==> text::is_white_space(#[trigger] s[i]),
    decreases s.len(),
{
    if s.len() > 0 && text::is_white_space(s.last()) {
        let rest = s.drop_last();
        let n = lemma_end(rest);
        assert(rest.take(n) =~= s.take(n));
        assert forall|i: int| n <= i < s.len() implies text::is_white_space(#[trigger] s[i]) by {
            if i < rest.len() {
                assert(rest[i] == s[i]);
            }
        }
        n
    } else {
        assert(s.take(s.len() as int) =~= s);
        s.len() as int
    }
}

/// Trimming takes the white space off both ends of a text, all of it and
/// nothing else.
pub proof fn trimming_is_exact(s: Seq<char>) -> (cut: (int, int))
    ensures
        0 <= cut.0 <= cut.1 <= s.len(),
        text::trimmed(s) == s.subrange(cut.0, cut.1),
        forall|i: int| 0 <= i < cut.0 ==> text::is_white_space(#[trigger] s[i]),
        forall|i: int| cut.1 <= i < s.len() ==> text::is_white_space(#[trigger] s[i]),
        cut.0 < cut.1 ==> !text::is_white_space(s[cut.0]) && !text::is_white_space(s[cut.1 - 1]),
{
    let n = lemma_start(s);
    let t = s.skip(n);
    let m = lemma_end(t);
    assert(t.take(m) =~= s.subrange(n, n + m));
    assert forall|i: int| n + m <= i < s.len() implies text::is_white_space(#[trigger] s[i]) by {
        assert(t[i - n] == s[i]);
    }
    if m > 0 {
        assert(t[m - 1] == s[n + m - 1]);
    }
    (n, n + m)
}

/// A text with white space put around it is trimmed to the same.
pub proof fn white_space_around_is_nothing(a: Seq<char>, s: Seq<char>, b: Seq<char>)
    requires
        forall|i: int| 0 <= i < a.len() ==> text::is_white_space(#[trigger] a[i]),
        forall|i: int| 0 <= i < b.len() ==> text::is_white_space(#[trigger] b[i]),
    ensures
        text::trimmed(a + s + b) == text::trimmed(s),
{
    let whole = a + s + b;
    let inner = trimming_is_exact(s);
    let outer = trimming_is_exact(whole);
    let n = a.len() as int;
    if inner.0 < inner.1 {
        assert(whole[n + inner.0] == s[inner.0]);
        assert(whole[n + inner.1 - 1] == s[inner.1 - 1]);
        if outer.0 < n + inner.0 && outer.0 < outer.1 {
            if outer.0 < n {
                assert(whole[outer.0] == a[outer.0]);
            } else {
                assert(whole[outer.0] == s[outer.0 - n]);
            }
        }
        if outer.1 > n + inner.1 && outer.0 < outer.1 {
            if outer.1 - 1 < n + s.len() {
                assert(whole[outer.1 - 1] == s[outer.1 - 1 - n]);
            } else {
                assert(whole[outer.1 - 1] == b[outer.1 - 1 - n - s.len()]);
            }
        }
        assert(outer.0 == n + inner.0);
        assert(outer.1 == n + inner.1);
        assert(whole.subrange(outer.0, outer.1) =~= s.subrange(inner.0, inner.1));
    } else {
        if outer.0 < outer.1 {
            let k = outer.0;
            if k < n {
                assert(whole[k] == a[k]);
            } else if k < n + s.len() {
                assert(whole[k] == s[k - n]);
                if k - n < inner.0 {
                    assert(text::is_white_space(s[k - n]));
                } else {
                    assert(text::is_white_space(s[k - n]));
                }
            } else {
                assert(whole[k] == b[k - n - s.len()]);
            }
        }
        assert(text::trimmed(whole) =~= text::trimmed(s));
    }
}

// ---------------------------------------------------------------------------
// lines
// ---------------------------------------------------------------------------
/// What stands between the newlines of a text, the last piece too.
pub open spec fn split_lines(s: Seq<char>) -> Seq<Seq<char>>
    decreases s.len(),
{
    if s.len() == 0 {
        seq![Seq::empty()]
    } else {
        let before = split_lines(s.drop_last());
        if s.last() == '\n' {
            before.push(Seq::empty())
        } else {
            before.drop_last().push(before.last().push(s.last()))
        }
    }
}

/// What lines say: each that is not blank and no comment, trimmed.
pub open spec fn read_off(lines: Seq<Seq<char>>) -> Seq<Seq<char>>
    decreases lines.len(),
{
    if lines.len() == 0 {
        seq![]
    } else {
        let before = read_off(lines.drop_last());
        let line = text::trimmed(lines.last());
        if line.len() == 0 || line[0] == '#' {
            before
        } else {
            before.push(line)
        }
    }
}

proof fn lemma_split_some(s: Seq<char>)
    ensures
        split_lines(s).len() > 0,
    decreases s.len(),
{
    if s.len() > 0 {
        lemma_split_some(s.drop_last());
    }
}

proof fn lemma_split_one(s: Seq<char>)
    requires
        forall|i: int| 0 <= i < s.len() ==> s[i] != '\n',
    ensures
        split_lines(s) == seq![s],
    decreases s.len(),
{
    if s.len() == 0 {
        assert(s =~= Seq::<char>::empty());
        assert(split_lines(s) =~= seq![s]);
    } else {
        lemma_split_one(s.drop_last());
        assert(s.drop_last().push(s.last()) =~= s);
        assert(split_lines(s) =~= seq![s]);
    }
}

proof fn lemma_split_at(a: Seq<char>, b: Seq<char>)
    ensures
        split_lines(a + seq!['\n'] + b) == split_lines(a) + split_lines(b),
    decreases b.len(),
{
    let whole = a + seq!['\n'] + b;
    let first = split_lines(a);
    if b.len() == 0 {
        assert(whole.drop_last() =~= a);
        assert(whole.last() == '\n');
        assert(split_lines(whole) =~= first + split_lines(b));
    } else {
        let fewer = b.drop_last();
        lemma_split_at(a, fewer);
        lemma_split_some(fewer);
        assert(whole.drop_last() =~= a + seq!['\n'] + fewer);
        assert(whole.last() == b.last());
        let second = split_lines(fewer);
        assert((first + second).last() == second.last());
        assert((first + second).drop_last() =~= first + second.drop_last());
        assert(split_lines(whole) =~= first + split_lines(b));
    }
}

proof fn lemma_read_off_concat(a: Seq<Seq<char>>, b: Seq<Seq<char>>)
    ensures
        read_off(a + b) == read_off(a) + read_off(b),
    decreases b.len(),
{
    if b.len() == 0 {
        assert(a + b =~= a);
        assert(read_off(a) + read_off(b) =~= read_off(a));
    } else {
        lemma_read_off_concat(a, b.drop_last());
        assert((a + b).drop_last() =~= a + b.drop_last());
        assert((a + b).last() == b.last());
        assert(read_off(a + b) =~= read_off(a) + read_off(b));
    }
}

proof fn lemma_read_off_one(line: Seq<char>)
    ensures
        read_off(seq![line]) == text::kept_line(line),
{
    let one = seq![line];
    assert(one.drop_last() =~= Seq::<Seq<char>>::empty());
    assert(read_off(one.drop_last()) =~= Seq::<Seq<char>>::empty());
    assert(read_off(one) =~= text::kept_line(line));
}

/// The content of a text is what its lines say, every one of them.
pub proof fn every_line_is_read(s: Seq<char>)
    ensures
        text::content_lines(s) == read_off(split_lines(s)),
    decreases s.len(),
{
    text::lemma_first_index(s, '\n');
    match text::first_index(s, '\n') {
        None => {
            text::lemma_content_one_line(s);
            lemma_split_one(s);
            lemma_read_off_one(s);
        },
        Some(i) => {
            let first = s.take(i);
            let rest = s.skip(i + 1);
            text::lemma_content_first_line(s, i);
            every_line_is_read(rest);
            assert(s =~= first + seq!['\n'] + rest);
            lemma_split_at(first, rest);
            lemma_split_one(first);
            lemma_read_off_concat(split_lines(first), split_lines(rest));
            lemma_read_off_one(first);
        },
    }
}

// ---------------------------------------------------------------------------
// the file
// ---------------------------------------------------------------------------
/// Whether the line between the two parts first stands at this index.
pub open spec fn is_parted_at(t: Seq<char>, i: int) -> bool {
    &&& text::occurs_at(t, "# ---- your files (edit below) ----"@, i)
    &&& forall|j: int|
        0 <= j < i ==> !text::occurs_at(t, "# ---- your files (edit below) ----"@, j)
}

proof fn lemma_parted(t: Seq<char>, i: int)
    requires
        is_parted_at(t, i),
    ensures
        text::first_occurrence(t, prot::SENTINEL@) == Some(i),
{
    text::lemma_find_from(t, prot::SENTINEL@, 0);
}

/// What lies below the sentinel is read whole: the patterns are what its lines
/// say, in order, whether or not a newline ends the last one.
pub proof fn what_lies_below_the_sentinel_is_read(t: Seq<char>, i: int)
    requires
        is_parted_at(t, i),
    ensures
        prot::parsed(t).patterns == read_off(
            split_lines(t.skip(i + "# ---- your files (edit below) ----"@.len())),
        ),
{
    lemma_parted(t, i);
    every_line_is_read(t.skip(i + prot::SENTINEL@.len()));
}

/// A line at the end of the file is a pattern like any other, with a newline
/// after it or without.
pub proof fn a_last_line_needs_no_newline(t: Seq<char>, i: int, line: Seq<char>)
    requires
        is_parted_at(t, i),
        forall|k: int| 0 <= k < line.len() ==> line[k] != '\n',
        text::trimmed(line) == line,
        line.len() > 0,
        line[0] != '#',
        t.len() > i + "# ---- your files (edit below) ----"@.len(),
        t.last() == '\n',
    ensures
        prot::parsed(t + line).patterns == prot::parsed(t).patterns.push(line),
        prot::parsed(t + line + seq!['\n']).patterns == prot::parsed(t).patterns.push(line),
{
    let n = "# ---- your files (edit below) ----"@.len() as int;
    let one = t + line;
    let two = t + line + seq!['\n'];
    lemma_parted_longer(t, i, line);
    lemma_parted_longer(one, i, seq!['\n']);
    what_lies_below_the_sentinel_is_read(t, i);
    what_lies_below_the_sentinel_is_read(one, i);
    what_lies_below_the_sentinel_is_read(two, i);
    let body = t.skip(i + n);
    let before = body.drop_last();
    let empty = Seq::<char>::empty();
    assert(body =~= before + seq!['\n'] + empty);
    assert(one.skip(i + n) =~= before + seq!['\n'] + line);
    assert(two.skip(i + n) =~= (before + seq!['\n'] + line) + seq!['\n'] + empty);
    lemma_split_at(before, empty);
    lemma_split_at(before, line);
    lemma_split_at(before + seq!['\n'] + line, empty);
    lemma_split_one(line);
    lemma_split_one(empty);
    lemma_read_off_concat(split_lines(before), seq![empty]);
    lemma_read_off_concat(split_lines(before), seq![line]);
    lemma_read_off_concat(split_lines(before + seq!['\n'] + line), seq![empty]);
    lemma_read_off_one(empty);
    lemma_read_off_one(line);
    assert(text::trimmed(empty) =~= empty);
    let read = read_off(split_lines(before));
    assert(read + Seq::<Seq<char>>::empty() =~= read);
    assert(read + seq![line] =~= read.push(line));
    assert(read.push(line) + Seq::<Seq<char>>::empty() =~= read.push(line));
}

proof fn lemma_parted_longer(t: Seq<char>, i: int, more: Seq<char>)
    requires
        is_parted_at(t, i),
    ensures
        is_parted_at(t + more, i),
{
    let mark = "# ---- your files (edit below) ----"@;
    let whole = t + more;
    let n = mark.len() as int;
    assert(whole.subrange(i, i + n) =~= t.subrange(i, i + n));
    assert forall|j: int| 0 <= j < i implies !text::occurs_at(whole, mark, j) by {
        if text::occurs_at(whole, mark, j) {
            assert(whole.subrange(j, j + n) =~= t.subrange(j, j + n));
            assert(text::occurs_at(t, mark, j));
        }
    }
}

/// Where the sentinel is missing the whole text is the user's: nothing is
/// recorded, and every line is read.
pub proof fn a_text_without_the_sentinel_is_all_patterns(t: Seq<char>)
    requires
        !text::has(t, "# ---- your files (edit below) ----"@),
    ensures
        prot::parsed(t).vault is None,
        prot::parsed(t).documents.len() == 0,
        prot::parsed(t).patterns == read_off(split_lines(t)),
{
    text::lemma_find_from(t, prot::SENTINEL@, 0);
    if let Some(i) = text::first_occurrence(t, prot::SENTINEL@) {
        assert(text::occurs_at(t, prot::SENTINEL@, i));
    }
    every_line_is_read(t);
    let none = Seq::<char>::empty();
    every_line_is_read(none);
    lemma_split_one(none);
    lemma_read_off_one(none);
    assert(text::trimmed(none) =~= none);
    assert(text::content_lines(none) =~= Seq::<Seq<char>>::empty());
}

/// Whether a line records the document `id` for the file at `path`: the last
/// colon stands between them.
pub open spec fn is_entry(line: Seq<char>, path: Seq<char>, id: Seq<char>) -> bool {
    exists|p: Seq<char>, i: Seq<char>|
        {
            &&& line == #[trigger] ("doc "@ + p + ":"@ + i)
            &&& round_trip::free_of(i, ':')
            &&& path == text::trimmed(p) && path.len() > 0
            &&& id == text::trimmed(i) && id.len() > 0
        }
}

/// A line records a document just where it has the form of an entry, and the
/// document is the one it names.
pub proof fn an_entry_is_read_as_it_stands(line: Seq<char>, path: Seq<char>, id: Seq<char>)
    ensures
        is_entry(line, path, id) <==> prot::document_in(line) == seq![(path, id)],
        prot::document_in(line).len() <= 1,
{
    reveal_strlit("doc ");
    reveal_strlit(":");
    let rest = line.skip(4);
    text::lemma_last_index(rest, ':');
    if is_entry(line, path, id) {
        let (p, i) = choose|p: Seq<char>, i: Seq<char>|
            {
                &&& line == #[trigger] ("doc "@ + p + ":"@ + i)
                &&& round_trip::free_of(i, ':')
                &&& path == text::trimmed(p) && path.len() > 0
                &&& id == text::trimmed(i) && id.len() > 0
            };
        assert(line.subrange(0, 4) =~= "doc "@);
        assert(rest =~= p + ":"@ + i);
        assert(rest[p.len() as int] == ':');
        let k = text::last_index(rest, ':')->0;
        if k > p.len() {
            assert(rest[k] == i[k - p.len() - 1]);
        }
        assert(rest.take(k) =~= p);
        assert(rest.skip(k + 1) =~= i);
    }
    if prot::document_in(line) == seq![(path, id)] {
        assert(prot::document_in(line).len() == 1);
        assert(prot::document_in(line)[0] == (path, id));
        let k = text::last_index(rest, ':')->0;
        let p = rest.take(k);
        let i = rest.skip(k + 1);
        assert(line.subrange(0, 4) == "doc "@);
        assert forall|j: int| 0 <= j < i.len() implies i[j] != ':' by {
            assert(i[j] == rest[k + 1 + j]);
        }
        assert(line =~= "doc "@ + p + ":"@ + i) by {
            assert forall|j: int| 0 <= j < 4 implies line[j] == "doc "@[j] by {
                assert(line.subrange(0, 4)[j] == line[j]);
            }
            assert(rest =~= p + ":"@ + i);
        }
    }
}

/// The lines above the sentinel.
pub open spec fn header_read(t: Seq<char>, i: int) -> Seq<Seq<char>> {
    read_off(split_lines(t.take(i)))
}

/// Whether one list of documents follows from the lines by reading off each
/// entry in order.
pub open spec fn entries_are(
    lines: Seq<Seq<char>>,
    documents: Seq<(Seq<char>, Seq<char>)>,
) -> bool
    decreases lines.len(),
{
    if lines.len() == 0 {
        documents.len() == 0
    } else {
        ||| documents.len() > 0 && is_entry(lines.last(), documents.last().0, documents.last().1)
            && entries_are(lines.drop_last(), documents.drop_last())
        ||| (forall|path: Seq<char>, id: Seq<char>| !is_entry(lines.last(), path, id))
            && entries_are(lines.drop_last(), documents)
    }
}

proof fn lemma_entries(lines: Seq<Seq<char>>)
    ensures
        entries_are(lines, prot::documents_in(lines)),
    decreases lines.len(),
{
    if lines.len() > 0 {
        let fewer = lines.drop_last();
        let line = lines.last();
        let before = prot::documents_in(fewer);
        let found = prot::document_in(line);
        let all = prot::documents_in(lines);
        lemma_entries(fewer);
        an_entry_is_read_as_it_stands(line, seq![], seq![]);
        if found.len() == 1 {
            let entry = found[0];
            an_entry_is_read_as_it_stands(line, entry.0, entry.1);
            assert(found =~= seq![(entry.0, entry.1)]);
            assert(all.last() == entry);
            assert(all.drop_last() =~= before);
        } else {
            assert(all =~= before);
            assert forall|path: Seq<char>, id: Seq<char>| !is_entry(line, path, id) by {
                an_entry_is_read_as_it_stands(line, path, id);
                assert(seq![(path, id)].len() == 1);
            }
        }
    }
}

/// The recorded documents are the entries above the sentinel, all of them, in
/// order.
pub proof fn every_entry_above_the_sentinel_is_read(t: Seq<char>, i: int)
    requires
        is_parted_at(t, i),
    ensures
        entries_are(header_read(t, i), prot::parsed(t).documents),
{
    lemma_parted(t, i);
    every_line_is_read(t.take(i));
    lemma_entries(text::content_lines(t.take(i)));
}

/// Whether a line tells the vault.
pub open spec fn tells_vault(line: Seq<char>) -> bool {
    text::begins_with(line, "vault:"@)
}

proof fn lemma_vault(lines: Seq<Seq<char>>, k: int)
    requires
        0 <= k < lines.len(),
        tells_vault(lines[k]),
        forall|j: int| k < j < lines.len() ==> !tells_vault(#[trigger] lines[j]),
    ensures
        prot::vault_in(lines) == (if text::trimmed(lines[k].skip(6)).len() == 0 {
            None
        } else {
            Some(text::trimmed(lines[k].skip(6)))
        }),
    decreases lines.len(),
{
    reveal_strlit("vault:");
    if k < lines.len() - 1 {
        let fewer = lines.drop_last();
        assert(!tells_vault(lines[lines.len() - 1]));
        assert forall|j: int| k < j < fewer.len() implies !tells_vault(#[trigger] fewer[j]) by {
            assert(fewer[j] == lines[j]);
        }
        lemma_vault(fewer, k);
    }
}

proof fn lemma_no_vault(lines: Seq<Seq<char>>)
    requires
        forall|j: int| 0 <= j < lines.len() ==> !tells_vault(#[trigger] lines[j]),
    ensures
        prot::vault_in(lines) is None,
    decreases lines.len(),
{
    if lines.len() > 0 {
        let fewer = lines.drop_last();
        assert(!tells_vault(lines[lines.len() - 1]));
        assert forall|j: int| 0 <= j < fewer.len() implies !tells_vault(#[trigger] fewer[j]) by {
            assert(fewer[j] == lines[j]);
        }
        lemma_no_vault(fewer);
    }
}

/// The vault is what the last line above the sentinel says that tells one, and
/// none where that line is blank after the colon.
pub proof fn the_last_vault_line_counts(t: Seq<char>, i: int, k: int)
    requires
        is_parted_at(t, i),
        0 <= k < header_read(t, i).len(),
        tells_vault(header_read(t, i)[k]),
        forall|j: int|
            k < j < header_read(t, i).len() ==> !tells_vault(#[trigger] header_read(t, i)[j]),
    ensures
        prot::parsed(t).vault matches Some(id) ==> id.len() > 0,
        prot::parsed(t).vault is None ==> text::trimmed(header_read(t, i)[k].skip(6)).len() == 0,
        prot::parsed(t).vault matches Some(id) ==> id == text::trimmed(
            header_read(t, i)[k].skip(6),
        ),
{
    lemma_parted(t, i);
    every_line_is_read(t.take(i));
    lemma_vault(header_read(t, i), k);
}

/// Where no line above the sentinel tells a vault, there is none.
pub proof fn no_vault_line_means_no_vault(t: Seq<char>, i: int)
    requires
        is_parted_at(t, i),
        forall|j: int|
            0 <= j < header_read(t, i).len() ==> !tells_vault(#[trigger] header_read(t, i)[j]),
    ensures
        prot::parsed(t).vault is None,
{
    lemma_parted(t, i);
    every_line_is_read(t.take(i));
    lemma_no_vault(header_read(t, i));
}

// ---------------------------------------------------------------------------
// what was written, edited
// ---------------------------------------------------------------------------
/// A file whose last newline an editor took off says what it said.
pub proof fn a_lost_last_newline_loses_nothing(data: prot::ProtView)
    requires
        round_trip::storable(data),
        data.patterns.len() > 0,
    ensures
        prot::parsed(prot::serialized(data).drop_last()) == data,
{
    let t = prot::serialized(data);
    let less = t.drop_last();
    let mark = prot::SENTINEL@;
    let n = mark.len() as int;
    reveal_strlit("\n");
    round_trip::reading_gives_back_what_was_written(data);
    let i = round_trip::the_sentinel_parts_what_is_written(data);
    let tail = prot::terminated(data.patterns);
    assert(tail.last() == '\n');
    let body = t.skip(i + n);
    assert(body.last() == tail.last());
    assert(t.last() == body.last());
    lemma_parted(t, i);
    assert(less.subrange(i, i + n) =~= t.subrange(i, i + n));
    assert forall|j: int| 0 <= j < i implies !text::occurs_at(less, mark, j) by {
        if text::occurs_at(less, mark, j) {
            assert(less.subrange(j, j + n) =~= t.subrange(j, j + n));
            assert(text::occurs_at(t, mark, j));
        }
    }
    lemma_parted(less, i);
    assert(less.take(i) =~= t.take(i));
    let empty = Seq::<char>::empty();
    assert(less.skip(i + n) =~= body.drop_last());
    assert(body =~= body.drop_last() + seq!['\n'] + empty);
    every_line_is_read(body);
    every_line_is_read(body.drop_last());
    lemma_split_at(body.drop_last(), empty);
    lemma_split_one(empty);
    lemma_read_off_concat(split_lines(body.drop_last()), seq![empty]);
    lemma_read_off_one(empty);
    assert(text::trimmed(empty) =~= empty);
    assert(text::content_lines(body) =~= text::content_lines(body.drop_last()));
}

proof fn lemma_split_terminated(list: Seq<Seq<char>>)
    requires
        forall|k: int| 0 <= k < list.len() ==> round_trip::free_of(#[trigger] list[k], '\n'),
    ensures
        split_lines(prot::terminated(list)) == list.push(Seq::empty()),
    decreases list.len(),
{
    reveal_strlit("\n");
    let none = Seq::<char>::empty();
    if list.len() == 0 {
        assert(prot::terminated(list) =~= none);
        assert(split_lines(none) =~= list.push(none));
    } else {
        let fewer = list.drop_last();
        let last = list[list.len() - 1];
        assert forall|k: int| 0 <= k < fewer.len() implies round_trip::free_of(
            #[trigger] fewer[k],
            '\n',
        ) by {
            assert(fewer[k] == list[k]);
        }
        lemma_split_terminated(fewer);
        let before = prot::terminated(fewer);
        let whole = prot::terminated(list);
        assert(whole =~= (before + last) + seq!['\n'] + none);
        lemma_split_at(before + last, none);
        lemma_split_one(none);
        lemma_split_longer(before, last);
        let earlier = split_lines(before);
        assert(earlier.drop_last() =~= fewer);
        assert(earlier.last() == none);
        assert(none + last =~= last);
        assert(fewer.push(last) =~= list);
        assert(split_lines(whole) =~= list.push(none));
    }
}

/// A text without newlines lengthens the last piece.
proof fn lemma_split_longer(a: Seq<char>, line: Seq<char>)
    requires
        round_trip::free_of(line, '\n'),
    ensures
        split_lines(a + line) == split_lines(a).drop_last().push(split_lines(a).last() + line),
    decreases line.len(),
{
    lemma_split_some(a);
    let pieces = split_lines(a);
    if line.len() == 0 {
        assert(a + line =~= a);
        assert(pieces.last() + line =~= pieces.last());
        assert(pieces.drop_last().push(pieces.last()) =~= pieces);
    } else {
        let fewer = line.drop_last();
        assert(round_trip::free_of(fewer, '\n'));
        lemma_split_longer(a, fewer);
        assert((a + line).drop_last() =~= a + fewer);
        assert((a + line).last() == line.last());
        assert(line[line.len() - 1] != '\n');
        let before = split_lines(a + fewer);
        assert(before.last() == pieces.last() + fewer);
        assert(before.drop_last() =~= pieces.drop_last());
        assert((pieces.last() + fewer).push(line.last()) =~= pieces.last() + line);
    }
}

/// What is written are these lines: a note, the vault, one line for each
/// document, a blank one, the sentinel, and one line for each pattern, in order;
/// and a newline ends the last.
pub proof fn what_is_written_line_by_line(data: prot::ProtView, k: int)
    requires
        round_trip::storable(data),
    ensures
        ({
            let lines = split_lines(prot::serialized(data));
            let n = data.documents.len() as int;
            let m = data.patterns.len() as int;
            &&& lines.len() == n + m + 5
            &&& lines[0] == "# dotprot — managed below, do not edit"@
            &&& data.vault matches Some(id) ==> lines[1] == "vault: "@ + id
            &&& data.vault is None ==> lines[1] == "vault: "@
            &&& 0 <= k < n ==> lines[2 + k] == "doc "@ + data.documents[k].0 + ": "@
                + data.documents[k].1
            &&& lines[2 + n].len() == 0
            &&& lines[3 + n] == "# ---- your files (edit below) ----"@
            &&& 0 <= k < m ==> lines[4 + n + k] == data.patterns[k]
            &&& lines[4 + n + m].len() == 0
        }),
{
    let head = prot::header_lines(data);
    let all = head + seq![prot::SENTINEL@] + data.patterns;
    reveal_strlit("# ---- your files (edit below) ----");
    round_trip::lemma_header_fits(data);
    assert forall|i: int| 0 <= i < all.len() implies round_trip::free_of(
        #[trigger] all[i],
        '\n',
    ) by {
        if i < head.len() {
            assert(all[i] == head[i]);
        } else if i == head.len() {
            assert(all[i] == prot::SENTINEL@);
        } else {
            assert(all[i] == data.patterns[i - head.len() - 1]);
            assert(round_trip::storable_pattern(data.patterns[i - head.len() - 1]));
        }
    }
    lemma_split_terminated(all);
}

} // verus!
