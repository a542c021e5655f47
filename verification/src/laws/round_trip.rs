//! What a `.prot` file gives back of what was written into it.

use crate::prot;
use crate::text;
use vstd::prelude::*;

verus! {

/// Whether the character `c` does not stand in `s`.
pub open spec fn free_of(s: Seq<char>, c: char) -> bool {
    forall|k: int| 0 <= k < s.len() ==> s[k] != c
}

/// A text that survives as one value on a line: not blank, no white space at
/// its ends, no newline.
pub open spec fn fits_a_line(s: Seq<char>) -> bool {
    s.len() > 0 && text::trimmed(s) == s && free_of(s, '\n')
}

/// A vault ID that the header gives back.
pub open spec fn storable_vault(id: Seq<char>) -> bool {
    fits_a_line(id) && !text::has(id, prot::SENTINEL@)
}

/// A recorded document that the header gives back. Its path may hold colons,
/// its ID may not.
pub open spec fn storable_entry(entry: (Seq<char>, Seq<char>)) -> bool {
    &&& fits_a_line(entry.0)
    &&& !text::has(entry.0, prot::SENTINEL@)
    &&& fits_a_line(entry.1)
    &&& !text::has(entry.1, prot::SENTINEL@)
    &&& free_of(entry.1, ':')
}

/// A pattern that the list below the sentinel gives back.
pub open spec fn storable_pattern(pattern: Seq<char>) -> bool {
    fits_a_line(pattern) && pattern[0] != '#'
}

/// Contents that a `.prot` file gives back unchanged.
pub open spec fn storable(data: prot::ProtView) -> bool {
    &&& data.vault matches Some(id) ==> storable_vault(id)
    &&& forall|i: int| 0 <= i < data.documents.len() ==> #[trigger] storable_entry(data.documents[i])
    &&& forall|i: int| 0 <= i < data.patterns.len() ==> #[trigger] storable_pattern(data.patterns[i])
}

// ---------------------------------------------------------------------------
// trimming
// ---------------------------------------------------------------------------
/// `trim_start` drops a prefix and stops at a character that is not white
/// space.
proof fn lemma_trim_start(s: Seq<char>) -> (n: int)
    ensures
        0 <= n <= s.len(),
        text::trim_start(s) == s.skip(n),
        n < s.len() ==> !text::is_white_space(s[n]),
    decreases s.len(),
{
    if s.len() > 0 && text::is_white_space(s[0]) {
        let n = lemma_trim_start(s.skip(1));
        assert(s.skip(1).skip(n) =~= s.skip(n + 1));
        n + 1
    } else {
        assert(s.skip(0) =~= s);
        0
    }
}

/// `trim_end` drops a suffix and stops at a character that is not white space.
proof fn lemma_trim_end(s: Seq<char>) -> (n: int)
    ensures
        0 <= n <= s.len(),
        text::trim_end(s) == s.take(n),
        n > 0 ==> !text::is_white_space(s[n - 1]),
    decreases s.len(),
{
    if s.len() > 0 && text::is_white_space(s.last()) {
        let n = lemma_trim_end(s.drop_last());
        assert(s.drop_last().take(n) =~= s.take(n));
        n
    } else {
        assert(s.take(s.len() as int) =~= s);
        s.len() as int
    }
}

/// Trimming gives a part of the text whose ends are not white space.
proof fn lemma_trimmed(s: Seq<char>) -> (cut: (int, int))
    ensures
        0 <= cut.0 <= cut.1 <= s.len(),
        text::trimmed(s) == s.subrange(cut.0, cut.1),
        text::trimmed(s).len() > 0 ==> !text::is_white_space(text::trimmed(s)[0])
            && !text::is_white_space(text::trimmed(s).last()),
{
    let n = lemma_trim_start(s);
    let t = s.skip(n);
    let m = lemma_trim_end(t);
    assert(t.take(m) =~= s.subrange(n, n + m));
    (n, n + m)
}

/// A text whose ends are not white space is left as it is.
proof fn lemma_trimmed_fixed(s: Seq<char>)
    requires
        s.len() > 0 ==> !text::is_white_space(s[0]) && !text::is_white_space(s.last()),
    ensures
        text::trimmed(s) == s,
{
}

/// Trimming twice is trimming once.
proof fn lemma_trimmed_twice(s: Seq<char>)
    ensures
        text::trimmed(text::trimmed(s)) == text::trimmed(s),
{
    let cut = lemma_trimmed(s);
    lemma_trimmed_fixed(text::trimmed(s));
}

/// The ends of a text that trimming leaves as it is are not white space.
proof fn lemma_fixed_ends(s: Seq<char>)
    requires
        s.len() > 0,
        text::trimmed(s) == s,
    ensures
        !text::is_white_space(s[0]),
        !text::is_white_space(s.last()),
{
    let cut = lemma_trimmed(s);
}

/// One space before a trimmed text is trimmed away.
proof fn lemma_trim_space(s: Seq<char>)
    requires
        s.len() > 0,
        text::trimmed(s) == s,
    ensures
        text::trimmed(seq![' '] + s) == s,
{
    lemma_fixed_ends(s);
    assert((seq![' '] + s).skip(1) =~= s);
    assert(text::trim_start(seq![' '] + s) == text::trim_start(s));
}

// ---------------------------------------------------------------------------
// parts
// ---------------------------------------------------------------------------
/// What stands in a part stands in the whole.
proof fn lemma_has_part(s: Seq<char>, i: int, j: int, pattern: Seq<char>)
    requires
        0 <= i <= j <= s.len(),
        text::has(s.subrange(i, j), pattern),
    ensures
        text::has(s, pattern),
{
    let part = s.subrange(i, j);
    let k = choose|k: int| text::occurs_at(part, pattern, k);
    assert(part.subrange(k, k + pattern.len()) =~= s.subrange(i + k, i + k + pattern.len()));
    assert(text::occurs_at(s, pattern, i + k));
}

/// A trimmed part keeps what the text is free of, and holds no pattern that
/// the text does not hold.
proof fn lemma_trimmed_part(s: Seq<char>, c: char, pattern: Seq<char>)
    ensures
        free_of(s, c) ==> free_of(text::trimmed(s), c),
        text::has(text::trimmed(s), pattern) ==> text::has(s, pattern),
        text::trimmed(text::trimmed(s)) == text::trimmed(s),
{
    let cut = lemma_trimmed(s);
    lemma_trimmed_twice(s);
    if text::has(text::trimmed(s), pattern) {
        lemma_has_part(s, cut.0, cut.1, pattern);
    }
}

/// A content line: it fits a line, is no comment, and holds no pattern that
/// the text it comes from does not hold.
spec fn is_content_of(line: Seq<char>, s: Seq<char>, pattern: Seq<char>) -> bool {
    &&& fits_a_line(line)
    &&& line[0] != '#'
    &&& text::has(line, pattern) ==> text::has(s, pattern)
}

/// Every content line of a text is one in the above sense.
proof fn lemma_content(s: Seq<char>, pattern: Seq<char>)
    ensures
        forall|k: int|
            0 <= k < text::content_lines(s).len() ==> is_content_of(
                #[trigger] text::content_lines(s)[k],
                s,
                pattern,
            ),
    decreases s.len(),
{
    let all = text::content_lines(s);
    text::lemma_first_index(s, '\n');
    match text::first_index(s, '\n') {
        None => {
            text::lemma_content_one_line(s);
            lemma_trimmed_part(s, '\n', pattern);
        },
        Some(i) => {
            let line = s.take(i);
            let rest = s.skip(i + 1);
            text::lemma_content_first_line(s, i);
            lemma_trimmed_part(line, '\n', pattern);
            lemma_content(rest, pattern);
            let tail = text::content_lines(rest);
            let front = text::kept_line(line);
            assert forall|k: int| 0 <= k < all.len() implies is_content_of(
                #[trigger] all[k],
                s,
                pattern,
            ) by {
                if k < front.len() {
                    assert(all[k] == text::trimmed(line));
                    if text::has(all[k], pattern) {
                        assert(line =~= s.subrange(0, i));
                        lemma_has_part(s, 0, i, pattern);
                    }
                } else {
                    assert(all[k] == tail[k - front.len()]);
                    assert(is_content_of(tail[k - front.len()], rest, pattern));
                    if text::has(all[k], pattern) {
                        assert(rest =~= s.subrange(i + 1, s.len() as int));
                        lemma_has_part(s, i + 1, s.len() as int, pattern);
                    }
                }
            }
        },
    }
}

/// The header of a text does not hold the sentinel.
proof fn lemma_header_without_sentinel(t: Seq<char>)
    ensures
        !text::has(prot::header_of(t), prot::SENTINEL@),
{
    reveal_strlit("# ---- your files (edit below) ----");
    text::lemma_find_from(t, prot::SENTINEL@, 0);
    let header = prot::header_of(t);
    if text::has(header, prot::SENTINEL@) {
        let k = choose|k: int| text::occurs_at(header, prot::SENTINEL@, k);
        let n = prot::SENTINEL@.len();
        assert(header.subrange(k, k + n) =~= t.subrange(k, k + n));
        assert(text::occurs_at(t, prot::SENTINEL@, k));
        assert(false);
    }
}

/// The vault that header lines name can be stored.
proof fn lemma_vault_storable(lines: Seq<Seq<char>>, s: Seq<char>)
    requires
        !text::has(s, prot::SENTINEL@),
        forall|k: int|
            0 <= k < lines.len() ==> is_content_of(#[trigger] lines[k], s, prot::SENTINEL@),
    ensures
        prot::vault_in(lines) matches Some(id) ==> storable_vault(id),
    decreases lines.len(),
{
    if lines.len() > 0 {
        let line = lines.last();
        assert(is_content_of(lines[lines.len() - 1], s, prot::SENTINEL@));
        if text::begins_with(line, "vault:"@) {
            let n = "vault:"@.len() as int;
            let rest = line.skip(n);
            assert(rest =~= line.subrange(n, line.len() as int));
            lemma_trimmed_part(rest, '\n', prot::SENTINEL@);
            if text::has(rest, prot::SENTINEL@) {
                lemma_has_part(line, n, line.len() as int, prot::SENTINEL@);
            }
        } else {
            lemma_vault_storable(lines.drop_last(), s);
        }
    }
}

/// The document that a header line records can be stored.
proof fn lemma_document_storable(line: Seq<char>, s: Seq<char>)
    requires
        !text::has(s, prot::SENTINEL@),
        is_content_of(line, s, prot::SENTINEL@),
    ensures
        forall|k: int|
            0 <= k < prot::document_in(line).len() ==> storable_entry(
                #[trigger] prot::document_in(line)[k],
            ),
{
    let n = "doc "@.len() as int;
    let rest = line.skip(n);
    if text::begins_with(line, "doc "@) {
        text::lemma_last_index(rest, ':');
        match text::last_index(rest, ':') {
            None => {},
            Some(colon) => {
                let left = rest.take(colon);
                let right = rest.skip(colon + 1);
                assert(left =~= line.subrange(n, n + colon));
                assert(right =~= line.subrange(n + colon + 1, line.len() as int));
                lemma_trimmed_part(left, '\n', prot::SENTINEL@);
                lemma_trimmed_part(right, '\n', prot::SENTINEL@);
                lemma_trimmed_part(right, ':', prot::SENTINEL@);
                if text::has(left, prot::SENTINEL@) {
                    lemma_has_part(line, n, n + colon, prot::SENTINEL@);
                }
                if text::has(right, prot::SENTINEL@) {
                    lemma_has_part(line, n + colon + 1, line.len() as int, prot::SENTINEL@);
                }
                assert(free_of(right, ':')) by {
                    assert forall|k: int| 0 <= k < right.len() implies right[k] != ':' by {
                        assert(right[k] == rest[colon + 1 + k]);
                    }
                }
            },
        }
    }
}

/// The documents that header lines record can be stored.
proof fn lemma_documents_storable(lines: Seq<Seq<char>>, s: Seq<char>)
    requires
        !text::has(s, prot::SENTINEL@),
        forall|k: int|
            0 <= k < lines.len() ==> is_content_of(#[trigger] lines[k], s, prot::SENTINEL@),
    ensures
        forall|k: int|
            0 <= k < prot::documents_in(lines).len() ==> storable_entry(
                #[trigger] prot::documents_in(lines)[k],
            ),
    decreases lines.len(),
{
    if lines.len() > 0 {
        let front = prot::documents_in(lines.drop_last());
        let back = prot::document_in(lines.last());
        assert(is_content_of(lines[lines.len() - 1], s, prot::SENTINEL@));
        lemma_documents_storable(lines.drop_last(), s);
        lemma_document_storable(lines.last(), s);
        let all = prot::documents_in(lines);
        assert forall|k: int| 0 <= k < all.len() implies storable_entry(#[trigger] all[k]) by {
            if k < front.len() {
                assert(all[k] == front[k]);
            } else {
                assert(all[k] == back[k - front.len()]);
            }
        }
    }
}

/// Whatever a text holds, what is read from it can be stored.
pub proof fn parsing_gives_storable_contents(t: Seq<char>)
    ensures
        storable(prot::parsed(t)),
{
    let header = prot::header_of(t);
    let body = prot::body_of(t);
    lemma_header_without_sentinel(t);
    lemma_content(header, prot::SENTINEL@);
    lemma_content(body, prot::SENTINEL@);
    lemma_vault_storable(text::content_lines(header), header);
    lemma_documents_storable(text::content_lines(header), header);
    assert forall|k: int| 0 <= k < prot::parsed(t).patterns.len() implies storable_pattern(
        #[trigger] prot::parsed(t).patterns[k],
    ) by {
        assert(is_content_of(text::content_lines(body)[k], body, prot::SENTINEL@));
    }
}

// ---------------------------------------------------------------------------
// reading back what was written
// ---------------------------------------------------------------------------
/// Ending the lines of two lists, one after the other.
proof fn lemma_terminated_concat(a: Seq<Seq<char>>, b: Seq<Seq<char>>)
    ensures
        prot::terminated(a + b) == prot::terminated(a) + prot::terminated(b),
    decreases b.len(),
{
    if b.len() == 0 {
        assert(a + b =~= a);
        assert(prot::terminated(a) + Seq::<char>::empty() =~= prot::terminated(a));
    } else {
        lemma_terminated_concat(a, b.drop_last());
        assert((a + b).drop_last() =~= a + b.drop_last());
        assert(prot::terminated(a + b) =~= prot::terminated(a) + prot::terminated(b));
    }
}

/// Ending a first line and then the rest.
proof fn lemma_terminated_first(list: Seq<Seq<char>>)
    requires
        list.len() > 0,
    ensures
        prot::terminated(list) == list[0] + seq!['\n'] + prot::terminated(list.skip(1)),
{
    reveal_strlit("\n");
    assert("\n"@ =~= seq!['\n']);
    let first = seq![list[0]];
    lemma_terminated_concat(first, list.skip(1));
    assert(first + list.skip(1) =~= list);
    assert(first.drop_last() =~= seq![]);
    assert(prot::terminated(first.drop_last()) =~= Seq::<char>::empty());
    assert(prot::terminated(first) =~= list[0] + seq!['\n']);
}

/// The content of two lists of lines, one after the other.
proof fn lemma_kept_concat(a: Seq<Seq<char>>, b: Seq<Seq<char>>)
    ensures
        text::kept_lines(a + b) == text::kept_lines(a) + text::kept_lines(b),
    decreases a.len(),
{
    if a.len() == 0 {
        assert(a + b =~= b);
        assert(text::kept_lines(a) + text::kept_lines(b) =~= text::kept_lines(b));
    } else {
        lemma_kept_concat(a.skip(1), b);
        assert((a + b).skip(1) =~= a.skip(1) + b);
        assert(text::kept_lines(a + b) =~= text::kept_lines(a) + text::kept_lines(b));
    }
}

/// The content of a list of one line.
proof fn lemma_kept_one(line: Seq<char>)
    ensures
        text::kept_lines(seq![line]) == text::kept_line(line),
{
    let list = seq![line];
    assert(list.skip(1) =~= seq![]);
    assert(text::kept_lines(list.skip(1)) =~= Seq::<Seq<char>>::empty());
    assert(text::kept_lines(list) =~= text::kept_line(line));
}

/// Lines that are content already are kept as they are.
proof fn lemma_kept_clean(list: Seq<Seq<char>>)
    requires
        forall|k: int| 0 <= k < list.len() ==> #[trigger] storable_pattern(list[k]),
    ensures
        text::kept_lines(list) == list,
    decreases list.len(),
{
    if list.len() > 0 {
        assert(storable_pattern(list[0]));
        assert forall|k: int| 0 <= k < list.skip(1).len() implies #[trigger] storable_pattern(
            list.skip(1)[k],
        ) by {
            assert(storable_pattern(list[k + 1]));
        }
        lemma_kept_clean(list.skip(1));
        assert(seq![list[0]] + list.skip(1) =~= list);
    }
}

/// The content of ended lines is the content of the lines.
proof fn lemma_content_of_terminated(list: Seq<Seq<char>>)
    requires
        forall|k: int| 0 <= k < list.len() ==> free_of(#[trigger] list[k], '\n'),
    ensures
        text::content_lines(prot::terminated(list)) == text::kept_lines(list),
    decreases list.len(),
{
    let t = prot::terminated(list);
    if list.len() == 0 {
        text::lemma_content_one_line(t);
        assert(text::trimmed(t) =~= t);
    } else {
        let line = list[0];
        lemma_terminated_first(list);
        assert forall|k: int| 0 <= k < list.skip(1).len() implies free_of(
            #[trigger] list.skip(1)[k],
            '\n',
        ) by {
            assert(free_of(list[k + 1], '\n'));
        }
        lemma_content_of_terminated(list.skip(1));
        assert(free_of(line, '\n'));
        text::lemma_first_index_is(t, '\n', line.len() as int);
        text::lemma_content_first_line(t, line.len() as int);
        assert(t.take(line.len() as int) =~= line);
        assert(t.skip(line.len() as int + 1) =~= prot::terminated(list.skip(1)));
    }
}

/// The sentinel does not stand where one of the lines before it begins or
/// goes on.
proof fn lemma_no_early_sentinel(list: Seq<Seq<char>>, after: Seq<char>, k: int)
    requires
        forall|j: int|
            0 <= j < list.len() ==> !text::has(#[trigger] list[j], prot::SENTINEL@),
        0 <= k < prot::terminated(list).len(),
    ensures
        !text::occurs_at(prot::terminated(list) + after, prot::SENTINEL@, k),
    decreases list.len(),
{
    reveal_strlit("# ---- your files (edit below) ----");
    let n = prot::SENTINEL@.len() as int;
    let whole = prot::terminated(list) + after;
    if list.len() > 0 {
        let line = list[0];
        let rest = list.skip(1);
        lemma_terminated_first(list);
        assert(!text::has(line, prot::SENTINEL@));
        let m = line.len() as int;
        if text::occurs_at(whole, prot::SENTINEL@, k) {
            let part = whole.subrange(k, k + n);
            if k + n <= m {
                assert(line.subrange(k, k + n) =~= part);
                assert(text::occurs_at(line, prot::SENTINEL@, k));
            } else if k <= m {
                assert(part[m - k] == whole[m]);
                assert(whole[m] == '\n');
                assert(prot::SENTINEL@[m - k] == '\n');
            } else {
                assert forall|j: int| 0 <= j < rest.len() implies !text::has(
                    #[trigger] rest[j],
                    prot::SENTINEL@,
                ) by {
                    assert(!text::has(list[j + 1], prot::SENTINEL@));
                }
                lemma_no_early_sentinel(rest, after, k - m - 1);
                let tail = prot::terminated(rest) + after;
                assert(tail.subrange(k - m - 1, k - m - 1 + n) =~= part);
                assert(text::occurs_at(tail, prot::SENTINEL@, k - m - 1));
            }
            assert(false);
        }
    }
}

/// A text put between others holds the sentinel only where one of its parts
/// does, given that what stands between them is no part of the sentinel.
proof fn lemma_no_sentinel_across(a: Seq<char>, c: char, b: Seq<char>)
    requires
        !text::has(a, prot::SENTINEL@),
        !text::has(b, prot::SENTINEL@),
        free_of(prot::SENTINEL@, c),
    ensures
        !text::has(a + seq![c] + b, prot::SENTINEL@),
{
    let whole = a + seq![c] + b;
    let n = prot::SENTINEL@.len() as int;
    if text::has(whole, prot::SENTINEL@) {
        let k = choose|k: int| text::occurs_at(whole, prot::SENTINEL@, k);
        let m = a.len() as int;
        let part = whole.subrange(k, k + n);
        if k + n <= m {
            assert(a.subrange(k, k + n) =~= part);
            assert(text::occurs_at(a, prot::SENTINEL@, k));
        } else if k > m {
            assert(b.subrange(k - m - 1, k - m - 1 + n) =~= part);
            assert(text::occurs_at(b, prot::SENTINEL@, k - m - 1));
        } else {
            assert(part[m - k] == c);
        }
        assert(false);
    }
}

/// A text that is shorter than the sentinel does not hold it.
proof fn lemma_too_short(s: Seq<char>)
    requires
        s.len() < prot::SENTINEL@.len(),
    ensures
        !text::has(s, prot::SENTINEL@),
{
}

/// A text before which other characters than `#` were put holds the sentinel
/// only where it held it before.
proof fn lemma_no_sentinel_prefixed(a: Seq<char>, b: Seq<char>)
    requires
        free_of(a, '#'),
        !text::has(b, prot::SENTINEL@),
    ensures
        !text::has(a + b, prot::SENTINEL@),
{
    reveal_strlit("# ---- your files (edit below) ----");
    let whole = a + b;
    let n = prot::SENTINEL@.len() as int;
    if text::has(whole, prot::SENTINEL@) {
        let k = choose|k: int| text::occurs_at(whole, prot::SENTINEL@, k);
        let m = a.len() as int;
        let part = whole.subrange(k, k + n);
        assert(part[0] == '#');
        if k < m {
            assert(a[k] == '#');
        } else {
            assert(b.subrange(k - m, k - m + n) =~= part);
            assert(text::occurs_at(b, prot::SENTINEL@, k - m));
        }
        assert(false);
    }
}

/// The header line of a recorded document says what was recorded.
proof fn lemma_document_line(entry: (Seq<char>, Seq<char>))
    requires
        storable_entry(entry),
    ensures
        storable_pattern(prot::document_line(entry)),
        !text::has(prot::document_line(entry), prot::SENTINEL@),
        !text::begins_with(prot::document_line(entry), "vault:"@),
        prot::document_in(prot::document_line(entry)) == seq![entry],
{
    reveal_strlit("doc ");
    reveal_strlit(": ");
    reveal_strlit("vault:");
    reveal_strlit("# ---- your files (edit below) ----");
    let (path, id) = entry;
    let line = prot::document_line(entry);
    let n = path.len() as int;
    lemma_fixed_ends(path);
    lemma_fixed_ends(id);
    // the line fits on a line
    assert(line[0] == 'd');
    assert(line.last() == id.last());
    lemma_trimmed_fixed(line);
    assert forall|k: int| 0 <= k < line.len() implies line[k] != '\n' by {
        if 4 <= k < 4 + n {
            assert(line[k] == path[k - 4]);
        } else if 6 + n <= k {
            assert(line[k] == id[k - 6 - n]);
        }
    }
    // it does not hold the sentinel
    assert(line =~= "doc "@ + (path + seq![':'] + (seq![' '] + id)));
    assert(free_of(seq![' '], '#'));
    lemma_no_sentinel_prefixed(seq![' '], id);
    assert(free_of(prot::SENTINEL@, ':'));
    lemma_no_sentinel_across(path, ':', seq![' '] + id);
    assert(free_of("doc "@, '#'));
    lemma_no_sentinel_prefixed("doc "@, path + seq![':'] + (seq![' '] + id));
    // it is a document line
    if text::begins_with(line, "vault:"@) {
        assert(line.subrange(0, 6)[0] == line[0]);
        assert(false);
    }
    assert(line.subrange(0, 4) =~= "doc "@);
    assert(text::begins_with(line, "doc "@));
    let rest = line.skip(4);
    assert(rest =~= path + seq![':'] + (seq![' '] + id));
    text::lemma_last_index(rest, ':');
    assert(rest[n] == ':');
    match text::last_index(rest, ':') {
        None => {},
        Some(colon) => {
            if colon > n + 1 {
                assert(rest[colon] == id[colon - n - 2]);
                assert(false);
            }
            assert(colon == n);
        },
    }
    assert(rest.take(n) =~= path);
    assert(rest.skip(n + 1) =~= seq![' '] + id);
    lemma_trim_space(id);
    assert(prot::document_in(line) =~= seq![entry]);
}

/// The header line of the vault says which vault it is.
proof fn lemma_vault_line(vault: Option<Seq<char>>)
    requires
        vault matches Some(id) ==> storable_vault(id),
    ensures
        free_of(prot::vault_line(vault), '\n'),
        !text::has(prot::vault_line(vault), prot::SENTINEL@),
        text::kept_line(prot::vault_line(vault)).len() == 1,
        text::begins_with(text::kept_line(prot::vault_line(vault))[0], "vault:"@),
        prot::vault_in(text::kept_line(prot::vault_line(vault))) == vault,
        prot::documents_in(text::kept_line(prot::vault_line(vault))) == Seq::<
            (Seq<char>, Seq<char>),
        >::empty(),
{
    reveal_strlit("vault: ");
    reveal_strlit("vault:");
    reveal_strlit("doc ");
    reveal_strlit("# ---- your files (edit below) ----");
    let line = prot::vault_line(vault);
    let kept = text::trimmed(line);
    match vault {
        Some(id) => {
            lemma_fixed_ends(id);
            assert(line[0] == 'v');
            assert(line.last() == id.last());
            lemma_trimmed_fixed(line);
            assert forall|k: int| 0 <= k < line.len() implies line[k] != '\n' by {
                if 7 <= k {
                    assert(line[k] == id[k - 7]);
                }
            }
            assert(free_of("vault: "@, '#'));
            lemma_no_sentinel_prefixed("vault: "@, id);
            assert(line.skip(6) =~= seq![' '] + id);
            lemma_trim_space(id);
        },
        None => {
            lemma_too_short(line);
            assert(text::trim_start(line) == line);
            assert(line.drop_last() =~= "vault:"@);
            assert(text::trim_end(line) == text::trim_end("vault:"@));
            assert(text::trim_end("vault:"@) == "vault:"@);
            assert(kept.skip(6) =~= Seq::<char>::empty());
            assert(text::trimmed(Seq::<char>::empty()) =~= Seq::<char>::empty());
        },
    }
    assert(kept.subrange(0, 6) =~= "vault:"@);
    assert(text::begins_with(kept, "vault:"@));
    assert(kept[0] == 'v');
    let kept_line = text::kept_line(line);
    assert(kept_line =~= seq![kept]);
    assert(kept_line.drop_last() =~= seq![]);
    if text::begins_with(kept, "doc "@) {
        assert(kept.subrange(0, 4)[0] == kept[0]);
        assert(false);
    }
    assert(prot::documents_in(kept_line.drop_last()) =~= Seq::empty());
    assert(prot::documents_in(kept_line) =~= Seq::empty());
}

/// The document lines after a `vault:` line change nothing of the vault and
/// give back the documents.
proof fn lemma_header_content(first: Seq<Seq<char>>, documents: Seq<(Seq<char>, Seq<char>)>)
    requires
        forall|i: int| 0 <= i < documents.len() ==> #[trigger] storable_entry(documents[i]),
    ensures
        ({
            let lines = first + documents.map_values(
                |entry: (Seq<char>, Seq<char>)| prot::document_line(entry),
            );
            &&& prot::vault_in(lines) == prot::vault_in(first)
            &&& prot::documents_in(lines) == prot::documents_in(first) + documents
        }),
    decreases documents.len(),
{
    let as_line = |entry: (Seq<char>, Seq<char>)| prot::document_line(entry);
    let lines = first + documents.map_values(as_line);
    if documents.len() == 0 {
        assert(lines =~= first);
        assert(prot::documents_in(first) + documents =~= prot::documents_in(first));
    } else {
        let fewer = documents.drop_last();
        assert forall|i: int| 0 <= i < fewer.len() implies #[trigger] storable_entry(fewer[i]) by {
            assert(storable_entry(documents[i]));
        }
        lemma_header_content(first, fewer);
        assert(lines.drop_last() =~= first + fewer.map_values(as_line));
        assert(storable_entry(documents[documents.len() - 1]));
        lemma_document_line(documents.last());
        assert(lines.last() == prot::document_line(documents.last()));
        assert(prot::documents_in(lines) =~= prot::documents_in(first) + documents);
    }
}

/// The note at the head of a `.prot` file is a comment on one line, and not
/// the sentinel.
proof fn lemma_note()
    ensures
        free_of(prot::HEADER_NOTE@, '\n'),
        text::kept_line(prot::HEADER_NOTE@) == Seq::<Seq<char>>::empty(),
        !text::has(prot::HEADER_NOTE@, prot::SENTINEL@),
{
    reveal_strlit("# ---- your files (edit below) ----");
    reveal_strlit("# dotprot — managed below, do not edit");
    let note = prot::HEADER_NOTE@;
    lemma_trimmed_fixed(note);
    if text::has(note, prot::SENTINEL@) {
        let k = choose|k: int| text::occurs_at(note, prot::SENTINEL@, k);
        let part = note.subrange(k, k + prot::SENTINEL@.len());
        assert(part[2] == '-');
        assert(note[k + 2] == '-');
        assert(false);
    }
}

/// A blank line carries no content.
proof fn lemma_blank()
    ensures
        text::kept_line(Seq::<char>::empty()) == Seq::<Seq<char>>::empty(),
        !text::has(Seq::<char>::empty(), prot::SENTINEL@),
{
    reveal_strlit("# ---- your files (edit below) ----");
    assert(text::trimmed(Seq::<char>::empty()) =~= Seq::<char>::empty());
    lemma_too_short(Seq::<char>::empty());
}

/// The lines of the header fit on lines, do not hold the sentinel, and say
/// which vault and documents there are.
proof fn lemma_header_lines(data: prot::ProtView)
    requires
        storable(data),
    ensures
        forall|j: int|
            0 <= j < prot::header_lines(data).len() ==> free_of(
                #[trigger] prot::header_lines(data)[j],
                '\n',
            ),
        forall|j: int|
            0 <= j < prot::header_lines(data).len() ==> !text::has(
                #[trigger] prot::header_lines(data)[j],
                prot::SENTINEL@,
            ),
        prot::vault_in(text::kept_lines(prot::header_lines(data))) == data.vault,
        prot::documents_in(text::kept_lines(prot::header_lines(data))) == data.documents,
{
    let as_line = |entry: (Seq<char>, Seq<char>)| prot::document_line(entry);
    let note = prot::HEADER_NOTE@;
    let vault_line = prot::vault_line(data.vault);
    let document_lines = data.documents.map_values(as_line);
    let blank = Seq::<char>::empty();
    let head = prot::header_lines(data);
    lemma_note();
    lemma_blank();
    lemma_vault_line(data.vault);
    assert forall|j: int| 0 <= j < head.len() implies !text::has(
        #[trigger] head[j],
        prot::SENTINEL@,
    ) && free_of(head[j], '\n') by {
        if 2 <= j < 2 + document_lines.len() {
            assert(storable_entry(data.documents[j - 2]));
            lemma_document_line(data.documents[j - 2]);
            assert(head[j] == prot::document_line(data.documents[j - 2]));
        } else if j == 0 {
            assert(head[j] == note);
        } else if j == 1 {
            assert(head[j] == vault_line);
        } else {
            assert(head[j] == blank);
        }
    }
    lemma_kept_concat(seq![note, vault_line] + document_lines, seq![blank]);
    lemma_kept_concat(seq![note, vault_line], document_lines);
    lemma_kept_concat(seq![note], seq![vault_line]);
    assert(seq![note] + seq![vault_line] =~= seq![note, vault_line]);
    lemma_kept_one(note);
    lemma_kept_one(vault_line);
    lemma_kept_one(blank);
    assert forall|k: int| 0 <= k < document_lines.len() implies #[trigger] storable_pattern(
        document_lines[k],
    ) by {
        assert(storable_entry(data.documents[k]));
        lemma_document_line(data.documents[k]);
    }
    lemma_kept_clean(document_lines);
    let first = text::kept_line(vault_line);
    assert(text::kept_lines(head) =~= first + document_lines);
    lemma_header_content(first, data.documents);
    assert(prot::documents_in(first) + data.documents =~= data.documents);
}

/// The lines of the header fit on lines.
pub proof fn lemma_header_fits(data: prot::ProtView)
    requires
        storable(data),
    ensures
        forall|j: int|
            0 <= j < prot::header_lines(data).len() ==> free_of(
                #[trigger] prot::header_lines(data)[j],
                '\n',
            ),
{
    lemma_header_lines(data);
}

/// The lines below the sentinel are the patterns.
proof fn lemma_body(patterns: Seq<Seq<char>>)
    requires
        forall|k: int| 0 <= k < patterns.len() ==> #[trigger] storable_pattern(patterns[k]),
    ensures
        text::content_lines(seq!['\n'] + prot::terminated(patterns)) == patterns,
{
    let body = seq!['\n'] + prot::terminated(patterns);
    lemma_blank();
    text::lemma_first_index_is(body, '\n', 0);
    text::lemma_content_first_line(body, 0);
    assert(body.take(0) =~= Seq::<char>::empty());
    assert(body.skip(1) =~= prot::terminated(patterns));
    assert forall|k: int| 0 <= k < patterns.len() implies free_of(#[trigger] patterns[k], '\n') by {
        assert(storable_pattern(patterns[k]));
    }
    lemma_content_of_terminated(patterns);
    lemma_kept_clean(patterns);
    assert(text::content_lines(body) =~= patterns);
}

/// Where the sentinel first stands in a text that is written, given that no
/// header line holds it.
proof fn lemma_sentinel_at(head: Seq<Seq<char>>, patterns: Seq<Seq<char>>) -> (at: int)
    requires
        forall|j: int|
            0 <= j < head.len() ==> !text::has(#[trigger] head[j], prot::SENTINEL@),
    ensures
        ({
            let t = prot::terminated(head + seq![prot::SENTINEL@] + patterns);
            &&& text::occurs_at(t, prot::SENTINEL@, at)
            &&& forall|k: int| 0 <= k < at ==> !text::occurs_at(t, prot::SENTINEL@, k)
            &&& t.take(at) == prot::terminated(head)
            &&& t.skip(at + prot::SENTINEL@.len()) == seq!['\n'] + prot::terminated(patterns)
        }),
{
    let tail = seq![prot::SENTINEL@] + patterns;
    let after = prot::terminated(tail);
    let body = seq!['\n'] + prot::terminated(patterns);
    let t = prot::terminated(head + seq![prot::SENTINEL@] + patterns);
    let at = prot::terminated(head).len() as int;
    lemma_terminated_concat(head, tail);
    assert(head + seq![prot::SENTINEL@] + patterns =~= head + tail);
    lemma_terminated_first(tail);
    assert(tail.skip(1) =~= patterns);
    assert(after =~= prot::SENTINEL@ + body);
    assert(t =~= prot::terminated(head) + after);
    assert forall|k: int| 0 <= k < at implies !text::occurs_at(t, prot::SENTINEL@, k) by {
        lemma_no_early_sentinel(head, after, k);
    }
    assert(t.subrange(at, at + prot::SENTINEL@.len()) =~= prot::SENTINEL@);
    assert(t.take(at) =~= prot::terminated(head));
    assert(t.skip(at + prot::SENTINEL@.len()) =~= body);
    at
}

/// The sentinel parts a text at the end of the header, given that no header
/// line holds it.
proof fn lemma_split(head: Seq<Seq<char>>, patterns: Seq<Seq<char>>)
    requires
        forall|j: int|
            0 <= j < head.len() ==> !text::has(#[trigger] head[j], prot::SENTINEL@),
    ensures
        ({
            let t = prot::terminated(head + seq![prot::SENTINEL@] + patterns);
            &&& prot::header_of(t) == prot::terminated(head)
            &&& prot::body_of(t) == seq!['\n'] + prot::terminated(patterns)
        }),
{
    let t = prot::terminated(head + seq![prot::SENTINEL@] + patterns);
    let at = lemma_sentinel_at(head, patterns);
    text::lemma_find_from(t, prot::SENTINEL@, 0);
    assert(text::occurs_at(t, prot::SENTINEL@, at));
}

/// Where the sentinel first stands in what is written, and what lies below it.
pub proof fn the_sentinel_parts_what_is_written(data: prot::ProtView) -> (at: int)
    requires
        storable(data),
    ensures
        text::occurs_at(prot::serialized(data), prot::SENTINEL@, at),
        forall|k: int|
            0 <= k < at ==> !text::occurs_at(prot::serialized(data), prot::SENTINEL@, k),
        prot::serialized(data).skip(at + prot::SENTINEL@.len()) == seq!['\n'] + prot::terminated(
            data.patterns,
        ),
{
    lemma_header_lines(data);
    lemma_sentinel_at(prot::header_lines(data), data.patterns)
}

/// What is written into a `.prot` file is what is read from it.
pub proof fn reading_gives_back_what_was_written(data: prot::ProtView)
    requires
        storable(data),
    ensures
        prot::parsed(prot::serialized(data)) == data,
{
    lemma_header_lines(data);
    lemma_split(prot::header_lines(data), data.patterns);
    lemma_content_of_terminated(prot::header_lines(data));
    lemma_body(data.patterns);
}

/// Reading, writing and reading once more gives what the first reading gave.
pub proof fn reading_settles(t: Seq<char>)
    ensures
        prot::parsed(prot::serialized(prot::parsed(t))) == prot::parsed(t),
{
    parsing_gives_storable_contents(t);
    reading_gives_back_what_was_written(prot::parsed(t));
}

/// Contents survive being written and read if and only if they can be stored.
pub proof fn only_storable_contents_survive(data: prot::ProtView)
    ensures
        storable(data) <==> prot::parsed(prot::serialized(data)) == data,
{
    if storable(data) {
        reading_gives_back_what_was_written(data);
    } else {
        parsing_gives_storable_contents(prot::serialized(data));
    }
}

/// The contents that a new `.prot` starts with can be stored.
pub proof fn fresh_contents_are_storable()
    ensures
        storable(prot::fresh()),
{
    reveal_strlit(".env*");
    lemma_trimmed_fixed(".env*"@);
    assert(storable_pattern(prot::fresh().patterns[0]));
}

/// Recording a document keeps contents storable, given that its path and ID
/// are.
pub proof fn recording_keeps_contents_storable(
    data: prot::ProtView,
    file: Seq<char>,
    id: Seq<char>,
)
    requires
        storable(data),
        storable_entry((file, id)),
    ensures
        storable(
            (prot::ProtView {
                documents: prot::with_document(data.documents, file, id),
                ..data
            }),
        ),
{
    prot::lemma_position(data.documents, file);
    let updated = prot::with_document(data.documents, file, id);
    assert forall|i: int| 0 <= i < updated.len() implies #[trigger] storable_entry(updated[i]) by {
        if i < data.documents.len() {
            assert(storable_entry(data.documents[i]));
        }
    }
}

/// What was recorded for a file is what is found for it, and what is found for
/// every other file is what was found before.
pub proof fn recording_is_found_again(
    documents: Seq<(Seq<char>, Seq<char>)>,
    file: Seq<char>,
    id: Seq<char>,
    other: Seq<char>,
)
    ensures
        prot::recorded_id(prot::with_document(documents, file, id), file) == Some(id),
        other != file ==> prot::recorded_id(prot::with_document(documents, file, id), other)
            == prot::recorded_id(documents, other),
{
    let updated = prot::with_document(documents, file, id);
    prot::lemma_position(documents, file);
    prot::lemma_position(updated, file);
    prot::lemma_position(documents, other);
    prot::lemma_position(updated, other);
    match prot::position(documents, file) {
        Some(i) => {
            assert(updated[i] == (file, id));
        },
        None => {
            assert(updated[documents.len() as int] == (file, id));
        },
    }
    if other != file {
        match prot::position(documents, other) {
            Some(j) => {
                assert(updated[j] == documents[j]);
            },
            None => {},
        }
        match prot::position(updated, other) {
            Some(j) => {
                if j < documents.len() {
                    assert(updated[j].0 == documents[j].0);
                }
            },
            None => {},
        }
    }
}

/// Recording again for the same file leaves the last ID, and one entry as
/// before.
pub proof fn recording_twice_keeps_the_last(
    documents: Seq<(Seq<char>, Seq<char>)>,
    file: Seq<char>,
    first: Seq<char>,
    second: Seq<char>,
)
    ensures
        prot::with_document(prot::with_document(documents, file, first), file, second)
            == prot::with_document(documents, file, second),
{
    let once = prot::with_document(documents, file, first);
    prot::lemma_position(documents, file);
    prot::lemma_position(once, file);
    match prot::position(documents, file) {
        Some(i) => {
            assert(once[i].0 == file);
        },
        None => {
            assert(once[documents.len() as int].0 == file);
        },
    }
    assert(prot::with_document(once, file, second) =~= prot::with_document(
        documents,
        file,
        second,
    ));
}

/// Whether no file has two documents.
pub open spec fn distinct_files(documents: Seq<(Seq<char>, Seq<char>)>) -> bool {
    forall|i: int, j: int|
        0 <= i < j < documents.len() ==> (#[trigger] documents[i]).0 != (#[trigger] documents[j]).0
}

/// Recording gives no file a second document.
pub proof fn recording_keeps_one_document_for_a_file(
    documents: Seq<(Seq<char>, Seq<char>)>,
    file: Seq<char>,
    id: Seq<char>,
)
    requires
        distinct_files(documents),
    ensures
        distinct_files(prot::with_document(documents, file, id)),
{
    prot::lemma_position(documents, file);
    let updated = prot::with_document(documents, file, id);
    assert forall|i: int, j: int| 0 <= i < j < updated.len() implies (#[trigger] updated[i]).0 != (
    #[trigger] updated[j]).0 by {
        if j < documents.len() {
            assert(updated[i].0 == documents[i].0);
            assert(updated[j].0 == documents[j].0);
        }
    }
}

} // verus!
