//! Text as a sequence of characters: trimming, searching, splitting, joining.
//!
//! Each executable function is stated over the view of its arguments, so the
//! rest of the crate reasons about `Seq<char>` alone.

use vstd::prelude::*;

verus! {

/// `String::push` appends one character at the end of the text.
pub assume_specification[ String::push ](s: &mut String, ch: char)
    ensures
        final(s)@ == old(s)@.push(ch),
;

/// The characters with the Unicode `White_Space` property.
pub open spec fn is_white_space(c: char) -> bool {
    ||| '\u{9}' <= c && c <= '\u{d}'
    ||| c == ' '
    ||| c == '\u{85}'
    ||| c == '\u{a0}'
    ||| c == '\u{1680}'
    ||| '\u{2000}' <= c && c <= '\u{200a}'
    ||| c == '\u{2028}'
    ||| c == '\u{2029}'
    ||| c == '\u{202f}'
    ||| c == '\u{205f}'
    ||| c == '\u{3000}'
}

/// The characters of the Unicode general category `Cc`.
pub open spec fn is_control_char(c: char) -> bool {
    c <= '\u{1f}' || '\u{7f}' <= c && c <= '\u{9f}'
}

/// Whether `c` is white space.
pub fn white_space(c: char) -> (r: bool)
    ensures
        r == is_white_space(c),
{
    ('\u{9}' <= c && c <= '\u{d}') || c == ' ' || c == '\u{85}' || c == '\u{a0}' || c == '\u{1680}'
        || ('\u{2000}' <= c && c <= '\u{200a}') || c == '\u{2028}' || c == '\u{2029}'
        || c == '\u{202f}' || c == '\u{205f}' || c == '\u{3000}'
}

/// Whether `c` is a control character.
pub fn control_char(c: char) -> (r: bool)
    ensures
        r == is_control_char(c),
{
    c <= '\u{1f}' || ('\u{7f}' <= c && c <= '\u{9f}')
}

/// The views of a sequence of strings.
pub open spec fn texts(list: Seq<String>) -> Seq<Seq<char>> {
    list.map_values(|s: String| s@)
}

/// `s` without its leading white space.
pub open spec fn trim_start(s: Seq<char>) -> Seq<char>
    decreases s.len(),
{
    if s.len() > 0 && is_white_space(s[0]) {
        trim_start(s.skip(1))
    } else {
        s
    }
}

/// `s` without its trailing white space.
pub open spec fn trim_end(s: Seq<char>) -> Seq<char>
    decreases s.len(),
{
    if s.len() > 0 && is_white_space(s.last()) {
        trim_end(s.drop_last())
    } else {
        s
    }
}

/// `s` without the white space at either end.
pub open spec fn trimmed(s: Seq<char>) -> Seq<char> {
    trim_end(trim_start(s))
}

/// The characters of `s`, in order.
pub fn chars_of(s: &str) -> (r: Vec<char>)
    ensures
        r@ == s@,
{
    let mut out: Vec<char> = Vec::new();
    for c in it: s.chars()
        invariant
            out@ == it.seq().take(it.index() as int),
            it.seq() == s@,
    {
        proof {
            assert(it.seq().take(it.index() as int + 1) =~= it.seq().take(it.index() as int).push(c));
        }
        out.push(c);
    }
    assert(s@.take(s@.len() as int) =~= s@);
    out
}

/// The text made of the characters `chars[from..to]`.
pub fn text_of(chars: &Vec<char>, from: usize, to: usize) -> (r: String)
    requires
        from <= to <= chars@.len(),
    ensures
        r@ == chars@.subrange(from as int, to as int),
{
    let mut out = String::new();
    let mut i: usize = from;
    while i < to
        invariant
            from <= i <= to <= chars@.len(),
            out@ == chars@.subrange(from as int, i as int),
        decreases to - i,
    {
        out.push(chars[i]);
        assert(chars@.subrange(from as int, i as int + 1) =~= chars@.subrange(
            from as int,
            i as int,
        ).push(chars@[i as int]));
        i += 1;
    }
    out
}

/// Two texts compared character by character.
pub fn same(a: &str, b: &str) -> (r: bool)
    ensures
        r == (a@ == b@),
{
    a.to_owned() == b.to_owned()
}

/// `s` without the white space at either end.
pub fn trim(s: &str) -> (r: String)
    ensures
        r@ == trimmed(s@),
{
    let chars = chars_of(s);
    let mut from: usize = 0;
    assert(s@.skip(0) =~= s@);
    while from < chars.len() && white_space(chars[from])
        invariant
            from <= chars@.len(),
            chars@ == s@,
            trim_start(s@) == trim_start(s@.skip(from as int)),
        decreases chars@.len() - from,
    {
        assert(s@.skip(from as int).skip(1) =~= s@.skip(from as int + 1));
        from += 1;
    }
    let ghost rest = s@.skip(from as int);
    assert(trim_start(s@) == rest);
    let mut to: usize = chars.len();
    assert(rest =~= chars@.subrange(from as int, to as int));
    while from < to && white_space(chars[to - 1])
        invariant
            from <= to <= chars@.len(),
            trim_end(rest) == trim_end(chars@.subrange(from as int, to as int)),
        decreases to - from,
    {
        assert(chars@.subrange(from as int, to as int).drop_last() =~= chars@.subrange(
            from as int,
            to as int - 1,
        ));
        to -= 1;
    }
    text_of(&chars, from, to)
}

// ---------------------------------------------------------------------------
// searching
// ---------------------------------------------------------------------------
/// Whether `pattern` stands in `s` at index `i`.
pub open spec fn occurs_at(s: Seq<char>, pattern: Seq<char>, i: int) -> bool {
    0 <= i && i + pattern.len() <= s.len() && s.subrange(i, i + pattern.len()) == pattern
}

/// Whether `pattern` stands anywhere in `s`.
pub open spec fn has(s: Seq<char>, pattern: Seq<char>) -> bool {
    exists|i: int| occurs_at(s, pattern, i)
}

/// Whether `s` begins with `prefix`.
pub open spec fn begins_with(s: Seq<char>, prefix: Seq<char>) -> bool {
    occurs_at(s, prefix, 0)
}

/// The first index at or after `i` where `pattern` stands in `s`.
pub open spec fn find_from(s: Seq<char>, pattern: Seq<char>, i: int) -> Option<int>
    decreases s.len() - i + 1,
{
    if i + pattern.len() > s.len() {
        None
    } else if occurs_at(s, pattern, i) {
        Some(i)
    } else {
        find_from(s, pattern, i + 1)
    }
}

/// The first index where `pattern` stands in `s`.
pub open spec fn first_occurrence(s: Seq<char>, pattern: Seq<char>) -> Option<int> {
    find_from(s, pattern, 0)
}

/// The first index of the character `c` in `s`.
pub open spec fn first_index(s: Seq<char>, c: char) -> Option<int>
    decreases s.len(),
{
    if s.len() == 0 {
        None
    } else if s[0] == c {
        Some(0)
    } else {
        match first_index(s.skip(1), c) {
            Some(i) => Some(i + 1),
            None => None,
        }
    }
}

/// The last index of the character `c` in `s`.
pub open spec fn last_index(s: Seq<char>, c: char) -> Option<int>
    decreases s.len(),
{
    if s.len() == 0 {
        None
    } else if s.last() == c {
        Some(s.len() - 1)
    } else {
        last_index(s.drop_last(), c)
    }
}

/// `find_from` gives the least index at or after its start that fits.
pub proof fn lemma_find_from(s: Seq<char>, pattern: Seq<char>, from: int)
    requires
        0 <= from,
    ensures
        match find_from(s, pattern, from) {
            Some(i) => {
                &&& from <= i
                &&& occurs_at(s, pattern, i)
                &&& forall|j: int| from <= j < i ==> !occurs_at(s, pattern, j)
            },
            None => forall|j: int| from <= j ==> !occurs_at(s, pattern, j),
        },
    decreases s.len() - from + 1,
{
    if from + pattern.len() <= s.len() && !occurs_at(s, pattern, from) {
        lemma_find_from(s, pattern, from + 1);
    }
}

/// `first_index` gives the least index of the character.
pub proof fn lemma_first_index(s: Seq<char>, c: char)
    ensures
        match first_index(s, c) {
            Some(i) => {
                &&& 0 <= i < s.len()
                &&& s[i] == c
                &&& forall|j: int| 0 <= j < i ==> s[j] != c
            },
            None => forall|j: int| 0 <= j < s.len() ==> s[j] != c,
        },
    decreases s.len(),
{
    if s.len() > 0 && s[0] != c {
        let rest = s.skip(1);
        lemma_first_index(rest, c);
        assert forall|j: int| 1 <= j < s.len() implies s[j] == rest[j - 1] by {}
        match first_index(rest, c) {
            Some(i) => {
                assert forall|j: int| 0 <= j < i + 1 implies s[j] != c by {
                    if j > 0 {
                        assert(rest[j - 1] != c);
                    }
                }
            },
            None => {
                assert forall|j: int| 0 <= j < s.len() implies s[j] != c by {
                    if j > 0 {
                        assert(rest[j - 1] != c);
                    }
                }
            },
        }
    }
}

/// An index that is the least one of its character is what `first_index` gives.
pub proof fn lemma_first_index_is(s: Seq<char>, c: char, i: int)
    requires
        0 <= i < s.len(),
        s[i] == c,
        forall|j: int| 0 <= j < i ==> s[j] != c,
    ensures
        first_index(s, c) == Some(i),
{
    lemma_first_index(s, c);
}

/// `last_index` gives the greatest index of the character.
pub proof fn lemma_last_index(s: Seq<char>, c: char)
    ensures
        match last_index(s, c) {
            Some(i) => {
                &&& 0 <= i < s.len()
                &&& s[i] == c
                &&& forall|j: int| i < j < s.len() ==> s[j] != c
            },
            None => forall|j: int| 0 <= j < s.len() ==> s[j] != c,
        },
    decreases s.len(),
{
    if s.len() > 0 && s.last() != c {
        let rest = s.drop_last();
        lemma_last_index(rest, c);
        assert forall|j: int| 0 <= j < s.len() - 1 implies s[j] == rest[j] by {}
    }
}

/// Whether `pattern` stands in `chars` at `at`.
fn stands_at(chars: &Vec<char>, pattern: &Vec<char>, at: usize) -> (r: bool)
    ensures
        r == occurs_at(chars@, pattern@, at as int),
{
    if pattern.len() > chars.len() || at > chars.len() - pattern.len() {
        return false;
    }
    let mut k: usize = 0;
    while k < pattern.len()
        invariant
            at + pattern@.len() <= chars.len(),
            k <= pattern@.len(),
            forall|j: int| 0 <= j < k ==> chars@[at + j] == pattern@[j],
        decreases pattern@.len() - k,
    {
        if chars[at + k] != pattern[k] {
            assert(chars@.subrange(at as int, at + pattern@.len())[k as int] != pattern@[k as int]);
            return false;
        }
        k += 1;
    }
    assert(chars@.subrange(at as int, at + pattern@.len()) =~= pattern@);
    true
}

/// The first index where `pattern` stands in `chars`.
pub fn find(chars: &Vec<char>, pattern: &str) -> (r: Option<usize>)
    ensures
        match r {
            Some(i) => first_occurrence(chars@, pattern@) == Some(i as int),
            None => first_occurrence(chars@, pattern@) is None,
        },
{
    let sought = chars_of(pattern);
    if sought.len() > chars.len() {
        return None;
    }
    let last: usize = chars.len() - sought.len();
    let mut i: usize = 0;
    while i <= last
        invariant
            sought@ == pattern@,
            last == chars@.len() - sought@.len(),
            i <= last + 1,
            first_occurrence(chars@, pattern@) == find_from(chars@, pattern@, i as int),
        decreases last + 1 - i,
    {
        if stands_at(chars, &sought, i) {
            return Some(i);
        }
        if i == last {
            assert(find_from(chars@, pattern@, i as int + 1) is None);
            return None;
        }
        i += 1;
    }
    None
}

/// Whether `pattern` stands anywhere in `s`.
pub fn contains(s: &str, pattern: &str) -> (r: bool)
    ensures
        r == has(s@, pattern@),
{
    let chars = chars_of(s);
    proof {
        lemma_find_from(s@, pattern@, 0);
    }
    match find(&chars, pattern) {
        Some(i) => {
            assert(occurs_at(s@, pattern@, i as int));
            true
        },
        None => false,
    }
}

/// What follows `prefix` in `s`, where `s` begins with it.
pub fn strip_prefix(s: &str, prefix: &str) -> (r: Option<String>)
    ensures
        match r {
            Some(rest) => begins_with(s@, prefix@) && rest@ == s@.skip(prefix@.len() as int),
            None => !begins_with(s@, prefix@),
        },
{
    let chars = chars_of(s);
    let sought = chars_of(prefix);
    if stands_at(&chars, &sought, 0) {
        let rest = text_of(&chars, sought.len(), chars.len());
        Some(rest)
    } else {
        None
    }
}

/// The last index of `c` in `chars`.
pub fn rfind(chars: &Vec<char>, c: char) -> (r: Option<usize>)
    ensures
        match r {
            Some(i) => last_index(chars@, c) == Some(i as int),
            None => last_index(chars@, c) is None,
        },
{
    let mut n: usize = chars.len();
    assert(chars@.take(n as int) =~= chars@);
    while n > 0
        invariant
            n <= chars@.len(),
            last_index(chars@, c) == last_index(chars@.take(n as int), c),
        decreases n,
    {
        assert(chars@.take(n as int).last() == chars@[n - 1]);
        assert(chars@.take(n as int).drop_last() =~= chars@.take(n - 1));
        if chars[n - 1] == c {
            return Some(n - 1);
        }
        n -= 1;
    }
    None
}

// ---------------------------------------------------------------------------
// lines
// ---------------------------------------------------------------------------
/// The lines of `s`: what stands between its newlines.
pub open spec fn lines(s: Seq<char>) -> Seq<Seq<char>>
    decreases s.len(),
    via lines_decreases
{
    match first_index(s, '\n') {
        None => seq![s],
        Some(i) => seq![s.take(i)] + lines(s.skip(i + 1)),
    }
}

#[via_fn]
proof fn lines_decreases(s: Seq<char>) {
    lemma_first_index(s, '\n');
}

/// A trimmed line, unless it is blank or a comment.
pub open spec fn kept_line(line: Seq<char>) -> Seq<Seq<char>> {
    let t = trimmed(line);
    if t.len() == 0 || t[0] == '#' {
        seq![]
    } else {
        seq![t]
    }
}

/// The lines of a list that carry content, trimmed.
pub open spec fn kept_lines(list: Seq<Seq<char>>) -> Seq<Seq<char>>
    decreases list.len(),
{
    if list.len() == 0 {
        seq![]
    } else {
        kept_line(list[0]) + kept_lines(list.skip(1))
    }
}

/// The trimmed lines of `s` that are neither blank nor comments.
pub open spec fn content_lines(s: Seq<char>) -> Seq<Seq<char>> {
    kept_lines(lines(s))
}

/// The content of a text is that of its first line followed by that of the rest.
pub proof fn lemma_content_first_line(s: Seq<char>, i: int)
    requires
        first_index(s, '\n') == Some(i),
    ensures
        content_lines(s) == kept_line(s.take(i)) + content_lines(s.skip(i + 1)),
{
    assert(lines(s).skip(1) =~= lines(s.skip(i + 1)));
}

/// The content of a text without a newline is that of its one line.
pub proof fn lemma_content_one_line(s: Seq<char>)
    requires
        first_index(s, '\n') is None,
    ensures
        content_lines(s) == kept_line(s),
{
    assert(lines(s).skip(1) =~= seq![]);
    assert(kept_lines(seq![]) =~= Seq::<Seq<char>>::empty());
    assert(kept_line(s) + Seq::<Seq<char>>::empty() =~= kept_line(s));
}

/// The trimmed lines of `chars[from..to]` that are neither blank nor comments.
pub fn content(chars: &Vec<char>, from: usize, to: usize) -> (r: Vec<String>)
    requires
        from <= to <= chars@.len(),
    ensures
        texts(r@) == content_lines(chars@.subrange(from as int, to as int)),
{
    let ghost whole = chars@.subrange(from as int, to as int);
    let mut out: Vec<String> = Vec::new();
    let mut start: usize = from;
    let mut i: usize = from;
    assert(texts(out@) + content_lines(whole) =~= content_lines(whole));
    while i < to
        invariant
            from <= start <= i <= to <= chars@.len(),
            whole == chars@.subrange(from as int, to as int),
            forall|j: int| start <= j < i ==> chars@[j] != '\n',
            content_lines(whole) == texts(out@) + content_lines(
                chars@.subrange(start as int, to as int),
            ),
        decreases to - i,
    {
        if chars[i] == '\n' {
            let ghost rest = chars@.subrange(start as int, to as int);
            let ghost before = out@;
            let line = trim(&text_of(chars, start, i));
            proof {
                lemma_first_index_is(rest, '\n', i - start);
                lemma_content_first_line(rest, i - start);
                assert(rest.take(i - start) =~= chars@.subrange(start as int, i as int));
                assert(rest.skip(i - start + 1) =~= chars@.subrange(i as int + 1, to as int));
            }
            push_kept(&mut out, line);
            proof {
                assert(texts(out@) =~= texts(before) + kept_line(chars@.subrange(start as int, i as int)));
                assert(texts(before) + (kept_line(rest.take(i - start)) + content_lines(
                    rest.skip(i - start + 1),
                )) =~= texts(out@) + content_lines(rest.skip(i - start + 1)));
            }
            start = i + 1;
        }
        i += 1;
    }
    let ghost rest = chars@.subrange(start as int, to as int);
    let ghost before = out@;
    let line = trim(&text_of(chars, start, to));
    proof {
        lemma_first_index(rest, '\n');
        lemma_content_one_line(rest);
    }
    push_kept(&mut out, line);
    out
}

/// Appends a trimmed line to a list, unless it is blank or a comment.
fn push_kept(out: &mut Vec<String>, line: String)
    ensures
        texts(final(out)@) == texts(old(out)@) + (if line@.len() == 0 || line@[0] == '#' {
            Seq::<Seq<char>>::empty()
        } else {
            seq![line@]
        }),
{
    let ghost before = out@;
    if line.as_str().is_empty() {
        assert(texts(before) + Seq::<Seq<char>>::empty() =~= texts(before));
        return;
    }
    if line.as_str().get_char(0) == '#' {
        assert(texts(before) + Seq::<Seq<char>>::empty() =~= texts(before));
        return;
    }
    let ghost view = line@;
    out.push(line);
    assert(texts(out@) =~= texts(before) + seq![view]);
}

// ---------------------------------------------------------------------------
// building
// ---------------------------------------------------------------------------
/// The first `n` texts of a list with `separator` between them.
pub open spec fn joined_upto(list: Seq<Seq<char>>, separator: Seq<char>, n: nat) -> Seq<char>
    decreases n,
{
    if n == 0 {
        Seq::empty()
    } else if n == 1 {
        list[0]
    } else {
        joined_upto(list, separator, (n - 1) as nat) + separator + list[n - 1]
    }
}

/// The texts of a list with `separator` between them.
pub open spec fn joined(list: Seq<Seq<char>>, separator: Seq<char>) -> Seq<char> {
    joined_upto(list, separator, list.len())
}

/// The texts of a list with `separator` between them.
pub fn join(list: &Vec<String>, separator: &str) -> (r: String)
    ensures
        r@ == joined(texts(list@), separator@),
{
    let mut out = String::new();
    let mut n: usize = 0;
    while n < list.len()
        invariant
            n <= list@.len(),
            out@ == joined_upto(texts(list@), separator@, n as nat),
        decreases list@.len() - n,
    {
        if n > 0 {
            out.append(separator);
        }
        let ghost before = out@;
        out.append(list[n].as_str());
        proof {
            assert(texts(list@)[n as int] == list@[n as int]@);
            if n == 0 {
                assert(before + list@[0]@ =~= list@[0]@);
            }
        }
        n += 1;
    }
    out
}

/// The decimal digit of `d`.
pub open spec fn digit(d: nat) -> char {
    ('0' as nat + d) as char
}

/// `n` in decimal.
pub open spec fn decimal(n: nat) -> Seq<char>
    decreases n,
{
    if n < 10 {
        seq![digit(n)]
    } else {
        decimal(n / 10).push(digit(n % 10))
    }
}

/// `n` in decimal.
pub fn number(n: usize) -> (r: String)
    ensures
        r@ == decimal(n as nat),
    decreases n,
{
    let d: u8 = (n % 10) as u8;
    let mut out = if n < 10 {
        String::new()
    } else {
        number(n / 10)
    };
    let ghost before = out@;
    out.push((48u8 + d) as char);
    proof {
        assert(n < 10 ==> before.push(digit(n as nat)) =~= seq![digit(n as nat)]);
    }
    out
}

/// A list of the same texts.
pub fn copied(list: &Vec<String>) -> (r: Vec<String>)
    ensures
        texts(r@) == texts(list@),
{
    let mut out: Vec<String> = Vec::new();
    let mut i: usize = 0;
    while i < list.len()
        invariant
            i <= list@.len(),
            out@ == list@.take(i as int),
        decreases list@.len() - i,
    {
        out.push(list[i].clone());
        assert(list@.take(i as int + 1) =~= list@.take(i as int).push(list@[i as int]));
        i += 1;
    }
    assert(list@.take(i as int) =~= list@);
    out
}

// ---------------------------------------------------------------------------
// order
// ---------------------------------------------------------------------------
/// Lexicographic order by character, which is the order of the UTF-8 bytes.
pub open spec fn before(a: Seq<char>, b: Seq<char>) -> bool
    decreases a.len(),
{
    if b.len() == 0 {
        false
    } else if a.len() == 0 {
        true
    } else if a[0] != b[0] {
        a[0] < b[0]
    } else {
        before(a.skip(1), b.skip(1))
    }
}

/// A list in strictly ascending order, hence without duplicates.
pub open spec fn ascending(list: Seq<Seq<char>>) -> bool {
    forall|i: int, j: int| 0 <= i < j < list.len() ==> before(list[i], list[j])
}

/// `list` with `item` put at its place, unless it is there already.
pub open spec fn with_item(list: Seq<Seq<char>>, item: Seq<char>) -> Seq<Seq<char>>
    decreases list.len(),
{
    if list.len() == 0 || before(item, list[0]) {
        seq![item] + list
    } else if item == list[0] {
        list
    } else {
        seq![list[0]] + with_item(list.skip(1), item)
    }
}

/// The order is irreflexive.
pub proof fn lemma_before_irreflexive(a: Seq<char>)
    ensures
        !before(a, a),
    decreases a.len(),
{
    if a.len() > 0 {
        lemma_before_irreflexive(a.skip(1));
    }
}

/// The order is transitive.
pub proof fn lemma_before_transitive(a: Seq<char>, b: Seq<char>, c: Seq<char>)
    requires
        before(a, b),
        before(b, c),
    ensures
        before(a, c),
    decreases a.len(),
{
    if a.len() > 0 && a[0] == b[0] && b[0] == c[0] {
        lemma_before_transitive(a.skip(1), b.skip(1), c.skip(1));
    }
}

/// The order is total.
pub proof fn lemma_before_total(a: Seq<char>, b: Seq<char>)
    ensures
        before(a, b) || before(b, a) || a == b,
    decreases a.len(),
{
    if a.len() > 0 && b.len() > 0 && a[0] == b[0] {
        lemma_before_total(a.skip(1), b.skip(1));
        if a.skip(1) == b.skip(1) {
            assert(a =~= seq![a[0]] + a.skip(1));
            assert(b =~= seq![b[0]] + b.skip(1));
        }
    } else if a.len() == 0 && b.len() == 0 {
        assert(a =~= b);
    }
}

/// Putting an item into an ascending list keeps it ascending, and adds that
/// item and no other.
pub proof fn lemma_with_item(list: Seq<Seq<char>>, item: Seq<char>)
    requires
        ascending(list),
    ensures
        ascending(with_item(list, item)),
        forall|x: Seq<char>| #[trigger]
            with_item(list, item).contains(x) <==> list.contains(x) || x == item,
    decreases list.len(),
{
    let result = with_item(list, item);
    if list.len() == 0 || before(item, list[0]) {
        assert(result == seq![item] + list);
        assert forall|i: int, j: int| 0 <= i < j < result.len() implies before(
            result[i],
            result[j],
        ) by {
            if i == 0 {
                if j > 1 {
                    lemma_before_transitive(item, list[0], list[j - 1]);
                }
            } else {
                assert(before(list[i - 1], list[j - 1]));
            }
        }
        assert forall|x: Seq<char>| result.contains(x) <==> list.contains(x) || x == item by {
            if list.contains(x) {
                let k = choose|k: int| 0 <= k < list.len() && list[k] == x;
                assert(result[k + 1] == x);
            }
            if x == item {
                assert(result[0] == x);
            }
            if result.contains(x) {
                let k = choose|k: int| 0 <= k < result.len() && result[k] == x;
                if k > 0 {
                    assert(list[k - 1] == x);
                }
            }
        }
    } else if item == list[0] {
    } else {
        let tail = list.skip(1);
        assert forall|i: int, j: int| 0 <= i < j < tail.len() implies before(
            tail[i],
            tail[j],
        ) by {
            assert(before(list[i + 1], list[j + 1]));
        }
        lemma_with_item(tail, item);
        lemma_before_total(item, list[0]);
        let rest = with_item(tail, item);
        assert(result == seq![list[0]] + rest);
        assert forall|i: int, j: int| 0 <= i < j < result.len() implies before(
            result[i],
            result[j],
        ) by {
            if i == 0 {
                let x = rest[j - 1];
                assert(result[j] == x);
                assert(rest.contains(x));
                if x != item {
                    assert(tail.contains(x));
                    let k = choose|k: int| 0 <= k < tail.len() && tail[k] == x;
                    assert(before(list[0], list[k + 1]));
                }
            } else {
                assert(before(rest[i - 1], rest[j - 1]));
            }
        }
        assert forall|x: Seq<char>| result.contains(x) <==> list.contains(x) || x == item by {
            if list.contains(x) {
                let k = choose|k: int| 0 <= k < list.len() && list[k] == x;
                if k == 0 {
                    assert(result[0] == x);
                } else {
                    assert(tail[k - 1] == x);
                    assert(tail.contains(x) && rest.contains(x));
                    let m = choose|m: int| 0 <= m < rest.len() && rest[m] == x;
                    assert(result[m + 1] == x);
                }
            }
            if x == item {
                assert(rest.contains(x));
                let m = choose|m: int| 0 <= m < rest.len() && rest[m] == x;
                assert(result[m + 1] == x);
            }
            if result.contains(x) {
                let k = choose|k: int| 0 <= k < result.len() && result[k] == x;
                if k == 0 {
                    assert(list[0] == x);
                } else {
                    assert(rest[k - 1] == x);
                    assert(rest.contains(x));
                    if x != item {
                        let m = choose|m: int| 0 <= m < tail.len() && tail[m] == x;
                        assert(list[m + 1] == x);
                    }
                }
            }
        }
    }
}

/// Whether `a` comes before `b`.
pub fn precedes(a: &str, b: &str) -> (r: bool)
    ensures
        r == before(a@, b@),
{
    let x = chars_of(a);
    let y = chars_of(b);
    let mut i: usize = 0;
    assert(a@.skip(0) =~= a@ && b@.skip(0) =~= b@);
    while i < x.len() && i < y.len()
        invariant
            x@ == a@,
            y@ == b@,
            i <= x@.len(),
            i <= y@.len(),
            before(a@, b@) == before(a@.skip(i as int), b@.skip(i as int)),
        decreases x@.len() - i,
    {
        if x[i] != y[i] {
            return x[i] < y[i];
        }
        assert(a@.skip(i as int).skip(1) =~= a@.skip(i as int + 1));
        assert(b@.skip(i as int).skip(1) =~= b@.skip(i as int + 1));
        i += 1;
    }
    i < y.len()
}

/// Puts `item` at its place in `list`, unless it is there already.
pub fn insert(list: &mut Vec<String>, item: String)
    ensures
        texts(final(list)@) == with_item(texts(old(list)@), item@),
{
    let ghost whole = texts(list@);
    let ghost sought = item@;
    let mut i: usize = 0;
    assert(whole.take(0) + with_item(whole.skip(0), sought) =~= with_item(whole, sought)) by {
        assert(whole.skip(0) =~= whole);
    }
    while i < list.len() && !precedes(item.as_str(), list[i].as_str())
        invariant
            i <= list@.len(),
            item@ == sought,
            whole == texts(list@),
            with_item(whole, sought) == whole.take(i as int) + with_item(
                whole.skip(i as int),
                sought,
            ),
        decreases list@.len() - i,
    {
        assert(whole.skip(i as int)[0] == list@[i as int]@);
        if list[i] == item {
            assert(whole.take(i as int) + whole.skip(i as int) =~= whole);
            return;
        }
        assert(whole.skip(i as int).skip(1) =~= whole.skip(i as int + 1));
        assert(whole.take(i as int) + (seq![whole[i as int]] + with_item(
            whole.skip(i as int + 1),
            sought,
        )) =~= whole.take(i as int + 1) + with_item(whole.skip(i as int + 1), sought));
        i += 1;
    }
    proof {
        if i < list@.len() {
            assert(whole.skip(i as int)[0] == list@[i as int]@);
        }
    }
    list.insert(i, item);
    assert(texts(list@) =~= whole.take(i as int) + (seq![sought] + whole.skip(i as int)));
}

} // verus!
