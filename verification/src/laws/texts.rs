//! What becomes of texts and numbers.

use super::reading;
use crate::expand;
use crate::outside;
use crate::text;
use vstd::prelude::*;

verus! {

// ---------------------------------------------------------------------------
// searching
// ---------------------------------------------------------------------------
/// A text holds a pattern just where it is the pattern with something before
/// and after it, perhaps nothing; and it begins with the pattern where nothing
/// comes before.
pub proof fn holding_is_having_it_inside(s: Seq<char>, pattern: Seq<char>)
    ensures
        text::has(s, pattern) <==> exists|a: Seq<char>, b: Seq<char>| s == #[trigger] (a + pattern + b),
        text::begins_with(s, pattern) <==> exists|b: Seq<char>| s == #[trigger] (pattern + b),
{
    let n = pattern.len() as int;
    if text::has(s, pattern) {
        let i = choose|i: int| text::occurs_at(s, pattern, i);
        let a = s.take(i);
        let b = s.skip(i + n);
        assert(s =~= a + pattern + b) by {
            assert forall|k: int| i <= k < i + n implies s[k] == pattern[k - i] by {
                assert(s.subrange(i, i + n)[k - i] == s[k]);
            }
        }
    }
    if exists|a: Seq<char>, b: Seq<char>| s == #[trigger] (a + pattern + b) {
        let (a, b) = choose|a: Seq<char>, b: Seq<char>| s == #[trigger] (a + pattern + b);
        let i = a.len() as int;
        assert(s.subrange(i, i + n) =~= pattern);
        assert(text::occurs_at(s, pattern, i));
    }
    if text::begins_with(s, pattern) {
        let b = s.skip(n);
        assert(s =~= pattern + b) by {
            assert forall|k: int| 0 <= k < n implies s[k] == pattern[k] by {
                assert(s.subrange(0, n)[k] == s[k]);
            }
        }
    }
    if exists|b: Seq<char>| s == #[trigger] (pattern + b) {
        let b = choose|b: Seq<char>| s == #[trigger] (pattern + b);
        assert(s.subrange(0, n) =~= pattern);
    }
}

/// The first place of a pattern is one where it stands, and it stands at none
/// before; there is such a place just where the text holds the pattern.
pub proof fn the_first_place_is_the_first(s: Seq<char>, pattern: Seq<char>)
    ensures
        match text::first_occurrence(s, pattern) {
            Some(i) => text::occurs_at(s, pattern, i) && forall|j: int|
                0 <= j < i ==> !text::occurs_at(s, pattern, j),
            None => !text::has(s, pattern),
        },
{
    text::lemma_find_from(s, pattern, 0);
}

/// The ASCII capitals of a text become small letters, one by one, and nothing
/// else changes.
pub proof fn lowering_touches_capitals_alone(s: Seq<char>, i: int)
    requires
        0 <= i < s.len(),
    ensures
        outside::ascii_lowercase(s).len() == s.len(),
        'A' <= s[i] <= 'Z' ==> outside::ascii_lowercase(s)[i] as int == s[i] as int + 32,
        !('A' <= s[i] <= 'Z') ==> outside::ascii_lowercase(s)[i] == s[i],
{
}

// ---------------------------------------------------------------------------
// building
// ---------------------------------------------------------------------------
proof fn lemma_joined_upto(a: Seq<Seq<char>>, b: Seq<Seq<char>>, separator: Seq<char>, n: nat)
    requires
        n <= a.len(),
        n <= b.len(),
        forall|i: int| 0 <= i < n ==> a[i] == b[i],
    ensures
        text::joined_upto(a, separator, n) == text::joined_upto(b, separator, n),
    decreases n,
{
    if n > 1 {
        lemma_joined_upto(a, b, separator, (n - 1) as nat);
    }
}

/// Texts are joined with the separator between each two: none gives nothing, one
/// gives itself, and one more adds the separator and itself.
pub proof fn joining_puts_the_separator_between(
    list: Seq<Seq<char>>,
    item: Seq<char>,
    separator: Seq<char>,
)
    ensures
        text::joined(seq![], separator).len() == 0,
        text::joined(seq![item], separator) == item,
        list.len() > 0 ==> text::joined(list.push(item), separator) == text::joined(list, separator)
            + separator + item,
{
    let more = list.push(item);
    assert(text::joined_upto(seq![item], separator, 1) == seq![item][0]);
    if list.len() > 0 {
        lemma_joined_upto(list, more, separator, list.len());
        assert(more[list.len() as int] == item);
    }
}

/// The number that decimal digits stand for.
pub open spec fn value_of(digits: Seq<char>) -> int
    decreases digits.len(),
{
    if digits.len() == 0 {
        0
    } else {
        10 * value_of(digits.drop_last()) + (digits.last() as int - '0' as int)
    }
}

/// A number is told by decimal digits that stand for it, with no zero in front
/// but for zero itself.
pub proof fn a_number_is_told_by_its_digits(n: nat)
    ensures
        value_of(text::decimal(n)) == n,
        text::decimal(n).len() > 0,
        forall|i: int| 0 <= i < text::decimal(n).len() ==> '0' <= #[trigger] text::decimal(n)[i] <= '9',
        n > 0 ==> text::decimal(n)[0] != '0',
        n == 0 ==> text::decimal(n) == seq!['0'],
    decreases n,
{
    let all = text::decimal(n);
    if n < 10 {
        assert(all.drop_last() =~= Seq::<char>::empty());
        assert(all.last() == text::digit(n));
        assert(value_of(all.drop_last()) == 0);
    } else {
        let before = text::decimal(n / 10);
        a_number_is_told_by_its_digits(n / 10);
        assert(all.drop_last() =~= before);
        assert(all.last() == text::digit(n % 10));
        assert forall|i: int| 0 <= i < all.len() implies '0' <= #[trigger] all[i] <= '9' by {
            if i < before.len() {
                assert(all[i] == before[i]);
            }
        }
        assert(all[0] == before[0]);
    }
}

// ---------------------------------------------------------------------------
// order
// ---------------------------------------------------------------------------
/// Whether two texts are the same up to this place, and there the first ends or
/// has the lesser character.
pub open spec fn is_less_at(a: Seq<char>, b: Seq<char>, k: int) -> bool {
    &&& 0 <= k <= a.len() && k < b.len()
    &&& forall|i: int| 0 <= i < k ==> #[trigger] a[i] == b[i]
    &&& k == a.len() || a[k] < b[k]
}

/// One text comes before another just where, at the first place in which they
/// differ, it ends or has the lesser character.
pub proof fn the_order_is_that_of_the_first_difference(a: Seq<char>, b: Seq<char>)
    ensures
        text::before(a, b) <==> exists|k: int| is_less_at(a, b, k),
    decreases a.len(),
{
    if b.len() == 0 {
    } else if a.len() == 0 {
        assert(is_less_at(a, b, 0));
    } else if a[0] != b[0] {
        if a[0] < b[0] {
            assert(is_less_at(a, b, 0));
        } else if exists|k: int| is_less_at(a, b, k) {
            let k = choose|k: int| is_less_at(a, b, k);
            if k > 0 {
                assert(a[0] == b[0]);
            }
        }
    } else {
        let x = a.skip(1);
        let y = b.skip(1);
        the_order_is_that_of_the_first_difference(x, y);
        if text::before(x, y) {
            let k = choose|k: int| is_less_at(x, y, k);
            assert forall|i: int| 0 <= i < k + 1 implies #[trigger] a[i] == b[i] by {
                if i > 0 {
                    assert(x[i - 1] == y[i - 1]);
                }
            }
            assert(is_less_at(a, b, k + 1));
        }
        if exists|k: int| is_less_at(a, b, k) {
            let k = choose|k: int| is_less_at(a, b, k);
            assert(k > 0);
            assert forall|i: int| 0 <= i < k - 1 implies #[trigger] x[i] == y[i] by {
                assert(a[i + 1] == b[i + 1]);
            }
            assert(is_less_at(x, y, k - 1));
        }
    }
}

// ---------------------------------------------------------------------------
// names
// ---------------------------------------------------------------------------
/// A name cannot be recorded where it holds a control character, or begins or
/// ends in white space; any other can.
pub proof fn what_can_be_recorded(file: Seq<char>)
    ensures
        expand::is_recordable(file) <==> {
            &&& forall|i: int| 0 <= i < file.len() ==> !text::is_control_char(#[trigger] file[i])
            &&& file.len() > 0 ==> !text::is_white_space(file[0]) && !text::is_white_space(
                file.last(),
            )
        },
{
    let cut = reading::trimming_is_exact(file);
    if text::trimmed(file) == file {
        assert(file.subrange(cut.0, cut.1).len() == file.len());
    } else if file.len() > 0 && !text::is_white_space(file[0]) && !text::is_white_space(
        file.last(),
    ) {
        assert(cut.0 == 0) by {
            if cut.0 > 0 {
                assert(text::is_white_space(file[0]));
            }
        }
        assert(cut.1 == file.len()) by {
            if cut.1 < file.len() {
                assert(text::is_white_space(file[file.len() - 1]));
            }
        }
        assert(file.subrange(cut.0, cut.1) =~= file);
    } else if file.len() == 0 {
        assert(text::trimmed(file) =~= file);
    }
}

} // verus!
