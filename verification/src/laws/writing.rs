//! How `.prot` is written: all at once or not at all.

use crate::failure::Failure;
use crate::paths::Style;
use crate::prot;
use crate::prot::ProtView;
use crate::prot::Reading;
use crate::prot::Standing;
use crate::prot::WriteStep;
use vstd::prelude::*;

verus! {

/// The text at the target and that of the temporary file after some steps,
/// where there are such files.
pub open spec fn performed(
    target: Option<Seq<char>>,
    steps: Seq<WriteStep<Seq<char>>>,
) -> (Option<Seq<char>>, Option<Seq<char>>)
    decreases steps.len(),
{
    if steps.len() == 0 {
        (target, None)
    } else {
        let before = performed(target, steps.drop_last());
        match steps.last() {
            WriteStep::CreateTemp { .. } => (before.0, Some(Seq::empty())),
            WriteStep::Fill { text } => (before.0, Some(text)),
            WriteStep::CarryMode => before,
            WriteStep::Flush => before,
            WriteStep::Rename => (before.1, None),
        }
    }
}

/// Wherever writing stops, the target holds what it held before; once it is
/// done, it holds all of the new text. It is never there in part.
pub proof fn writing_is_all_or_nothing(
    style: Style,
    data: ProtView,
    before: Option<Seq<char>>,
    k: int,
)
    requires
        0 <= k <= prot::write_steps(style, data).len(),
    ensures
        performed(before, prot::write_steps(style, data).take(k)).0 == (if k
            == prot::write_steps(style, data).len() {
            Some(prot::serialized(data))
        } else {
            before
        }),
{
    let steps = prot::write_steps(style, data);
    reveal_with_fuel(performed, 6);
    assert forall|j: int| 1 <= j <= steps.len() implies #[trigger] steps.take(j).drop_last()
        == steps.take(j - 1) by {
        assert(steps.take(j).drop_last() =~= steps.take(j - 1));
    }
    assert(steps.take(0) =~= seq![]);
    if k >= 1 {
        assert(steps.take(k).drop_last() == steps.take(k - 1));
    }
    if k >= 2 {
        assert(steps.take(k - 1).drop_last() == steps.take(k - 2));
    }
    if k >= 3 {
        assert(steps.take(k - 2).drop_last() == steps.take(k - 3));
    }
    if k >= 4 {
        assert(steps.take(k - 3).drop_last() == steps.take(k - 4));
    }
    if k >= 5 {
        assert(steps.take(k - 4).drop_last() == steps.take(k - 5));
    }
}

/// The new text is flushed to disk before it is moved into place, which is the
/// last step.
pub proof fn the_text_is_on_disk_before_it_is_in_place(style: Style, data: ProtView, i: int)
    requires
        0 <= i < prot::write_steps(style, data).len(),
        prot::write_steps(style, data)[i] is Rename,
    ensures
        i == prot::write_steps(style, data).len() - 1,
        i > 0,
        prot::write_steps(style, data)[i - 1] is Flush,
{
}

/// A link is never replaced by a file, and a file that was made read-only is
/// left alone: nothing is written there, and the path is told. Anywhere else
/// `.prot` is written.
pub proof fn a_link_and_a_read_only_file_are_left_alone(
    style: Style,
    path: Seq<char>,
    standing: Option<Standing>,
    data: ProtView,
)
    ensures
        match standing {
            Some(it) => if it.symlink {
                prot::write_as(style, path, standing, data) == Err::<
                    Seq<WriteStep<Seq<char>>>,
                    Failure<Seq<char>>,
                >(Failure::Symlinked { path })
            } else if it.readonly {
                prot::write_as(style, path, standing, data) == Err::<
                    Seq<WriteStep<Seq<char>>>,
                    Failure<Seq<char>>,
                >(Failure::ReadOnly { path })
            } else {
                prot::write_as(style, path, standing, data) == Ok::<
                    Seq<WriteStep<Seq<char>>>,
                    Failure<Seq<char>>,
                >(prot::write_steps(style, data))
            },
            None => prot::write_as(style, path, standing, data) == Ok::<
                Seq<WriteStep<Seq<char>>>,
                Failure<Seq<char>>,
            >(prot::write_steps(style, data)),
        },
{
}

/// The temporary file stands next to `.prot` under a name of its own, and where
/// the platform has permissions it is given those of the file it replaces
/// before it takes that one's place.
pub proof fn permissions_are_carried_over(style: Style, data: ProtView)
    ensures
        prot::write_steps(style, data)[0] == (WriteStep::CreateTemp { prefix: ".prot-"@ }),
        prot::write_steps(style, data)[1] == (WriteStep::Fill { text: prot::serialized(data) }),
        style == Style::Unix ==> prot::write_steps(style, data).len() == 5
            && prot::write_steps(style, data)[2] is CarryMode,
        style == Style::Windows ==> prot::write_steps(style, data).len() == 4,
        prot::write_steps(style, data).last() is Rename,
{
}

/// A step that fails is told by what it was to do, with the path and the cause.
pub proof fn a_failed_step_is_told(
    text: Seq<char>,
    prefix: Seq<char>,
    path: Seq<char>,
    cause: Seq<char>,
)
    ensures
        prot::step_failure(WriteStep::CreateTemp { prefix }, path, cause) == (Failure::TempFailed {
            path,
            cause,
        }),
        prot::step_failure(WriteStep::Fill { text }, path, cause) == (Failure::WriteFailed {
            path,
            cause,
        }),
        prot::step_failure(WriteStep::CarryMode, path, cause) == (Failure::ModeFailed {
            path,
            cause,
        }),
        prot::step_failure(WriteStep::Flush, path, cause) == (Failure::FlushFailed { path, cause }),
        prot::step_failure(WriteStep::Rename, path, cause) == (Failure::WriteFailed {
            path,
            cause,
        }),
{
}

/// What was read is what the file holds; one that is not there is no failure,
/// and one that cannot be read is told with its path and the cause.
pub proof fn reading_tells_missing_from_unreadable(
    path: Seq<char>,
    t: Seq<char>,
    cause: Seq<char>,
)
    ensures
        prot::read_as(path, Reading::Text(t)) == Ok::<Option<ProtView>, Failure<Seq<char>>>(
            Some(prot::parsed(t)),
        ),
        prot::read_as(path, Reading::Missing) == Ok::<Option<ProtView>, Failure<Seq<char>>>(None),
        prot::read_as(path, Reading::Failed { cause }) == Err::<
            Option<ProtView>,
            Failure<Seq<char>>,
        >(Failure::ReadFailed { path, cause }),
{
}

} // verus!
