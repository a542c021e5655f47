//! What the user is told.

use super::endings;
use crate::commands::model;
use crate::commands::model::PhaseView;
use crate::commands::model::RunView;
use crate::commands::model::Way;
use crate::exchange::Entry;
use crate::exchange::Line;
use crate::exchange::Reply;
use crate::exchange::ReplyView;
use crate::exchange::Restoring;
use crate::expand;
use crate::failure;
use crate::outside;
use crate::paths;
use crate::paths::Style;
use crate::prot;
use crate::text;
use vstd::prelude::*;

verus! {

/// A line to standard output, alone.
pub open spec fn out(t: Seq<char>) -> Seq<Line<Seq<char>>> {
    seq![Line::Out(t)]
}

/// A line to standard error, alone.
pub open spec fn warning(t: Seq<char>) -> Seq<Line<Seq<char>>> {
    seq![Line::Warn(t)]
}

/// What is told of what a reply brought, before anything else.
pub open spec fn note_of(run: RunView, reply: ReplyView) -> Seq<Line<Seq<char>>> {
    match (run.phase, reply) {
        (PhaseView::FindToSetUp, Reply::Vault(Ok(Some(id)))) => out(
            "Vault \".prot\" already exists ("@ + id + ")."@,
        ),
        (PhaseView::CreateToSetUp, Reply::Created(Ok(id))) => out(
            "Created vault \".prot\" ("@ + id + ")."@,
        ),
        (PhaseView::WriteFresh { prot }, Reply::Ended(Ok(_))) => out(
            "Created .prot (protecting: "@ + text::joined(prot.patterns, ", "@) + ")."@,
        ),
        (PhaseView::SaveFresh { .. }, Reply::Ended(Err(e))) => warning(
            "  warning: could not back up .prot: "@ + failure::message_of(e),
        ),
        (PhaseView::Save { .. }, Reply::Ended(Err(e))) => warning(
            "  warning: could not back up .prot: "@ + failure::message_of(e),
        ),
        (PhaseView::CreateVault { .. }, Reply::Created(Ok(id))) => out(
            "Created 1Password vault \".prot\" ("@ + id + ")."@,
        ) + out("(one-time setup — future runs reuse it)"@),
        (PhaseView::Expand { found, .. }, Reply::Matches(Ok(entries))) => expand::with_entries(
            run.place.cwd,
            run.place.style,
            found,
            entries,
        ).1,
        (PhaseView::ReadFile { batch }, Reply::Content(Ok(content))) => if content.len() == 0 {
            out("  skip "@ + batch.files[0] + " (empty file — nothing to protect)"@)
        } else {
            seq![]
        },
        (PhaseView::Remove { batch }, Reply::Removed(Ok(_))) => out(
            "  locked "@ + batch.files[0] + " -> 1Password"@,
        ),
        (PhaseView::Probe { recovery }, Reply::Presence(there)) => if there == Some(false) {
            seq![]
        } else {
            out("  skip "@ + recovery.documents[0].0 + " (already present on disk)"@)
        },
        (PhaseView::Restore { recovery, .. }, Reply::Restored(Restoring::Written)) => out(
            "  unlocked "@ + recovery.documents[0].0 + " <- 1Password"@,
        ),
        _ => seq![],
    }
}

/// What is told of a file that was stored and is kept.
pub open spec fn kept_note(run: RunView, reply: ReplyView) -> Seq<Line<Seq<char>>> {
    match (run.phase, reply) {
        (PhaseView::Save { batch, .. }, Reply::Ended(_)) => if run.keep {
            out("  uploaded "@ + batch.files[0] + " -> 1Password (kept on disk)"@)
        } else {
            seq![]
        },
        (PhaseView::Record { batch, .. }, Reply::Ended(Ok(_))) => if run.keep && run.place.home is None {
            out("  uploaded "@ + batch.files[0] + " -> 1Password (kept on disk)"@)
        } else {
            seq![]
        },
        _ => seq![],
    }
}

/// How many files are counted once a reply has come.
pub open spec fn count_after(run: RunView) -> nat {
    match run.phase {
        PhaseView::ReadFile { batch } => batch.locked,
        PhaseView::Record { batch, .. } => batch.locked + 1,
        PhaseView::Save { batch, .. } => batch.locked + 1,
        PhaseView::Remove { batch } => batch.locked + 1,
        PhaseView::Probe { recovery } => recovery.unlocked,
        PhaseView::Restore { recovery, .. } => recovery.unlocked + 1,
        _ => 0,
    }
}

/// What is told at the end of a run that ends well.
pub open spec fn closing(run: RunView, next: PhaseView) -> Seq<Line<Seq<char>>> {
    if !(next matches PhaseView::Finished { outcome } && outcome is Ok) {
        seq![]
    } else if run.phase is Probe || run.phase is Restore {
        out("Unlocked "@ + text::decimal(count_after(run)) + " file(s) from vault \".prot\"."@)
    } else if run.phase is ReadFile || run.phase is Record || run.phase is Save
        || run.phase is Remove {
        if run.keep {
            out(
                "Uploaded "@ + text::decimal(count_after(run))
                    + " file(s) to vault \".prot\". Originals kept on disk (--keep); run `dotprot lock` to remove them."@,
            )
        } else {
            out("Locked "@ + text::decimal(count_after(run)) + " file(s) into vault \".prot\"."@)
        }
    } else {
        seq![]
    }
}

/// The user is told of every file that was locked, uploaded, unlocked or passed
/// over, of every vault and `.prot` that was created, of every backup that was
/// not made and every match that was not taken, and at the end how many files
/// there were; and of nothing else.
#[verifier::spinoff_prover]
#[verifier::rlimit(40)]
pub proof fn the_user_is_told_what_was_done(run: RunView, reply: ReplyView)
    requires
        endings::has_work(run.phase),
        run.phase matches PhaseView::ConfirmVault { way: Way::Unlock, prot, .. }
            ==> prot.documents.len() > 0,
        run.phase matches PhaseView::FindVault { way: Way::Unlock, prot }
            ==> prot.documents.len() > 0,
    ensures
        model::said(run, reply) == note_of(run, reply) + kept_note(run, reply) + closing(
            run,
            model::step(run, reply).phase,
        ),
{
    let said = model::said(run, reply);
    let all = note_of(run, reply) + kept_note(run, reply) + closing(
        run,
        model::step(run, reply).phase,
    );
    assert(said =~= all);
}

// ---------------------------------------------------------------------------
// matches
// ---------------------------------------------------------------------------
/// Every match is taken, or told why it is not: one that could not be read, one
/// outside the working directory, and one whose name cannot be recorded are
/// warned of. Only what is no file, and `.prot` itself, is passed over without
/// a word; a file that is taken needs none.
pub proof fn every_match_is_taken_or_told_of(
    cwd: Seq<char>,
    style: Style,
    files: Seq<Seq<char>>,
    shown: Seq<char>,
    path: Seq<char>,
)
    ensures
        expand::with_entry(cwd, style, files, Entry::Unreadable { shown }) == (
            files,
            warning("  warning: could not read "@ + shown + " — skipped"@),
        ),
        expand::with_entry(
            cwd,
            style,
            files,
            Entry::Found { shown, is_file: true, relative: None },
        ) == (files, outside_warning(shown, cwd)),
        expand::with_entry(
            cwd,
            style,
            files,
            Entry::Found { shown, is_file: false, relative: Some(path) },
        ) == (files, Seq::<Line<Seq<char>>>::empty()),
        ({
            let taken = expand::with_entry(
                cwd,
                style,
                files,
                Entry::Found { shown, is_file: true, relative: Some(path) },
            );
            if !paths::is_plain(style, path) {
                taken == (files, outside_warning(shown, cwd))
            } else if !expand::is_recordable(path) {
                taken == (
                    files,
                    warning(
                        "  warning: "@ + outside::quoted(path)
                            + " has control characters or leading/trailing whitespace in its name — skipped (unsupported in .prot)"@,
                    ),
                )
            } else if path == ".prot"@ {
                taken == (files, Seq::<Line<Seq<char>>>::empty())
            } else {
                taken == (text::with_item(files, path), Seq::<Line<Seq<char>>>::empty())
            }
        }),
{
}

/// The warning that a match lies outside the working directory.
pub open spec fn outside_warning(shown: Seq<char>, cwd: Seq<char>) -> Seq<Line<Seq<char>>> {
    warning(
        "  warning: "@ + shown + " is outside "@ + cwd
            + " — skipped (dotprot only protects files inside the working directory)"@,
    )
}

/// Matches are gone through one after the other: those of two lists, one after
/// the other, come to what the second makes of what the first left, and the
/// warnings of both are told.
pub proof fn matches_are_gone_through_one_by_one(
    cwd: Seq<char>,
    style: Style,
    files: Seq<Seq<char>>,
    a: Seq<Entry<Seq<char>>>,
    b: Seq<Entry<Seq<char>>>,
)
    ensures
        ({
            let first = expand::with_entries(cwd, style, files, a);
            let second = expand::with_entries(cwd, style, first.0, b);
            let all = expand::with_entries(cwd, style, files, a + b);
            all.0 == second.0 && all.1 == first.1 + second.1
        }),
        expand::with_entries(cwd, style, files, seq![]) == (
            files,
            Seq::<Line<Seq<char>>>::empty(),
        ),
        b.len() == 1 ==> expand::with_entries(cwd, style, files, b) == expand::with_entry(
            cwd,
            style,
            files,
            b[0],
        ),
    decreases b.len(),
{
    let first = expand::with_entries(cwd, style, files, a);
    let none = Seq::<Line<Seq<char>>>::empty();
    if b.len() == 0 {
        assert(a + b =~= a);
        assert(first.1 + none =~= first.1);
    } else {
        let fewer = b.drop_last();
        matches_are_gone_through_one_by_one(cwd, style, files, a, fewer);
        assert((a + b).drop_last() =~= a + fewer);
        assert((a + b).last() == b.last());
        let before = expand::with_entries(cwd, style, first.0, fewer);
        let last = expand::with_entry(cwd, style, before.0, b.last());
        assert(first.1 + (before.1 + last.1) =~= (first.1 + before.1) + last.1);
        if b.len() == 1 {
            assert(fewer =~= seq![]);
            let one = expand::with_entry(cwd, style, files, b[0]);
            assert(none + one.1 =~= one.1);
        }
    }
}

/// What is looked for below the working directory is the pattern, in that
/// directory taken literally; a rooted pattern on Unix is looked for as it
/// stands, wherever the run is.
pub proof fn a_pattern_is_looked_for_as_it_stands(place: paths::PlaceView, pattern: Seq<char>)
    ensures
        !paths::rooted(place.style, pattern) ==> {
            let sought = expand::search_for(place, pattern);
            let start = outside::escaped(place.cwd);
            &&& sought.len() == start.len() + 1 + pattern.len()
            &&& sought.take(start.len() as int) == start
            &&& sought[start.len() as int] == paths::main_separator(place.style)
            &&& sought.skip(start.len() as int + 1) == pattern
        },
        place.style == Style::Unix && pattern.len() > 0 && pattern[0] == '/'
            && paths::prefix_of(place.components).len() == 0 ==> expand::search_for(place, pattern)
            == pattern,
        place.style == Style::Unix ==> (paths::rooted(place.style, pattern) <==> pattern.len() > 0
            && pattern[0] == '/'),
{
    let sought = expand::search_for(place, pattern);
    let start = outside::escaped(place.cwd);
    if !paths::rooted(place.style, pattern) {
        assert(sought.take(start.len() as int) =~= start);
        assert(sought.skip(start.len() as int + 1) =~= pattern);
    }
    let prefix = paths::prefix_of(place.components);
    if prefix.len() == 0 {
        assert(prefix + pattern =~= pattern);
    }
}

} // verus!
