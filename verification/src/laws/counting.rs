//! What a run tells at its end.

use super::runs;
use crate::commands::model;
use crate::commands::model::PhaseView;
use crate::commands::model::RunView;
use crate::exchange::Line;
use crate::exchange::Reply;
use crate::exchange::ReplyView;
use crate::exchange::Request;
use crate::prot;
use crate::session::Exchange;
use crate::text;
use vstd::prelude::*;

verus! {

/// Whether a file was deleted.
pub open spec fn is_deletion(x: Exchange) -> bool {
    x matches (Request::RemoveFile { .. }, Reply::Removed(Ok(_)))
}

/// Whether a file was restored.
pub open spec fn is_restoration(x: Exchange) -> bool {
    x matches (Request::WriteNew { .. }, Reply::Restored(outcome)) && outcome is Written
}

/// How many files were deleted.
pub open spec fn deletions(e: Seq<Exchange>) -> nat
    decreases e.len(),
{
    if e.len() == 0 {
        0
    } else if is_deletion(e.last()) {
        deletions(e.drop_last()) + 1
    } else {
        deletions(e.drop_last())
    }
}

/// How many files were restored.
pub open spec fn restorations(e: Seq<Exchange>) -> nat
    decreases e.len(),
{
    if e.len() == 0 {
        0
    } else if is_restoration(e.last()) {
        restorations(e.drop_last()) + 1
    } else {
        restorations(e.drop_last())
    }
}

/// How many files a phase counts as locked: those that were deleted.
spec fn counts_deletions(e: Seq<Exchange>, phase: PhaseView) -> bool {
    match phase {
        PhaseView::ReadFile { batch } => batch.locked == deletions(e),
        PhaseView::Upload { batch, .. } => batch.locked == deletions(e),
        PhaseView::Verify { batch, .. } => batch.locked == deletions(e),
        PhaseView::Record { batch, .. } => batch.locked == deletions(e),
        PhaseView::Save { batch, .. } => batch.locked == deletions(e),
        PhaseView::Reread { batch, .. } => batch.locked == deletions(e),
        PhaseView::Remove { batch } => batch.locked == deletions(e),
        PhaseView::Finished { .. } => true,
        _ => deletions(e) == 0,
    }
}

/// How many files a phase counts as unlocked: those that were restored.
spec fn counts_restorations(e: Seq<Exchange>, phase: PhaseView) -> bool {
    match phase {
        PhaseView::Probe { recovery } => recovery.unlocked == restorations(e),
        PhaseView::Fetch { recovery } => recovery.unlocked == restorations(e),
        PhaseView::Guard { recovery, .. } => recovery.unlocked == restorations(e),
        PhaseView::Restore { recovery, .. } => recovery.unlocked == restorations(e),
        PhaseView::Finished { .. } => true,
        _ => restorations(e) == 0,
    }
}

proof fn lemma_counts(start: RunView, replies: Seq<ReplyView>)
    requires
        runs::is_start(start),
    ensures
        !start.keep ==> counts_deletions(
            runs::history(start, replies),
            runs::after(start, replies).phase,
        ),
        counts_restorations(runs::history(start, replies), runs::after(start, replies).phase),
    decreases replies.len(),
{
    if replies.len() > 0 {
        let shorter = replies.drop_last();
        lemma_counts(start, shorter);
        runs::lemma_fixed(start, shorter);
        let run = runs::after(start, shorter);
        let e = runs::history(start, shorter);
        if let Some(request) = model::request_of(run) {
            assert(runs::history(start, replies).drop_last() =~= e);
            if !start.keep {
                lemma_deletions_step(e, run, replies.last());
            }
            lemma_restorations_step(e, run, replies.last());
        }
    }
}

#[verifier::spinoff_prover]
#[verifier::rlimit(40)]
proof fn lemma_deletions_step(e: Seq<Exchange>, run: RunView, reply: ReplyView)
    requires
        !run.keep,
        counts_deletions(e, run.phase),
        model::request_of(run) is Some,
    ensures
        counts_deletions(
            e.push((model::request_of(run)->0, reply)),
            model::step(run, reply).phase,
        ),
{
    let x = (model::request_of(run)->0, reply);
    let all = e.push(x);
    assert(all.drop_last() =~= e);
    assert(all.last() == x);
    assert(is_deletion(x) ==> run.phase is Remove);
}

#[verifier::spinoff_prover]
#[verifier::rlimit(40)]
proof fn lemma_restorations_step(e: Seq<Exchange>, run: RunView, reply: ReplyView)
    requires
        counts_restorations(e, run.phase),
        model::request_of(run) is Some,
    ensures
        counts_restorations(
            e.push((model::request_of(run)->0, reply)),
            model::step(run, reply).phase,
        ),
{
    let x = (model::request_of(run)->0, reply);
    let all = e.push(x);
    assert(all.drop_last() =~= e);
    assert(all.last() == x);
    assert(is_restoration(x) ==> run.phase is Restore);
}

/// When files were locked and not kept, the number told is that of the deleted
/// files.
pub proof fn the_number_told_is_that_of_deleted_files(
    start: RunView,
    replies: Seq<ReplyView>,
    reply: ReplyView,
)
    requires
        runs::is_start(start),
        !start.keep,
        runs::after(start, replies).phase is ReadFile || runs::after(start, replies).phase is Remove,
        runs::after(start, replies.push(reply)).phase matches PhaseView::Finished { outcome }
            && outcome is Ok,
    ensures
        model::said(runs::after(start, replies), reply).last() == Line::Out(
            "Locked "@ + text::decimal(deletions(runs::history(start, replies.push(reply))))
                + " file(s) into vault \".prot\"."@,
        ),
{
    let run = runs::after(start, replies);
    let e = runs::history(start, replies);
    let all = replies.push(reply);
    assert(all.drop_last() =~= replies);
    lemma_counts(start, replies);
    runs::lemma_fixed(start, replies);
    let longer = runs::history(start, all);
    assert(longer.drop_last() =~= e);
}

/// When files were unlocked, the number told is that of the restored files.
pub proof fn the_number_told_is_that_of_restored_files(
    start: RunView,
    replies: Seq<ReplyView>,
    reply: ReplyView,
)
    requires
        runs::is_start(start),
        runs::after(start, replies).phase is Probe || runs::after(start, replies).phase is Restore,
        runs::after(start, replies.push(reply)).phase matches PhaseView::Finished { outcome }
            && outcome is Ok,
    ensures
        model::said(runs::after(start, replies), reply).last() == Line::Out(
            "Unlocked "@ + text::decimal(restorations(runs::history(start, replies.push(reply))))
                + " file(s) from vault \".prot\"."@,
        ),
{
    let run = runs::after(start, replies);
    let e = runs::history(start, replies);
    let all = replies.push(reply);
    assert(all.drop_last() =~= replies);
    lemma_counts(start, replies);
    let longer = runs::history(start, all);
    assert(longer.drop_last() =~= e);
}

/// Whether a document was stored and `.prot` was written with it: the
/// exchanges end in one that recorded a copy.
pub open spec fn is_recording(x: Exchange) -> bool {
    x matches (Request::WriteProt { data }, Reply::Ended(Ok(_))) && data.documents.len() > 0
        && data.vault is Some
}

/// How many times a copy was recorded.
pub open spec fn recordings(e: Seq<Exchange>) -> nat
    decreases e.len(),
{
    if e.len() == 0 {
        0
    } else if is_recording(e.last()) {
        recordings(e.drop_last()) + 1
    } else {
        recordings(e.drop_last())
    }
}

/// How many files a phase counts where files are kept: those whose copy was
/// recorded. None is read again to be deleted.
spec fn counts_recordings(e: Seq<Exchange>, phase: PhaseView) -> bool {
    match phase {
        PhaseView::WriteFresh { prot } => recordings(e) == 0 && prot.documents.len() == 0,
        PhaseView::ReadFile { batch } => batch.locked == recordings(e),
        PhaseView::Upload { batch, .. } => batch.locked == recordings(e),
        PhaseView::Verify { batch, .. } => batch.locked == recordings(e) && batch.prot.vault is Some,
        PhaseView::Record { batch, .. } => batch.locked == recordings(e)
            && batch.prot.documents.len() > 0 && batch.prot.vault is Some,
        PhaseView::Save { batch, .. } => batch.locked + 1 == recordings(e),
        PhaseView::Reread { .. } => false,
        PhaseView::Remove { .. } => false,
        PhaseView::Finished { .. } => true,
        _ => recordings(e) == 0,
    }
}

/// The vault is recorded once it is settled.
spec fn names_its_vault(phase: PhaseView) -> bool {
    match phase {
        PhaseView::ConfirmVault { prot, .. } => prot.vault is Some,
        PhaseView::Expand { prot, .. } => prot.vault is Some,
        PhaseView::ReadFile { batch } => batch.prot.vault is Some,
        PhaseView::Upload { batch, .. } => batch.prot.vault is Some,
        PhaseView::Verify { batch, .. } => batch.prot.vault is Some,
        PhaseView::Record { batch, .. } => batch.prot.vault is Some,
        PhaseView::Save { batch, .. } => batch.prot.vault is Some,
        PhaseView::Reread { batch, .. } => batch.prot.vault is Some,
        PhaseView::Remove { batch } => batch.prot.vault is Some,
        _ => true,
    }
}

#[verifier::spinoff_prover]
#[verifier::rlimit(40)]
proof fn lemma_recordings_step(e: Seq<Exchange>, run: RunView, reply: ReplyView)
    requires
        run.keep,
        counts_recordings(e, run.phase),
        names_its_vault(run.phase),
        model::request_of(run) is Some,
    ensures
        names_its_vault(model::step(run, reply).phase),
        counts_recordings(
            e.push((model::request_of(run)->0, reply)),
            model::step(run, reply).phase,
        ),
{
    let x = (model::request_of(run)->0, reply);
    let all = e.push(x);
    assert(all.drop_last() =~= e);
    assert(all.last() == x);
    assert(is_recording(x) ==> run.phase is Record || run.phase is WriteFresh);
    if run.phase is Verify {
        let batch = run.phase->Verify_batch;
        let documents = batch.prot.documents;
        prot::lemma_position(documents, batch.files[0]);
        assert(prot::with_document(documents, batch.files[0], run.phase->Verify_id).len() > 0);
    }
}

proof fn lemma_recordings(start: RunView, replies: Seq<ReplyView>)
    requires
        runs::is_start(start),
        start.keep,
    ensures
        counts_recordings(runs::history(start, replies), runs::after(start, replies).phase),
        names_its_vault(runs::after(start, replies).phase),
    decreases replies.len(),
{
    if replies.len() > 0 {
        let shorter = replies.drop_last();
        lemma_recordings(start, shorter);
        runs::lemma_fixed(start, shorter);
        let run = runs::after(start, shorter);
        if model::request_of(run) is Some {
            lemma_recordings_step(runs::history(start, shorter), run, replies.last());
        }
    }
}

/// When files were uploaded and kept, the number told is that of the files
/// whose copy was recorded.
pub proof fn the_number_told_is_that_of_kept_files(
    start: RunView,
    replies: Seq<ReplyView>,
    reply: ReplyView,
)
    requires
        runs::is_start(start),
        start.keep,
        runs::after(start, replies).phase is ReadFile || runs::after(start, replies).phase is Record
            || runs::after(start, replies).phase is Save,
        runs::after(start, replies.push(reply)).phase matches PhaseView::Finished { outcome }
            && outcome is Ok,
    ensures
        model::said(runs::after(start, replies), reply).last() == Line::Out(
            "Uploaded "@ + text::decimal(recordings(runs::history(start, replies.push(reply))))
                + " file(s) to vault \".prot\". Originals kept on disk (--keep); run `dotprot lock` to remove them."@,
        ),
{
    let run = runs::after(start, replies);
    let e = runs::history(start, replies);
    let all = replies.push(reply);
    assert(all.drop_last() =~= replies);
    lemma_recordings(start, replies);
    runs::lemma_fixed(start, replies);
    let longer = runs::history(start, all);
    assert(longer.drop_last() =~= e);
}

} // verus!
