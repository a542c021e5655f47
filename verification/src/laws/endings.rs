//! How runs end: each comes to its end, ends badly only for a reason, and ends
//! well where all goes well.

use super::locking;
use super::runs;
use super::unlocking;
use crate::commands::model;
use crate::commands::model::Command;
use crate::commands::model::PhaseView;
use crate::commands::model::RunView;
use crate::commands::model::SignIn;
use crate::commands::model::Way;
use crate::exchange::Reply;
use crate::exchange::ReplyView;
use crate::exchange::Request;
use crate::exchange::RequestView;
use crate::exchange::Restoring;
use crate::failure::Failure;
use crate::paths;
use crate::paths::PlaceView;
use crate::prot;
use crate::prot::Reading;
use crate::session::Exchange;
use vstd::prelude::*;

verus! {

// ---------------------------------------------------------------------------
// every run comes to its end
// ---------------------------------------------------------------------------
/// Whether a phase that goes through something has some of it left.
pub open spec fn has_work(phase: PhaseView) -> bool {
    match phase {
        PhaseView::Survey { unseen, .. } => unseen.len() > 0,
        PhaseView::Expand { left, .. } => left.len() > 0,
        PhaseView::ReadFile { batch } => batch.files.len() > 0,
        PhaseView::Upload { batch, .. } => batch.files.len() > 0,
        PhaseView::Verify { batch, .. } => batch.files.len() > 0,
        PhaseView::Record { batch, .. } => batch.files.len() > 0,
        PhaseView::Save { batch, .. } => batch.files.len() > 0,
        PhaseView::Reread { batch, .. } => batch.files.len() > 0,
        PhaseView::Remove { batch } => batch.files.len() > 0,
        PhaseView::Probe { recovery } => recovery.documents.len() > 0,
        PhaseView::Fetch { recovery } => recovery.documents.len() > 0,
        PhaseView::Guard { recovery, dirs, .. } => recovery.documents.len() > 0 && dirs.len() > 0,
        PhaseView::Restore { recovery, .. } => recovery.documents.len() > 0,
        _ => true,
    }
}

/// How far a phase is from the end of its run, the weightiest number first.
pub open spec fn distance(phase: PhaseView) -> (nat, nat, nat, nat) {
    match phase {
        PhaseView::Inspect => (10, 0, 0, 0),
        PhaseView::Survey { unseen, .. } => (9, unseen.len(), 0, 0),
        PhaseView::SigningIn { stage: SignIn::Check, .. } => (8, 3, 0, 0),
        PhaseView::SigningIn { stage: SignIn::Ask, .. } => (8, 2, 0, 0),
        PhaseView::SigningIn { stage: SignIn::Enter, .. } => (8, 1, 0, 0),
        PhaseView::SigningIn { stage: SignIn::Recheck, .. } => (8, 0, 0, 0),
        PhaseView::FindToSetUp => (7, 0, 0, 0),
        PhaseView::CreateToSetUp => (6, 0, 0, 0),
        PhaseView::ReadToLock => (7, 0, 0, 0),
        PhaseView::ReadToUnlock => (7, 0, 0, 0),
        PhaseView::WriteFresh { .. } => (6, 0, 0, 0),
        PhaseView::SaveFresh { .. } => (5, 0, 0, 0),
        PhaseView::ConfirmVault { .. } => (4, 0, 0, 0),
        PhaseView::FindVault { .. } => (4, 0, 0, 0),
        PhaseView::CreateVault { .. } => (3, 0, 0, 0),
        PhaseView::Expand { left, .. } => (2, left.len(), 0, 0),
        PhaseView::ReadFile { batch } => (1, batch.files.len(), 6, 0),
        PhaseView::Upload { batch, .. } => (1, batch.files.len(), 5, 0),
        PhaseView::Verify { batch, .. } => (1, batch.files.len(), 4, 0),
        PhaseView::Record { batch, .. } => (1, batch.files.len(), 3, 0),
        PhaseView::Save { batch, .. } => (1, batch.files.len(), 2, 0),
        PhaseView::Reread { batch, .. } => (1, batch.files.len(), 1, 0),
        PhaseView::Remove { batch } => (1, batch.files.len(), 0, 0),
        PhaseView::Probe { recovery } => (1, recovery.documents.len(), 3, 0),
        PhaseView::Fetch { recovery } => (1, recovery.documents.len(), 2, 0),
        PhaseView::Guard { recovery, dirs, .. } => (1, recovery.documents.len(), 1, dirs.len()),
        PhaseView::Restore { recovery, .. } => (1, recovery.documents.len(), 0, 0),
        PhaseView::Finished { .. } => (0, 0, 0, 0),
    }
}

/// Whether one distance is less than another.
pub open spec fn nearer(a: (nat, nat, nat, nat), b: (nat, nat, nat, nat)) -> bool {
    ||| a.0 < b.0
    ||| a.0 == b.0 && a.1 < b.1
    ||| a.0 == b.0 && a.1 == b.1 && a.2 < b.2
    ||| a.0 == b.0 && a.1 == b.1 && a.2 == b.2 && a.3 < b.3
}

#[verifier::spinoff_prover]
#[verifier::rlimit(40)]
proof fn lemma_nearer_session(run: RunView, reply: ReplyView)
    requires
        has_work(run.phase),
        run.phase is SigningIn || run.phase is Inspect || run.phase is Survey,
    ensures
        has_work(model::step(run, reply).phase),
        nearer(distance(model::step(run, reply).phase), distance(run.phase)),
{
}

#[verifier::spinoff_prover]
#[verifier::rlimit(40)]
proof fn lemma_nearer_vault(run: RunView, reply: ReplyView)
    requires
        has_work(run.phase),
        run.phase is FindToSetUp || run.phase is CreateToSetUp || run.phase is ReadToLock || run.phase is ReadToUnlock
            || run.phase is WriteFresh || run.phase is SaveFresh,
    ensures
        has_work(model::step(run, reply).phase),
        nearer(distance(model::step(run, reply).phase), distance(run.phase)),
{
}

#[verifier::spinoff_prover]
#[verifier::rlimit(40)]
proof fn lemma_nearer_settled(run: RunView, reply: ReplyView)
    requires
        has_work(run.phase),
        run.phase is ConfirmVault || run.phase is FindVault || run.phase is CreateVault,
    ensures
        has_work(model::step(run, reply).phase),
        nearer(distance(model::step(run, reply).phase), distance(run.phase)),
{
}

#[verifier::spinoff_prover]
#[verifier::rlimit(40)]
proof fn lemma_nearer_files(run: RunView, reply: ReplyView)
    requires
        has_work(run.phase),
        run.phase is Expand || run.phase is ReadFile || run.phase is Upload || run.phase is Verify,
    ensures
        has_work(model::step(run, reply).phase),
        nearer(distance(model::step(run, reply).phase), distance(run.phase)),
{
}

#[verifier::spinoff_prover]
#[verifier::rlimit(40)]
proof fn lemma_nearer_stored(run: RunView, reply: ReplyView)
    requires
        has_work(run.phase),
        run.phase is Record || run.phase is Save || run.phase is Reread || run.phase is Remove,
    ensures
        has_work(model::step(run, reply).phase),
        nearer(distance(model::step(run, reply).phase), distance(run.phase)),
{
}

#[verifier::spinoff_prover]
#[verifier::rlimit(40)]
proof fn lemma_nearer_documents(run: RunView, reply: ReplyView)
    requires
        has_work(run.phase),
        run.phase is Probe || run.phase is Fetch || run.phase is Guard || run.phase is Restore,
    ensures
        has_work(model::step(run, reply).phase),
        nearer(distance(model::step(run, reply).phase), distance(run.phase)),
{
}

#[verifier::spinoff_prover]
#[verifier::rlimit(40)]
proof fn lemma_nearer_step(run: RunView, reply: ReplyView)
    requires
        has_work(run.phase),
    ensures
        has_work(model::step(run, reply).phase),
        !(run.phase is Finished) ==> nearer(
            distance(model::step(run, reply).phase),
            distance(run.phase),
        ),
{
    match run.phase {
        PhaseView::Inspect => lemma_nearer_session(run, reply),
        PhaseView::Survey { .. } => lemma_nearer_session(run, reply),
        PhaseView::SigningIn { .. } => lemma_nearer_session(run, reply),
        PhaseView::FindToSetUp => lemma_nearer_vault(run, reply),
        PhaseView::CreateToSetUp => lemma_nearer_vault(run, reply),
        PhaseView::ReadToLock => lemma_nearer_vault(run, reply),
        PhaseView::ReadToUnlock => lemma_nearer_vault(run, reply),
        PhaseView::WriteFresh { .. } => lemma_nearer_vault(run, reply),
        PhaseView::SaveFresh { .. } => lemma_nearer_vault(run, reply),
        PhaseView::ConfirmVault { .. } => lemma_nearer_settled(run, reply),
        PhaseView::FindVault { .. } => lemma_nearer_settled(run, reply),
        PhaseView::CreateVault { .. } => lemma_nearer_settled(run, reply),
        PhaseView::Expand { .. } => lemma_nearer_files(run, reply),
        PhaseView::ReadFile { .. } => lemma_nearer_files(run, reply),
        PhaseView::Upload { .. } => lemma_nearer_files(run, reply),
        PhaseView::Verify { .. } => lemma_nearer_files(run, reply),
        PhaseView::Record { .. } => lemma_nearer_stored(run, reply),
        PhaseView::Save { .. } => lemma_nearer_stored(run, reply),
        PhaseView::Reread { .. } => lemma_nearer_stored(run, reply),
        PhaseView::Remove { .. } => lemma_nearer_stored(run, reply),
        PhaseView::Probe { .. } => lemma_nearer_documents(run, reply),
        PhaseView::Fetch { .. } => lemma_nearer_documents(run, reply),
        PhaseView::Guard { .. } => lemma_nearer_documents(run, reply),
        PhaseView::Restore { .. } => lemma_nearer_documents(run, reply),
        PhaseView::Finished { .. } => {},
    }
}

proof fn lemma_has_work(start: RunView, replies: Seq<ReplyView>)
    requires
        runs::is_start(start),
    ensures
        has_work(runs::after(start, replies).phase),
    decreases replies.len(),
{
    if replies.len() > 0 {
        lemma_has_work(start, replies.drop_last());
        lemma_nearer_step(runs::after(start, replies.drop_last()), replies.last());
    }
}

/// Every reply brings a run nearer to its end, so that it gets there after so
/// many: no run asks for ever.
pub proof fn every_reply_brings_a_run_nearer_its_end(
    start: RunView,
    replies: Seq<ReplyView>,
    reply: ReplyView,
)
    requires
        runs::is_start(start),
        !(runs::after(start, replies).phase is Finished),
    ensures
        nearer(
            distance(runs::after(start, replies.push(reply)).phase),
            distance(runs::after(start, replies).phase),
        ),
{
    lemma_has_work(start, replies);
    lemma_nearer_step(runs::after(start, replies), reply);
    assert(replies.push(reply).drop_last() =~= replies);
}

// ---------------------------------------------------------------------------
// why runs end badly
// ---------------------------------------------------------------------------
/// Whether a reply answers what was asked for.
pub open spec fn answers(request: RequestView, reply: ReplyView) -> bool {
    match request {
        Request::IsSignedIn => reply is Flag,
        Request::Confirm { .. } => reply is Flag,
        Request::SignIn => reply is Ended,
        Request::FindVault { .. } => reply is Vault,
        Request::VaultName { .. } => reply is Vault,
        Request::CreateVault { .. } => reply is Created,
        Request::CreateDocument { .. } => reply is Created,
        Request::EditDocument { .. } => reply is Ended,
        Request::GetDocument { .. } => reply is Document,
        Request::ReadProt => reply is Prot,
        Request::WriteProt { .. } => reply is Ended,
        Request::SaveBackup { .. } => reply is Ended,
        Request::Glob { .. } => reply is Matches,
        Request::ReadFile { .. } => reply is Content,
        Request::RemoveFile { .. } => reply is Removed,
        Request::Exists { .. } => reply is Presence,
        Request::IsLink { .. } => reply is Link,
        Request::WriteNew { .. } => reply is Restored,
    }
}

/// The failure that a reply tells of, as it is passed on.
pub open spec fn told_in(request: RequestView, reply: ReplyView) -> Option<Failure<Seq<char>>> {
    match (request, reply) {
        (Request::SaveBackup { .. }, _) => None,
        (_, Reply::Flag(Err(e))) => Some(e),
        (_, Reply::Ended(Err(e))) => Some(e),
        (_, Reply::Vault(Err(e))) => Some(e),
        (_, Reply::Created(Err(e))) => Some(e),
        (_, Reply::Document(Err(e))) => Some(e),
        (_, Reply::Matches(Err(message))) => Some(Failure::Outside { message }),
        (_, Reply::Content(Err(message))) => Some(Failure::Outside { message }),
        (_, Reply::Removed(Err(message))) => Some(Failure::Outside { message }),
        (_, Reply::Restored(Restoring::Failed { message })) => Some(Failure::Outside { message }),
        (_, _) => None,
    }
}

/// How a run is over.
pub open spec fn ends_with(run: RunView, reply: ReplyView, f: Failure<Seq<char>>) -> bool {
    model::step(run, reply).phase == (PhaseView::Finished { outcome: Err(f) })
}

/// A reply that does not answer what was asked for ends a run as an internal
/// error, and one that tells of a failure ends it with just that failure. Only
/// of a file that is read again before it is deleted is more told.
#[verifier::spinoff_prover]
#[verifier::rlimit(40)]
pub proof fn a_failure_is_passed_on(run: RunView, reply: ReplyView)
    requires
        model::request_of(run) is Some,
    ensures
        !answers(model::request_of(run)->0, reply) ==> ends_with(
            run,
            reply,
            Failure::UnexpectedReply,
        ),
        answers(model::request_of(run)->0, reply) && !(run.phase is Reread) ==> (told_in(
            model::request_of(run)->0,
            reply,
        ) matches Some(f) ==> ends_with(run, reply, f)),
{
}

/// A yes is what lets the user sign in, and a session that is usable is what
/// lets a command begin; a no, and a session that is still not usable, end it.
pub proof fn signing_in_takes_a_yes_and_a_session(run: RunView, yes: bool, command: Command)
    requires
        run.phase matches PhaseView::SigningIn { command: c, .. } && c == command,
    ensures
        ({
            let next = model::step(run, Reply::Flag(Ok(yes))).phase;
            let ended = model::step(run, Reply::Ended(Ok(()))).phase;
            match run.phase->stage {
                SignIn::Check => next == (if yes {
                    model::once_signed_in(command)
                } else {
                    PhaseView::SigningIn { stage: SignIn::Ask, command }
                }),
                SignIn::Ask => next == (if yes {
                    PhaseView::SigningIn { stage: SignIn::Enter, command }
                } else {
                    PhaseView::Finished { outcome: Err(Failure::NotSignedIn) }
                }),
                SignIn::Enter => ended == (PhaseView::SigningIn {
                    stage: SignIn::Recheck,
                    command,
                }),
                SignIn::Recheck => next == (if yes {
                    model::once_signed_in(command)
                } else {
                    PhaseView::Finished { outcome: Err(Failure::StillNotSignedIn) }
                }),
            }
        }),
        model::once_signed_in(Command::Setup) == PhaseView::FindToSetUp,
        model::once_signed_in(Command::Lock) == PhaseView::ReadToLock,
        model::once_signed_in(Command::Unlock) == PhaseView::ReadToUnlock,
{
}

/// A recorded vault is used just where it is the one named `.prot`. One with
/// another name, and one that is gone, end the run, which tells its ID.
pub proof fn a_wrong_vault_is_refused(run: RunView, name: Seq<char>)
    requires
        run.phase is ConfirmVault,
    ensures
        name != ".prot"@ ==> ends_with(
            run,
            Reply::Vault(Ok(Some(name))),
            Failure::WrongVault { id: run.phase->ConfirmVault_id, name },
        ),
        name == ".prot"@ ==> !(model::step(run, Reply::Vault(Ok(Some(name)))).phase matches PhaseView::Finished {
            outcome: Err(Failure::WrongVault { .. }),
        }),
        ends_with(
            run,
            Reply::Vault(Ok(None)),
            Failure::VaultGone { id: run.phase->ConfirmVault_id },
        ),
{
}

/// A vault that is missing is created to lock and to set up; to unlock there is
/// nothing to restore from.
pub proof fn only_unlocking_needs_the_vault(run: RunView)
    ensures
        run.phase matches PhaseView::FindVault { way, prot } ==> match way {
            Way::Lock => model::step(run, Reply::Vault(Ok(None))).phase == (PhaseView::CreateVault {
                prot,
            }),
            Way::Unlock => ends_with(run, Reply::Vault(Ok(None)), Failure::VaultMissing),
        },
        run.phase is FindToSetUp ==> model::step(run, Reply::Vault(Ok(None))).phase
            == PhaseView::CreateToSetUp,
{
}

/// A copy is taken for good just where it is the file byte for byte, and a file
/// is deleted just where it still is what was stored.
pub proof fn a_difference_of_one_byte_stops_locking(run: RunView, bytes: Seq<u8>)
    ensures
        run.phase matches PhaseView::Verify { batch, content, .. } ==> if bytes == content {
            model::step(run, Reply::Document(Ok(bytes))).phase is Record
        } else {
            ends_with(
                run,
                Reply::Document(Ok(bytes)),
                Failure::VerificationFailed { file: batch.files[0] },
            )
        },
        run.phase matches PhaseView::Reread { batch, content } ==> if bytes == content {
            model::step(run, Reply::Content(Ok(bytes))).phase == (PhaseView::Remove { batch })
        } else {
            ends_with(
                run,
                Reply::Content(Ok(bytes)),
                Failure::ChangedOnDisk { file: batch.files[0] },
            )
        },
{
}

/// A file that could not be read again is left alone, and the error is told.
pub proof fn a_file_that_cannot_be_read_again_is_left(run: RunView, cause: Seq<char>)
    requires
        run.phase is Reread,
    ensures
        ends_with(
            run,
            Reply::Content(Err(cause)),
            Failure::Reread { file: run.phase->Reread_batch.files[0], cause },
        ),
{
}

/// There is nothing to unlock where there is no `.prot`, and where it records no
/// document.
pub proof fn nothing_to_unlock_is_told(run: RunView, t: Seq<char>)
    requires
        run.phase is ReadToUnlock,
    ensures
        ends_with(
            run,
            Reply::Prot(Reading::Missing),
            Failure::NoProt { dir: run.place.cwd },
        ),
        prot::parsed(t).documents.len() == 0 ==> ends_with(
            run,
            Reply::Prot(Reading::Text(t)),
            Failure::NothingLocked,
        ),
{
}

/// A `.prot` that cannot be read ends a run, which tells where it is and why.
pub proof fn an_unreadable_prot_is_told(run: RunView, cause: Seq<char>)
    requires
        model::request_of(run) == Some(Request::<Seq<char>, Seq<u8>, prot::ProtView>::ReadProt),
    ensures
        ends_with(
            run,
            Reply::Prot(Reading::Failed { cause }),
            Failure::ReadFailed { path: paths::taken_from(run.place, ".prot"@), cause },
        ),
{
}

/// What stands where a file is to be restored, and a link on the way there, end
/// unlocking, which tells the file's path.
pub proof fn a_refused_restore_is_told(run: RunView, cause: Seq<char>, link: Option<bool>)
    ensures
        run.phase matches PhaseView::Restore { recovery, .. } ==> ends_with(
            run,
            Reply::Restored(Restoring::Refused { cause }),
            Failure::RestoreRefused {
                path: paths::taken_from(run.place, recovery.documents[0].0),
                cause,
            },
        ),
        run.phase matches PhaseView::Guard { recovery, dirs, .. } ==> (link != Some(false)
            ==> ends_with(
            run,
            Reply::Link(link),
            Failure::LinkedDirectory {
                path: paths::taken_from(run.place, recovery.documents[0].0),
                dir: dirs[0],
            },
        )),
{
}

// ---------------------------------------------------------------------------
// where all goes well
// ---------------------------------------------------------------------------
/// Whether a file that was read before the `i`-th exchange held these bytes.
pub open spec fn is_steady(e: Seq<Exchange>, i: int, file: Seq<char>, bytes: Seq<u8>) -> bool {
    forall|j: int, b: Seq<u8>|
        0 <= j < i && #[trigger] locking::reads(e[j], file, b) ==> b == bytes
}

/// Whether the `i`-th exchange went well: the session came about, the vault is
/// the right one, what was stored is what comes back, no file changes while it
/// is read, and nothing fails. A backup may.
pub open spec fn goes_well(e: Seq<Exchange>, i: int) -> bool {
    match e[i] {
        (Request::IsSignedIn, Reply::Flag(Ok(yes))) => yes || i == 0 || !(e[i - 1].0 is SignIn),
        (Request::Confirm { .. }, Reply::Flag(Ok(yes))) => yes,
        (Request::SignIn, Reply::Ended(Ok(_))) => true,
        (Request::FindVault { .. }, Reply::Vault(Ok(_))) => true,
        (Request::VaultName { .. }, Reply::Vault(Ok(Some(name)))) => name == ".prot"@,
        (Request::CreateVault { .. }, Reply::Created(Ok(_))) => true,
        (Request::CreateDocument { .. }, Reply::Created(Ok(_))) => true,
        (Request::EditDocument { .. }, Reply::Ended(Ok(_))) => true,
        (Request::GetDocument { .. }, Reply::Document(Ok(bytes))) => i > 0 ==> match e[i - 1].0 {
            Request::CreateDocument { content, .. } => bytes == content,
            Request::EditDocument { content, .. } => bytes == content,
            _ => true,
        },
        (Request::ReadProt, Reply::Prot(reading)) => !(reading is Failed),
        (Request::WriteProt { .. }, Reply::Ended(Ok(_))) => true,
        (Request::SaveBackup { .. }, Reply::Ended(_)) => true,
        (Request::Glob { .. }, Reply::Matches(Ok(_))) => true,
        (Request::ReadFile { file }, Reply::Content(Ok(bytes))) => is_steady(e, i, file, bytes),
        (Request::RemoveFile { .. }, Reply::Removed(Ok(_))) => true,
        (Request::Exists { .. }, Reply::Presence(_)) => true,
        (Request::IsLink { .. }, Reply::Link(link)) => link == Some(false),
        (Request::WriteNew { .. }, Reply::Restored(outcome)) => outcome is Written,
        _ => false,
    }
}

/// Whether all went well so far.
pub open spec fn all_well(e: Seq<Exchange>) -> bool {
    forall|i: int| 0 <= i < e.len() ==> #[trigger] goes_well(e, i)
}

/// What went well in a longer history went well before.
pub proof fn lemma_well_before(e: Seq<Exchange>, x: Exchange)
    requires
        all_well(e.push(x)),
    ensures
        all_well(e),
        goes_well(e.push(x), e.len() as int),
{
    let all = e.push(x);
    assert(goes_well(all, e.len() as int));
    assert forall|i: int| 0 <= i < e.len() implies #[trigger] goes_well(e, i) by {
        assert(goes_well(all, i));
        assert(all[i] == e[i]);
        if i > 0 {
            assert(all[i - 1] == e[i - 1]);
        }
        if let (Request::ReadFile { file }, Reply::Content(Ok(bytes))) = e[i] {
            assert(is_steady(all, i, file, bytes));
            assert forall|j: int, b: Seq<u8>|
                0 <= j < i && #[trigger] locking::reads(e[j], file, b) implies b == bytes by {
                assert(locking::reads(all[j], file, b));
            }
        }
    }
}

/// How far signing in has come, as the last exchange shows.
pub open spec fn is_rechecking(e: Seq<Exchange>, phase: PhaseView) -> bool {
    phase matches PhaseView::SigningIn { stage, .. } ==> (stage == SignIn::Recheck <==> e.len() > 0
        && e.last().0 is SignIn)
}

/// Signing in is checked again just after the user signed in.
#[verifier::spinoff_prover]
#[verifier::rlimit(40)]
pub proof fn lemma_rechecking(start: RunView, replies: Seq<ReplyView>)
    requires
        runs::is_start(start),
    ensures
        is_rechecking(runs::history(start, replies), runs::after(start, replies).phase),
    decreases replies.len(),
{
    if replies.len() > 0 {
        lemma_rechecking(start, replies.drop_last());
    }
}

/// Whether what `.prot` was found to hold can be unlocked: it records documents,
/// all of them with plain paths.
pub open spec fn can_be_unlocked(x: Exchange, place: PlaceView) -> bool {
    match x {
        (Request::ReadProt, Reply::Prot(Reading::Text(t))) => prot::parsed(t).documents.len() > 0
            && unlocking::all_plain(place.style, prot::parsed(t).documents),
        (Request::ReadProt, _) => false,
        (Request::FindVault { .. }, Reply::Vault(Ok(found))) => found is Some,
        _ => true,
    }
}

#[verifier::spinoff_prover]
#[verifier::rlimit(40)]
proof fn lemma_unlock_step(e: Seq<Exchange>, run: RunView, reply: ReplyView)
    requires
        runs::in_unlock(run.phase),
        !(run.phase is Finished),
        is_rechecking(e, run.phase),
        goes_well(e.push((model::request_of(run)->0, reply)), e.len() as int),
        can_be_unlocked((model::request_of(run)->0, reply), run.place),
    ensures
        !(model::step(run, reply).phase matches PhaseView::Finished { outcome } && outcome is Err),
{
    let x = (model::request_of(run)->0, reply);
    let all = e.push(x);
    assert(all[e.len() as int] == x);
    if e.len() > 0 {
        assert(all[e.len() - 1] == e.last());
    }
    if let Reply::Prot(Reading::Text(t)) = reply {
        unlocking::lemma_first_refused(run.place.style, prot::parsed(t).documents);
        if let Some(file) = model::first_refused(run.place.style, prot::parsed(t).documents) {
            let documents = prot::parsed(t).documents;
            let i = choose|i: int| 0 <= i < documents.len() && (#[trigger] documents[i]).0 == file;
            assert(paths::is_plain(run.place.style, documents[i].0));
        }
    }
}

/// Unlocking gets on: where `.prot` records plain paths, the vault is there and
/// nothing fails, it never ends badly, whichever of the files are on disk
/// already.
pub proof fn unlocking_gets_on(start: RunView, replies: Seq<ReplyView>)
    requires
        runs::is_start_of(start, Command::Unlock),
        all_well(runs::history(start, replies)),
        forall|i: int|
            0 <= i < runs::history(start, replies).len() ==> can_be_unlocked(
                #[trigger] runs::history(start, replies)[i],
                start.place,
            ),
    ensures
        !(runs::after(start, replies).phase matches PhaseView::Finished { outcome } && outcome is Err),
    decreases replies.len(),
{
    if replies.len() > 0 {
        let shorter = replies.drop_last();
        let run = runs::after(start, shorter);
        let e = runs::history(start, shorter);
        let all = runs::history(start, replies);
        runs::lemma_phases(start, shorter);
        runs::lemma_fixed(start, shorter);
        lemma_rechecking(start, shorter);
        if model::request_of(run) is Some {
            let x = (model::request_of(run)->0, replies.last());
            assert(all == e.push(x));
            lemma_well_before(e, x);
            assert forall|i: int| 0 <= i < e.len() implies can_be_unlocked(
                #[trigger] e[i],
                start.place,
            ) by {
                assert(all[i] == e[i]);
            }
            assert(can_be_unlocked(all[e.len() as int], start.place));
            unlocking_gets_on(start, shorter);
            lemma_unlock_step(e, run, replies.last());
        } else {
            unlocking_gets_on(start, shorter);
        }
    }
}

/// Unlocking does its work: where `.prot` records plain paths, the vault is there
/// and nothing fails, the run that is over ended well, and every recorded file
/// is on disk.
pub proof fn unlocking_does_its_work(
    start: RunView,
    replies: Seq<ReplyView>,
    entry: (Seq<char>, Seq<char>),
)
    requires
        runs::is_start_of(start, Command::Unlock),
        all_well(runs::history(start, replies)),
        forall|i: int|
            0 <= i < runs::history(start, replies).len() ==> can_be_unlocked(
                #[trigger] runs::history(start, replies)[i],
                start.place,
            ),
        runs::after(start, replies).phase is Finished,
        unlocking::was_listed(runs::history(start, replies), entry),
    ensures
        runs::after(start, replies).phase matches PhaseView::Finished { outcome } && outcome is Ok,
        unlocking::is_on_disk(runs::history(start, replies), entry.0),
{
    unlocking_gets_on(start, replies);
    unlocking::a_success_leaves_every_file_on_disk(start, replies, entry);
}

/// A file that is on disk already is passed over: unlocking goes on with the
/// next recorded document, and ends well after the last. One that is missing is
/// fetched.
pub proof fn a_file_that_is_there_is_passed_over(run: RunView, there: Option<bool>)
    requires
        run.phase is Probe,
        run.phase->Probe_recovery.documents.len() > 0,
    ensures
        ({
            let recovery = run.phase->Probe_recovery;
            let next = model::step(run, Reply::Presence(there)).phase;
            if there == Some(false) {
                next matches PhaseView::Fetch { recovery: r } && r == recovery
            } else if recovery.documents.len() > 1 {
                next matches PhaseView::Probe { recovery: r } && r.documents
                    == recovery.documents.skip(1) && r.vault == recovery.vault && r.unlocked
                    == recovery.unlocked
            } else {
                next matches PhaseView::Finished { outcome } && outcome is Ok
            }
        }),
{
}

/// A file that was restored is done: unlocking goes on with the next recorded
/// document, and ends well after the last.
pub proof fn a_restored_file_is_done(run: RunView)
    requires
        run.phase is Restore,
        run.phase->Restore_recovery.documents.len() > 0,
    ensures
        ({
            let recovery = run.phase->Restore_recovery;
            let next = model::step(run, Reply::Restored(Restoring::Written)).phase;
            if recovery.documents.len() > 1 {
                next matches PhaseView::Probe { recovery: r } && r.documents
                    == recovery.documents.skip(1) && r.vault == recovery.vault && r.unlocked
                    == recovery.unlocked + 1
            } else {
                next matches PhaseView::Finished { outcome } && outcome is Ok
            }
        }),
{
}

/// Setting up never ends badly where nothing fails.
#[verifier::spinoff_prover]
#[verifier::rlimit(40)]
pub proof fn setting_up_gets_on(start: RunView, replies: Seq<ReplyView>)
    requires
        runs::is_start_of(start, Command::Setup),
        all_well(runs::history(start, replies)),
    ensures
        !(runs::after(start, replies).phase matches PhaseView::Finished { outcome } && outcome is Err),
    decreases replies.len(),
{
    if replies.len() > 0 {
        let shorter = replies.drop_last();
        let run = runs::after(start, shorter);
        let e = runs::history(start, shorter);
        let all = runs::history(start, replies);
        runs::lemma_phases(start, shorter);
        lemma_rechecking(start, shorter);
        if model::request_of(run) is Some {
            let x = (model::request_of(run)->0, replies.last());
            assert(all == e.push(x));
            lemma_well_before(e, x);
            assert(all[e.len() as int] == x);
            if e.len() > 0 {
                assert(all[e.len() - 1] == e.last());
            }
            setting_up_gets_on(start, shorter);
        } else {
            setting_up_gets_on(start, shorter);
        }
    }
}

} // verus!
