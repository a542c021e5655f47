//! What runs ask for, and when.

use super::locking;
use super::runs;
use super::unlocking;
use crate::backup;
use crate::commands::model;
use crate::commands::model::Command;
use crate::commands::model::PhaseView;
use crate::commands::model::RunView;
use crate::commands::model::Way;
use crate::exchange::Entry;
use crate::exchange::Reply;
use crate::exchange::ReplyView;
use crate::exchange::Request;
use crate::exchange::RequestView;
use crate::paths;
use crate::prot;
use crate::prot::ProtView;
use crate::prot::Reading;
use crate::session::Exchange;
use vstd::prelude::*;

verus! {

/// Whether a request holds what every request of its sort holds: the vault that
/// is looked for and created is the one named `.prot`, with its description,
/// the user is asked whether to sign in, and what is restored is for its owner
/// alone.
pub open spec fn is_in_order(request: RequestView) -> bool {
    match request {
        Request::FindVault { name } => name == ".prot"@,
        Request::CreateVault { name, description } => name == ".prot"@ && description
            == "Managed by dotprot — protected .env and config files."@,
        Request::Confirm { question } => question
            == "You are not signed in to 1Password. Sign in now?"@,
        Request::WriteNew { mode, .. } => mode == 0o600,
        _ => true,
    }
}

/// Every run asks for the vault named `.prot` and for no other, whether it locks,
/// unlocks or sets up.
#[verifier::spinoff_prover]
#[verifier::rlimit(40)]
pub proof fn every_request_is_in_order(run: RunView)
    ensures
        model::request_of(run) matches Some(request) ==> is_in_order(request),
{
}

/// Every command begins by asking whether anyone is signed in, and goes on with
/// its own work once someone is.
pub proof fn every_command_begins_with_the_session(run: RunView, command: Command)
    requires
        runs::is_start_of(run, command),
    ensures
        runs::is_start(run),
        model::request_of(run) matches Some(Request::IsSignedIn),
        command == Command::Setup ==> model::request_of(
            model::step(run, Reply::Flag(Ok(true))),
        ) matches Some(Request::FindVault { .. }),
        command == Command::Lock ==> model::step(run, Reply::Flag(Ok(true))).phase is ReadToLock,
        command == Command::Unlock ==> model::step(run, Reply::Flag(Ok(true))).phase
            is ReadToUnlock,
        command == Command::Lock || command == Command::Unlock ==> model::request_of(
            model::step(run, Reply::Flag(Ok(true))),
        ) matches Some(Request::ReadProt),
{
}

/// To choose, each recorded file is asked about in turn, the next one only once
/// the last was answered; what is found out counts for just the file that was
/// asked about.
pub proof fn the_choice_asks_about_each_file_in_turn(run: RunView, there: Option<bool>)
    requires
        run.phase is Survey,
        run.phase->unseen.len() > 0,
    ensures
        model::request_of(run) == Some(
            Request::<Seq<char>, Seq<u8>, ProtView>::Exists { file: run.phase->unseen[0].0 },
        ),
        run.phase->unseen.len() > 1 ==> ({
            let next = model::step(run, Reply::Presence(there)).phase;
            &&& next is Survey
            &&& next->unseen == run.phase->unseen.skip(1)
            &&& there == Some(false) ==> next->missing == run.phase->missing.push(
                run.phase->unseen[0].0,
            ) && next->present == run.phase->present
            &&& there != Some(false) ==> next->present == run.phase->present.push(
                run.phase->unseen[0].0,
            ) && next->missing == run.phase->missing
        }),
{
}

/// A file of which it could not be found out whether it is on disk counts as
/// being there, so that nothing is overwritten.
pub proof fn what_cannot_be_found_out_counts_as_there(there: Option<bool>)
    ensures
        model::counts_as_present(there) <==> there != Some(false),
{
}

// ---------------------------------------------------------------------------
// the vault
// ---------------------------------------------------------------------------
/// The exchange shows that there is no vault named `.prot`.
pub open spec fn shows_no_vault(x: Exchange) -> bool {
    match x {
        (Request::FindVault { name }, Reply::Vault(Ok(None))) => name == ".prot"@,
        _ => false,
    }
}

/// The exchange shows that there is a vault named `.prot`, or creates it.
pub open spec fn shows_vault(x: Exchange) -> bool {
    match x {
        (Request::FindVault { name }, Reply::Vault(Ok(Some(_)))) => name == ".prot"@,
        (Request::CreateVault { name, .. }, Reply::Created(Ok(_))) => name == ".prot"@,
        _ => false,
    }
}

spec fn is_creating(e: Seq<Exchange>, phase: PhaseView) -> bool {
    phase is CreateVault || phase is CreateToSetUp ==> e.len() > 0 && shows_no_vault(e.last())
}

#[verifier::spinoff_prover]
#[verifier::rlimit(40)]
proof fn lemma_creating(start: RunView, replies: Seq<ReplyView>)
    requires
        runs::is_start(start),
    ensures
        is_creating(runs::history(start, replies), runs::after(start, replies).phase),
    decreases replies.len(),
{
    if replies.len() > 0 {
        lemma_creating(start, replies.drop_last());
    }
}

/// A vault is created only where it was just found that there is none.
pub proof fn a_vault_is_created_only_where_there_is_none(start: RunView, replies: Seq<ReplyView>)
    requires
        runs::is_start(start),
    ensures
        model::request_of(runs::after(start, replies)) matches Some(Request::CreateVault { .. })
            ==> runs::history(start, replies).len() > 0 && shows_no_vault(
            runs::history(start, replies).last(),
        ),
{
    lemma_creating(start, replies);
}

/// Setting up ends well just after the vault named `.prot` was found, or created
/// under that name.
pub proof fn setting_up_leaves_a_vault(start: RunView, replies: Seq<ReplyView>, reply: ReplyView)
    requires
        runs::is_start_of(start, Command::Setup),
        !(runs::after(start, replies).phase is Finished),
        runs::after(start, replies.push(reply)).phase matches PhaseView::Finished { outcome }
            && outcome is Ok,
    ensures
        shows_vault(runs::history(start, replies.push(reply)).last()),
{
    runs::lemma_phases(start, replies);
    assert(replies.push(reply).drop_last() =~= replies);
}

// ---------------------------------------------------------------------------
// what `.prot` says
// ---------------------------------------------------------------------------
/// Whether all of these are among those.
pub open spec fn are_among<T>(some: Seq<T>, all: Seq<T>) -> bool {
    forall|k: int| 0 <= k < some.len() ==> all.contains(#[trigger] some[k])
}

/// What a phase has of what `.prot` was last found to hold.
spec fn keeps_to_held(e: Seq<Exchange>, run: RunView) -> bool {
    let held = locking::last_held(e, paths::taken_from(run.place, prot::PROT_FILE@));
    match run.phase {
        PhaseView::Survey { unseen, .. } => held matches Some(h) && are_among(unseen, h.documents),
        PhaseView::WriteFresh { prot } => held == Some(prot) && prot == prot::fresh(),
        PhaseView::SaveFresh { prot } => held == Some(prot) && prot == prot::fresh(),
        PhaseView::ConfirmVault { prot, id, .. } => held == Some(prot) && prot.vault == Some(id),
        PhaseView::FindVault { prot, .. } => held == Some(prot) && prot.vault is None,
        PhaseView::CreateVault { prot } => held == Some(prot) && prot.vault is None,
        PhaseView::Probe { recovery } => held matches Some(h) && are_among(
            recovery.documents,
            h.documents,
        ),
        PhaseView::Fetch { recovery } => held matches Some(h) && are_among(
            recovery.documents,
            h.documents,
        ),
        PhaseView::Guard { recovery, .. } => held matches Some(h) && are_among(
            recovery.documents,
            h.documents,
        ),
        PhaseView::Restore { recovery, .. } => held matches Some(h) && are_among(
            recovery.documents,
            h.documents,
        ),
        _ => true,
    }
}

proof fn lemma_among_rest(
    some: Seq<(Seq<char>, Seq<char>)>,
    all: Seq<(Seq<char>, Seq<char>)>,
)
    ensures
        are_among(some, all) && some.len() > 0 ==> are_among(some.skip(1), all),
        are_among(all, all),
{
    if are_among(some, all) && some.len() > 0 {
        assert forall|k: int| 0 <= k < some.skip(1).len() implies all.contains(
            #[trigger] some.skip(1)[k],
        ) by {
            assert(some.skip(1)[k] == some[k + 1]);
        }
    }
}

#[verifier::spinoff_prover]
#[verifier::rlimit(40)]
proof fn lemma_keeps_step(e: Seq<Exchange>, run: RunView, reply: ReplyView)
    requires
        keeps_to_held(e, run),
        unlocking::has_document(run.phase),
        model::request_of(run) is Some,
    ensures
        keeps_to_held(e.push((model::request_of(run)->0, reply)), model::step(run, reply)),
{
    let x = (model::request_of(run)->0, reply);
    let all = e.push(x);
    let path = paths::taken_from(run.place, prot::PROT_FILE@);
    assert(all.drop_last() =~= e);
    assert(all.last() == x);
    let held = locking::last_held(all, path);
    match run.phase {
        PhaseView::Survey { unseen, .. } => {
            lemma_among_rest(unseen, held->0.documents);
        },
        PhaseView::Inspect => {
            lemma_among_rest(seq![], held->0.documents);
        },
        PhaseView::Probe { recovery } => {
            lemma_among_rest(recovery.documents, held->0.documents);
        },
        PhaseView::Restore { recovery, .. } => {
            lemma_among_rest(recovery.documents, held->0.documents);
        },
        PhaseView::ConfirmVault { .. } => {
            lemma_among_rest(seq![], held->0.documents);
        },
        PhaseView::FindVault { .. } => {
            lemma_among_rest(seq![], held->0.documents);
        },
        _ => {},
    }
}

proof fn lemma_keeps(start: RunView, replies: Seq<ReplyView>)
    requires
        runs::is_start(start),
    ensures
        keeps_to_held(runs::history(start, replies), runs::after(start, replies)),
    decreases replies.len(),
{
    if replies.len() > 0 {
        let shorter = replies.drop_last();
        let run = runs::after(start, shorter);
        lemma_keeps(start, shorter);
        unlocking::lemma_has_document(start, shorter);
        if model::request_of(run) is Some {
            lemma_keeps_step(runs::history(start, shorter), run, replies.last());
        }
    }
}

/// Whether a request is about what `.prot` was last found to hold: the vault it
/// records is confirmed, and only where it records none is one looked for; and
/// only files that it records are looked for on disk and restored.
pub open spec fn is_about_held(held: ProtView, request: RequestView) -> bool {
    match request {
        Request::VaultName { id } => held.vault == Some(id),
        Request::FindVault { .. } => held.vault is None,
        Request::Exists { file } => is_recorded(held, file),
        Request::WriteNew { file, .. } => is_recorded(held, file),
        _ => true,
    }
}

/// Whether contents record a document for a file.
pub open spec fn is_recorded(held: ProtView, file: Seq<char>) -> bool {
    exists|k: int| 0 <= k < held.documents.len() && (#[trigger] held.documents[k]).0 == file
}

/// A run acts on what `.prot` was last found to hold.
pub proof fn a_run_acts_on_what_prot_holds(start: RunView, replies: Seq<ReplyView>)
    requires
        runs::is_start(start),
    ensures
        ({
            let e = runs::history(start, replies);
            let run = runs::after(start, replies);
            let held = locking::last_held(e, paths::taken_from(start.place, ".prot"@));
            match (model::request_of(run), held) {
                (Some(request), Some(h)) => run.phase is FindToSetUp || is_about_held(h, request),
                (Some(Request::VaultName { .. }), None) => false,
                (Some(Request::FindVault { .. }), None) => run.phase is FindToSetUp,
                (Some(Request::Exists { .. }), None) => false,
                (Some(Request::WriteNew { .. }), None) => false,
                _ => true,
            }
        }),
{
    let run = runs::after(start, replies);
    let e = runs::history(start, replies);
    lemma_keeps(start, replies);
    unlocking::lemma_has_document(start, replies);
    runs::lemma_fixed(start, replies);
    let h = locking::last_held(e, paths::taken_from(start.place, prot::PROT_FILE@))->0;
    match run.phase {
        PhaseView::Survey { unseen, .. } => {
            lemma_recorded(h, unseen);
        },
        PhaseView::Probe { recovery } => {
            lemma_recorded(h, recovery.documents);
        },
        PhaseView::Restore { recovery, .. } => {
            lemma_recorded(h, recovery.documents);
        },
        _ => {},
    }
}

proof fn lemma_recorded(held: ProtView, documents: Seq<(Seq<char>, Seq<char>)>)
    requires
        documents.len() > 0,
        are_among(documents, held.documents),
    ensures
        is_recorded(held, documents[0].0),
{
    let k = choose|k: int| 0 <= k < held.documents.len() && held.documents[k] == documents[0];
    assert(held.documents[k].0 == documents[0].0);
}

/// Where there is no `.prot`, locking writes the first one before anything else:
/// it names no vault, records nothing, and protects `.env*`.
pub proof fn the_first_prot_protects_env_files(run: RunView)
    requires
        run.phase is ReadToLock,
    ensures
        model::request_of(model::step(run, Reply::Prot(Reading::Missing))) matches Some(
            Request::WriteProt { data },
        ) && data.vault is None && data.documents.len() == 0 && data.patterns == seq![".env*"@],
{
}

/// Where there is a `.prot`, locking goes on with what it holds: the vault it
/// records is confirmed, or looked for where it records none.
pub proof fn locking_goes_on_with_what_prot_holds(run: RunView, t: Seq<char>)
    requires
        run.phase is ReadToLock,
    ensures
        match prot::parsed(t).vault {
            Some(id) => model::step(run, Reply::Prot(Reading::Text(t))).phase == (
            PhaseView::ConfirmVault { way: Way::Lock, prot: prot::parsed(t), id }),
            None => model::step(run, Reply::Prot(Reading::Text(t))).phase == (PhaseView::FindVault {
                way: Way::Lock,
                prot: prot::parsed(t),
            }),
        },
{
}

/// Whether a phase begins to lock what these contents list, with this vault
/// recorded: nothing was found yet, and no pattern is left out.
pub open spec fn begins_to_lock(phase: PhaseView, prot: ProtView, id: Seq<char>) -> bool {
    &&& phase is Expand
    &&& phase->Expand_vault == id
    &&& phase->Expand_prot.vault == Some(id)
    &&& phase->Expand_prot.documents == prot.documents
    &&& phase->Expand_prot.patterns == prot.patterns
    &&& phase->left == prot.patterns
    &&& phase->found.len() == 0
}

/// Whether a phase begins to restore what these contents record, from this
/// vault.
pub open spec fn begins_to_unlock(phase: PhaseView, prot: ProtView, id: Seq<char>) -> bool {
    &&& phase is Probe
    &&& phase->Probe_recovery.vault == id
    &&& phase->Probe_recovery.documents == prot.documents
    &&& phase->Probe_recovery.unlocked == 0
}

/// Once the vault is settled, locking looks for the files of the first pattern
/// with the vault recorded, and unlocking looks for the first recorded file.
pub proof fn a_settled_vault_is_put_to_use(
    run: RunView,
    way: Way,
    prot: ProtView,
    id: Seq<char>,
    reply: ReplyView,
)
    requires
        ({
            ||| run.phase == (PhaseView::FindVault { way, prot }) && reply == Reply::<
                Seq<char>,
                Seq<u8>,
                Seq<Entry<Seq<char>>>,
            >::Vault(Ok(Some(id)))
            ||| run.phase == (PhaseView::ConfirmVault { way, prot, id }) && prot.vault == Some(id)
                && reply == Reply::<Seq<char>, Seq<u8>, Seq<Entry<Seq<char>>>>::Vault(
                Ok(Some(".prot"@)),
            )
            ||| run.phase == (PhaseView::CreateVault { prot }) && way == Way::Lock && reply
                == Reply::<Seq<char>, Seq<u8>, Seq<Entry<Seq<char>>>>::Created(Ok(id))
        }),
    ensures
        way == Way::Lock && prot.patterns.len() > 0 ==> begins_to_lock(
            model::step(run, reply).phase,
            prot,
            id,
        ),
        way == Way::Unlock && prot.documents.len() > 0 ==> begins_to_unlock(
            model::step(run, reply).phase,
            prot,
            id,
        ),
{
}

// ---------------------------------------------------------------------------
// backups
// ---------------------------------------------------------------------------
/// The exchange wrote these contents into `.prot`.
pub open spec fn just_wrote(e: Seq<Exchange>, data: ProtView) -> bool {
    e.len() > 0 && locking::writes(e.last(), data)
}

spec fn is_saving(e: Seq<Exchange>, run: RunView) -> bool {
    match run.phase {
        PhaseView::SaveFresh { prot } => run.place.home is Some && just_wrote(e, prot),
        PhaseView::Save { batch, .. } => run.place.home is Some && just_wrote(e, batch.prot),
        _ => true,
    }
}

#[verifier::spinoff_prover]
#[verifier::rlimit(40)]
proof fn lemma_saving(start: RunView, replies: Seq<ReplyView>)
    requires
        runs::is_start(start),
    ensures
        is_saving(runs::history(start, replies), runs::after(start, replies)),
    decreases replies.len(),
{
    if replies.len() > 0 {
        lemma_saving(start, replies.drop_last());
    }
}

/// What is backed up is what was just written into `.prot`, and it goes where
/// the project has its place below the home directory.
pub proof fn what_is_backed_up_was_just_written(start: RunView, replies: Seq<ReplyView>)
    requires
        runs::is_start(start),
    ensures
        model::request_of(runs::after(start, replies)) matches Some(
            Request::SaveBackup { dir, file, data },
        ) ==> {
            &&& just_wrote(runs::history(start, replies), data)
            &&& start.place.home matches Some(home) && dir == backup::backup_dir(
                start.place.style,
                home,
                start.place.components,
            ) && file == backup::backup_path(start.place.style, home, start.place.components)
        },
{
    lemma_saving(start, replies);
    runs::lemma_fixed(start, replies);
}

// ---------------------------------------------------------------------------
// what is fetched
// ---------------------------------------------------------------------------
/// A missing file is fetched from the document that is recorded for it, looked
/// after on its way, and written with just what came.
pub proof fn a_missing_file_is_fetched_from_its_document(run: RunView, content: Seq<u8>)
    ensures
        run.phase matches PhaseView::Probe { recovery } ==> (model::request_of(
            model::step(run, Reply::Presence(Some(false))),
        ) matches Some(Request::GetDocument { vault, id }) && vault == recovery.vault && id
            == recovery.documents[0].1),
        run.phase matches PhaseView::Fetch { recovery } ==> ({
            let file = recovery.documents[0].0;
            let dirs = paths::directories_to(run.place.style, file);
            let next = model::step(run, Reply::Document(Ok(content)));
            if dirs.len() > 0 {
                model::request_of(next) matches Some(Request::IsLink { dir }) && dir == dirs[0]
            } else {
                model::request_of(next) matches Some(Request::WriteNew { file: f, content: c, .. })
                    && f == file && c == content
            }
        }),
        run.phase matches PhaseView::Guard { recovery, content: c, dirs } ==> ({
            let next = model::step(run, Reply::Link(Some(false)));
            if dirs.skip(1).len() > 0 {
                model::request_of(next) matches Some(Request::IsLink { dir }) && dir == dirs.skip(1)[0]
            } else {
                model::request_of(next) matches Some(
                    Request::WriteNew { file, content: bytes, .. },
                ) && file == recovery.documents[0].0 && bytes == c
            }
        }),
{
}

} // verus!
