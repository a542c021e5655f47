//! What locking guarantees: no file is deleted unless a verified copy of it is
//! stored and recorded, in the right vault, and the user's part of `.prot` is
//! left alone.

use super::endings;
use super::expansion;
use super::round_trip;
use super::runs;
use super::unlocking;
use crate::commands::model;
use crate::commands::model::BatchView;
use crate::commands::model::Command;
use crate::commands::model::PhaseView;
use crate::commands::model::RunView;
use crate::commands::VAULT_DESCRIPTION;
use crate::commands::VAULT_NAME;
use crate::exchange::Entry;
use crate::exchange::Reply;
use crate::exchange::ReplyView;
use crate::exchange::Request;
use crate::exchange::RequestView;
use crate::expand;
use crate::failure::Failure;
use crate::paths;
use crate::prot;
use crate::prot::ProtView;
use crate::session::Exchange;
use crate::text;
use vstd::prelude::*;

verus! {

// ---------------------------------------------------------------------------
// verify, then delete
// ---------------------------------------------------------------------------
/// The file was read, and these were its contents.
pub open spec fn reads(x: Exchange, file: Seq<char>, content: Seq<u8>) -> bool {
    x == runs::told(Request::ReadFile { file }, Reply::Content(Ok(content)))
}

/// The contents were stored in the vault, in the document `id`.
pub open spec fn stores(x: Exchange, vault: Seq<char>, id: Seq<char>, content: Seq<u8>) -> bool {
    match x {
        (
            Request::CreateDocument { vault: v, content: c, .. },
            Reply::Created(Ok(i)),
        ) => v == vault && c == content && i == id,
        (
            Request::EditDocument { vault: v, id: i, content: c, .. },
            Reply::Ended(Ok(_)),
        ) => v == vault && c == content && i == id,
        _ => false,
    }
}

/// The document was read back from the vault, and these were its contents.
pub open spec fn fetches(x: Exchange, vault: Seq<char>, id: Seq<char>, content: Seq<u8>) -> bool {
    x == runs::told(Request::GetDocument { vault, id }, Reply::Document(Ok(content)))
}

/// `.prot` was written with these contents.
pub open spec fn writes(x: Exchange, data: ProtView) -> bool {
    match x {
        (Request::WriteProt { data: d }, Reply::Ended(Ok(_))) => d == data,
        _ => false,
    }
}

/// A backup of these contents was asked for.
pub open spec fn backs_up(x: Exchange, data: ProtView) -> bool {
    match x {
        (Request::SaveBackup { data: d, .. }, _) => d == data,
        _ => false,
    }
}

/// From the `n`-th exchange on, the file was read, stored and read back, and
/// the copy is the same as the file.
pub open spec fn copied(
    e: Seq<Exchange>,
    n: int,
    file: Seq<char>,
    vault: Seq<char>,
    id: Seq<char>,
    content: Seq<u8>,
) -> bool {
    &&& 0 <= n && n + 3 <= e.len()
    &&& content.len() > 0
    &&& reads(e[n], file, content)
    &&& stores(e[n + 1], vault, id, content)
    &&& fetches(e[n + 2], vault, id, content)
}

/// And `.prot` was then written with the document recorded for the file.
pub open spec fn copied_and_recorded(
    e: Seq<Exchange>,
    n: int,
    file: Seq<char>,
    vault: Seq<char>,
    id: Seq<char>,
    content: Seq<u8>,
    data: ProtView,
) -> bool {
    &&& copied(e, n, file, vault, id, content)
    &&& n + 4 <= e.len()
    &&& writes(e[n + 3], data)
    &&& prot::recorded_id(data.documents, file) == Some(id)
    &&& data.vault == Some(vault)
}

/// The contents of `.prot` name the vault in use.
spec fn names_vault(batch: BatchView) -> bool {
    batch.files.len() > 0 && batch.prot.vault == Some(batch.vault)
}

/// What has led to a phase of locking.
spec fn traced(e: Seq<Exchange>, run: RunView) -> bool {
    let len = e.len() as int;
    match run.phase {
        PhaseView::ConfirmVault { prot, id, .. } => prot.vault == Some(id),
        PhaseView::Expand { prot, vault, left, .. } => prot.vault == Some(vault) && left.len() > 0,
        PhaseView::ReadFile { batch } => names_vault(batch),
        PhaseView::Upload { batch, content } => {
            &&& names_vault(batch)
            &&& content.len() > 0 && len >= 1
            &&& reads(e[len - 1], batch.files[0], content)
        },
        PhaseView::Verify { batch, content, id } => {
            &&& names_vault(batch)
            &&& content.len() > 0 && len >= 2
            &&& reads(e[len - 2], batch.files[0], content)
            &&& stores(e[len - 1], batch.vault, id, content)
        },
        PhaseView::Record { batch, content } => {
            &&& names_vault(batch)
            &&& prot::recorded_id(batch.prot.documents, batch.files[0]) is Some
            &&& copied(
                e,
                len - 3,
                batch.files[0],
                batch.vault,
                prot::recorded_id(batch.prot.documents, batch.files[0])->0,
                content,
            )
        },
        PhaseView::Save { batch, content } => {
            &&& names_vault(batch)
            &&& recorded_from(e, len - 4, batch, content)
        },
        PhaseView::Reread { batch, content } => {
            &&& names_vault(batch)
            &&& !run.keep
            &&& recorded_before(e, len, batch, content)
        },
        PhaseView::Remove { batch } => {
            &&& names_vault(batch)
            &&& !run.keep
            &&& exists|content: Seq<u8>| #[trigger]
                reads(e[len - 1], batch.files[0], content) && recorded_before(
                    e,
                    len - 1,
                    batch,
                    content,
                )
        },
        _ => true,
    }
}

/// From the `n`-th exchange on, the file at hand was copied and recorded.
spec fn recorded_from(e: Seq<Exchange>, n: int, batch: BatchView, content: Seq<u8>) -> bool {
    &&& prot::recorded_id(batch.prot.documents, batch.files[0]) is Some
    &&& copied_and_recorded(
        e,
        n,
        batch.files[0],
        batch.vault,
        prot::recorded_id(batch.prot.documents, batch.files[0])->0,
        content,
        batch.prot,
    )
}

/// Just before the `len`-th exchange, the file at hand was copied and recorded,
/// and perhaps `.prot` was backed up.
spec fn recorded_before(e: Seq<Exchange>, len: int, batch: BatchView, content: Seq<u8>) -> bool {
    &&& len <= e.len()
    &&& {
        ||| recorded_from(e, len - 4, batch, content)
        ||| recorded_from(e, len - 5, batch, content) && backs_up(e[len - 1], batch.prot)
    }
}

/// More exchanges change nothing of those before.
proof fn lemma_longer(e: Seq<Exchange>, x: Exchange, n: int, batch: BatchView, content: Seq<u8>)
    ensures
        recorded_from(e, n, batch, content) ==> recorded_from(e.push(x), n, batch, content),
{
    if recorded_from(e, n, batch, content) {
        assert(e.push(x)[n] == e[n]);
        assert(e.push(x)[n + 1] == e[n + 1]);
        assert(e.push(x)[n + 2] == e[n + 2]);
        assert(e.push(x)[n + 3] == e[n + 3]);
    }
}

/// One reply keeps the trace.
#[verifier::spinoff_prover]
#[verifier::rlimit(40)]
proof fn lemma_traced_step(e: Seq<Exchange>, run: RunView, reply: ReplyView)
    requires
        traced(e, run),
    ensures
        match model::request_of(run) {
            Some(request) => traced(e.push((request, reply)), model::step(run, reply)),
            None => traced(e, model::step(run, reply)),
        },
{
    if let Some(request) = model::request_of(run) {
        let x = (request, reply);
        let all = e.push(x);
        let next = model::step(run, reply);
        let len = e.len() as int;
        match run.phase {
            PhaseView::Verify { batch, content, id } => {
                prot::lemma_position(batch.prot.documents, batch.files[0]);
                round_trip::recording_is_found_again(
                    batch.prot.documents,
                    batch.files[0],
                    id,
                    batch.files[0],
                );
                assert(all[len - 2] == e[len - 2]);
                assert(all[len - 1] == e[len - 1]);
            },
            PhaseView::Record { batch, content } => {
                assert(all[len - 3] == e[len - 3]);
                assert(all[len - 2] == e[len - 2]);
                assert(all[len - 1] == e[len - 1]);
                assert(all[len] == x);
                if next.phase is Save || next.phase is Reread {
                    assert(recorded_from(all, len - 3, batch, content));
                }
            },
            PhaseView::Save { batch, content } => {
                lemma_longer(e, x, len - 4, batch, content);
                assert(all[len] == x);
            },
            PhaseView::Reread { batch, content } => {
                lemma_longer(e, x, len - 4, batch, content);
                lemma_longer(e, x, len - 5, batch, content);
                assert(all[len - 1] == e[len - 1]);
                assert(all[len] == x);
                if next.phase is Remove {
                    assert(reads(all[len], batch.files[0], content));
                    assert(recorded_before(all, len, batch, content));
                }
            },
            PhaseView::Upload { batch, content } => {
                assert(all[len - 1] == e[len - 1]);
                assert(all[len] == x);
            },
            PhaseView::ReadFile { batch } => {
                assert(all[len] == x);
            },
            _ => {},
        }
    }
}

proof fn lemma_traced(start: RunView, replies: Seq<ReplyView>)
    requires
        runs::is_start(start),
    ensures
        traced(runs::history(start, replies), runs::after(start, replies)),
    decreases replies.len(),
{
    if replies.len() > 0 {
        let shorter = replies.drop_last();
        lemma_traced(start, shorter);
        lemma_traced_step(
            runs::history(start, shorter),
            runs::after(start, shorter),
            replies.last(),
        );
    }
}

/// Whether, just before, the file was read, stored, read back as the same
/// bytes, recorded in `.prot`, and read once more as the same bytes. Between
/// the last two, a backup of `.prot` may have been made.
pub open spec fn safe_to_delete(e: Seq<Exchange>, file: Seq<char>) -> bool {
    exists|n: int, vault: Seq<char>, id: Seq<char>, content: Seq<u8>, data: ProtView|
        {
            &&& #[trigger] copied_and_recorded(e, n, file, vault, id, content, data)
            &&& reads(e.last(), file, content)
            &&& {
                ||| e.len() == n + 5
                ||| e.len() == n + 6 && backs_up(e[n + 4], data)
            }
        }
}

/// A file is deleted only when files are not to be kept, and only when a
/// verified copy of what it holds at that moment is stored and recorded.
pub proof fn a_file_is_deleted_only_after_its_copy_is_verified(
    start: RunView,
    replies: Seq<ReplyView>,
)
    requires
        runs::is_start(start),
    ensures
        model::request_of(runs::after(start, replies)) matches Some(
            Request::RemoveFile { file },
        ) ==> !start.keep && safe_to_delete(runs::history(start, replies), file),
{
    let e = runs::history(start, replies);
    let run = runs::after(start, replies);
    let len = e.len() as int;
    lemma_traced(start, replies);
    runs::lemma_fixed(start, replies);
    if let PhaseView::Remove { batch } = run.phase {
        let content = choose|content: Seq<u8>| #[trigger]
            reads(e[len - 1], batch.files[0], content) && recorded_before(
                e,
                len - 1,
                batch,
                content,
            );
        let id = prot::recorded_id(batch.prot.documents, batch.files[0])->0;
        if recorded_from(e, len - 5, batch, content) {
            assert(copied_and_recorded(
                e,
                len - 5,
                batch.files[0],
                batch.vault,
                id,
                content,
                batch.prot,
            ));
        } else {
            assert(copied_and_recorded(
                e,
                len - 6,
                batch.files[0],
                batch.vault,
                id,
                content,
                batch.prot,
            ));
        }
    }
}

// ---------------------------------------------------------------------------
// the vault
// ---------------------------------------------------------------------------
/// The exchange shows that `vault` is the ID of the vault `.prot`: it was
/// looked up under this ID and bears that name, or was found by that name, or
/// was created with it.
pub open spec fn settles(x: Exchange, vault: Seq<char>) -> bool {
    ||| x == runs::told(Request::VaultName { id: vault }, Reply::Vault(Ok(Some(VAULT_NAME@))))
    ||| x == runs::told(Request::FindVault { name: VAULT_NAME@ }, Reply::Vault(Ok(Some(vault))))
    ||| x == runs::told(
        Request::CreateVault { name: VAULT_NAME@, description: VAULT_DESCRIPTION@ },
        Reply::Created(Ok(vault)),
    )
}

/// In this run, `vault` was found to be the ID of the vault `.prot`.
pub open spec fn settled(e: Seq<Exchange>, vault: Seq<char>) -> bool {
    exists|i: int| 0 <= i < e.len() && settles(#[trigger] e[i], vault)
}

/// The vault that a request deals with documents of.
pub open spec fn vault_of(request: RequestView) -> Option<Seq<char>> {
    match request {
        Request::CreateDocument { vault, .. } => Some(vault),
        Request::EditDocument { vault, .. } => Some(vault),
        Request::GetDocument { vault, .. } => Some(vault),
        _ => None,
    }
}

/// The vault that a phase works with.
spec fn vault_in(phase: PhaseView) -> Option<Seq<char>> {
    match phase {
        PhaseView::Expand { vault, .. } => Some(vault),
        PhaseView::ReadFile { batch } => Some(batch.vault),
        PhaseView::Upload { batch, .. } => Some(batch.vault),
        PhaseView::Verify { batch, .. } => Some(batch.vault),
        PhaseView::Record { batch, .. } => Some(batch.vault),
        PhaseView::Save { batch, .. } => Some(batch.vault),
        PhaseView::Reread { batch, .. } => Some(batch.vault),
        PhaseView::Remove { batch } => Some(batch.vault),
        PhaseView::Probe { recovery } => Some(recovery.vault),
        PhaseView::Fetch { recovery } => Some(recovery.vault),
        PhaseView::Guard { recovery, .. } => Some(recovery.vault),
        PhaseView::Restore { recovery, .. } => Some(recovery.vault),
        _ => None,
    }
}

/// A phase works with the vault of the one before, or with one that was just
/// settled.
#[verifier::spinoff_prover]
#[verifier::rlimit(40)]
proof fn lemma_settled_step(e: Seq<Exchange>, run: RunView, reply: ReplyView)
    requires
        traced(e, run),
    ensures
        vault_in(model::step(run, reply).phase) matches Some(vault) ==> vault_in(run.phase) == Some(
            vault,
        ) || (model::request_of(run) matches Some(request) && settles((request, reply), vault)),
{
}

proof fn lemma_settled(start: RunView, replies: Seq<ReplyView>)
    requires
        runs::is_start(start),
    ensures
        vault_in(runs::after(start, replies).phase) matches Some(vault) ==> settled(
            runs::history(start, replies),
            vault,
        ),
    decreases replies.len(),
{
    if replies.len() > 0 {
        let shorter = replies.drop_last();
        lemma_settled(start, shorter);
        let run = runs::after(start, shorter);
        let e = runs::history(start, shorter);
        let all = runs::history(start, replies);
        let next = runs::after(start, replies);
        lemma_traced(start, shorter);
        lemma_settled_step(e, run, replies.last());
        if let Some(vault) = vault_in(next.phase) {
            if vault_in(run.phase) == Some(vault) {
                let i = choose|i: int| 0 <= i < e.len() && settles(#[trigger] e[i], vault);
                assert(all[i] == e[i]);
            } else {
                assert(settles(all[e.len() as int], vault));
            }
        }
    }
}

/// Every document is stored in, replaced in or fetched from a vault that was
/// found to be the one named `.prot` in this very run. Documents are never
/// deleted: there is no request for it.
pub proof fn documents_stay_in_the_right_vault(start: RunView, replies: Seq<ReplyView>)
    requires
        runs::is_start(start),
    ensures
        model::request_of(runs::after(start, replies)) matches Some(request) ==> (vault_of(
            request,
        ) matches Some(vault) ==> settled(runs::history(start, replies), vault)),
{
    lemma_settled(start, replies);
}

// ---------------------------------------------------------------------------
// the files
// ---------------------------------------------------------------------------
/// In this run, a pattern matched the file, and it can be protected.
pub open spec fn was_offered(e: Seq<Exchange>, style: paths::Style, file: Seq<char>) -> bool {
    exists|i: int| 0 <= i < e.len() && offers(#[trigger] e[i], style, file)
}

/// The exchange shows that a pattern matched the file, and it can be protected.
pub open spec fn offers(x: Exchange, style: paths::Style, file: Seq<char>) -> bool {
    match x {
        (Request::Glob { .. }, Reply::Matches(Ok(entries))) => expansion::is_offered(
            style,
            entries,
            file,
        ),
        _ => false,
    }
}

/// The files that a phase deals with.
spec fn files_in(phase: PhaseView) -> Seq<Seq<char>> {
    match phase {
        PhaseView::Expand { found, .. } => found,
        PhaseView::ReadFile { batch } => batch.files,
        PhaseView::Upload { batch, .. } => batch.files,
        PhaseView::Verify { batch, .. } => batch.files,
        PhaseView::Record { batch, .. } => batch.files,
        PhaseView::Save { batch, .. } => batch.files,
        PhaseView::Reread { batch, .. } => batch.files,
        PhaseView::Remove { batch } => batch.files,
        _ => seq![],
    }
}

/// All these files were offered, and they are in ascending order.
spec fn all_offered(e: Seq<Exchange>, style: paths::Style, files: Seq<Seq<char>>) -> bool {
    &&& text::ascending(files)
    &&& forall|k: int| 0 <= k < files.len() ==> was_offered(e, style, #[trigger] files[k])
}

proof fn lemma_offered_longer(
    e: Seq<Exchange>,
    x: Exchange,
    style: paths::Style,
    files: Seq<Seq<char>>,
)
    requires
        all_offered(e, style, files),
    ensures
        all_offered(e.push(x), style, files),
{
    assert forall|k: int| 0 <= k < files.len() implies was_offered(
        e.push(x),
        style,
        #[trigger] files[k],
    ) by {
        assert(was_offered(e, style, files[k]));
        let i = choose|i: int| 0 <= i < e.len() && offers(#[trigger] e[i], style, files[k]);
        assert(e.push(x)[i] == e[i]);
    }
}

/// But for a search, a step keeps the files, passes over the first, or has none.
#[verifier::spinoff_prover]
#[verifier::rlimit(40)]
proof fn lemma_files_step(run: RunView, reply: ReplyView)
    requires
        !(run.phase is Expand && (reply matches Reply::Matches(Ok(_)))),
    ensures
        ({
            let files = files_in(run.phase);
            let next = files_in(model::step(run, reply).phase);
            next == files || next == files.skip(1) || next.len() == 0
        }),
{
}

#[verifier::spinoff_prover]
#[verifier::rlimit(40)]
proof fn lemma_offered_step(e: Seq<Exchange>, run: RunView, reply: ReplyView)
    requires
        all_offered(e, run.place.style, files_in(run.phase)),
        traced(e, run),
        model::request_of(run) is Some,
    ensures
        all_offered(
            e.push((model::request_of(run)->0, reply)),
            run.place.style,
            files_in(model::step(run, reply).phase),
        ),
{
    let x = (model::request_of(run)->0, reply);
    let all = e.push(x);
    let style = run.place.style;
    let files = files_in(run.phase);
    let next = files_in(model::step(run, reply).phase);
    lemma_offered_longer(e, x, style, files);
    match (run.phase, reply) {
        (PhaseView::Expand { found, .. }, Reply::Matches(Ok(entries))) => {
            let taken = expand::with_entries(run.place.cwd, style, found, entries).0;
            expansion::expansion_is_exact(run.place.cwd, style, found, entries);
            assert forall|k: int| 0 <= k < taken.len() implies was_offered(
                all,
                style,
                #[trigger] taken[k],
            ) by {
                assert(taken.contains(taken[k]));
                if found.contains(taken[k]) {
                    let j = choose|j: int| 0 <= j < found.len() && found[j] == taken[k];
                    assert(was_offered(all, style, found[j]));
                } else {
                    assert(offers(all[e.len() as int], style, taken[k]));
                }
            }
            assert(all_offered(all, style, taken));
        },
        _ => {
            lemma_files_step(run, reply);
            if next != files && next.len() > 0 {
                assert forall|k: int| 0 <= k < next.len() implies was_offered(
                    all,
                    style,
                    #[trigger] next[k],
                ) by {
                    assert(was_offered(all, style, files[k + 1]));
                }
            }
        },
    }
}

proof fn lemma_offered(start: RunView, replies: Seq<ReplyView>)
    requires
        runs::is_start(start),
    ensures
        all_offered(
            runs::history(start, replies),
            start.place.style,
            files_in(runs::after(start, replies).phase),
        ),
    decreases replies.len(),
{
    if replies.len() > 0 {
        let shorter = replies.drop_last();
        lemma_offered(start, shorter);
        lemma_traced(start, shorter);
        runs::lemma_fixed(start, shorter);
        let run = runs::after(start, shorter);
        if model::request_of(run) is Some {
            lemma_offered_step(runs::history(start, shorter), run, replies.last());
        }
    }
}

// ---------------------------------------------------------------------------
// what is written into `.prot`
// ---------------------------------------------------------------------------
/// Whether contents of `.prot` go on from others: the user's patterns are the
/// same, a recorded vault is the same, and every recorded file is still
/// recorded at its place.
pub open spec fn goes_on(from: ProtView, to: ProtView) -> bool {
    &&& to.patterns == from.patterns
    &&& from.vault is Some ==> to.vault == from.vault
    &&& from.documents.len() <= to.documents.len()
    &&& forall|i: int|
        0 <= i < from.documents.len() ==> (#[trigger] to.documents[i]).0 == from.documents[i].0
}

/// The exchange shows what these contents go on from: what `.prot` held, or
/// the first contents where there was none.
pub open spec fn is_origin(x: Exchange, path: Seq<char>, data: ProtView) -> bool {
    match x {
        (Request::ReadProt, Reply::Prot(reading)) => match prot::read_as(path, reading) {
            Ok(Some(held)) => goes_on(held, data),
            Ok(None) => goes_on(prot::fresh(), data),
            Err(_) => false,
        },
        _ => false,
    }
}

/// These contents go on from what `.prot` was found to hold in this run.
pub open spec fn has_origin(e: Seq<Exchange>, path: Seq<char>, data: ProtView) -> bool {
    exists|i: int| 0 <= i < e.len() && is_origin(#[trigger] e[i], path, data)
}

/// The contents of `.prot` that a phase works with.
spec fn prot_in(phase: PhaseView) -> Option<ProtView> {
    match phase {
        PhaseView::WriteFresh { prot } => Some(prot),
        PhaseView::SaveFresh { prot } => Some(prot),
        PhaseView::ConfirmVault { prot, .. } => Some(prot),
        PhaseView::FindVault { prot, .. } => Some(prot),
        PhaseView::CreateVault { prot } => Some(prot),
        PhaseView::Expand { prot, .. } => Some(prot),
        PhaseView::ReadFile { batch } => Some(batch.prot),
        PhaseView::Upload { batch, .. } => Some(batch.prot),
        PhaseView::Verify { batch, .. } => Some(batch.prot),
        PhaseView::Record { batch, .. } => Some(batch.prot),
        PhaseView::Save { batch, .. } => Some(batch.prot),
        PhaseView::Reread { batch, .. } => Some(batch.prot),
        PhaseView::Remove { batch } => Some(batch.prot),
        _ => None,
    }
}

/// A phase with no vault recorded yet is one that settles it.
spec fn vault_is_open(phase: PhaseView) -> bool {
    match phase {
        PhaseView::FindVault { prot, .. } => prot.vault is None,
        PhaseView::CreateVault { prot } => prot.vault is None,
        PhaseView::WriteFresh { prot } => prot.vault is None,
        PhaseView::SaveFresh { prot } => prot.vault is None,
        _ => true,
    }
}

#[verifier::spinoff_prover]
#[verifier::rlimit(40)]
proof fn lemma_origin_step(run: RunView, reply: ReplyView)
    requires
        vault_is_open(run.phase),
    ensures
        vault_is_open(model::step(run, reply).phase),
        prot_in(model::step(run, reply).phase) matches Some(to) ==> {
            ||| prot_in(run.phase) matches Some(from) && goes_on(from, to)
            ||| model::request_of(run) matches Some(request) && is_origin(
                (request, reply),
                paths::taken_from(run.place, prot::PROT_FILE@),
                to,
            )
        },
{
    if let PhaseView::Verify { batch, .. } = run.phase {
        prot::lemma_position(batch.prot.documents, batch.files[0]);
    }
}

proof fn lemma_origin(start: RunView, replies: Seq<ReplyView>)
    requires
        runs::is_start(start),
    ensures
        vault_is_open(runs::after(start, replies).phase),
        prot_in(runs::after(start, replies).phase) matches Some(data) ==> has_origin(
            runs::history(start, replies),
            paths::taken_from(start.place, prot::PROT_FILE@),
            data,
        ),
    decreases replies.len(),
{
    if replies.len() > 0 {
        let shorter = replies.drop_last();
        lemma_origin(start, shorter);
        runs::lemma_fixed(start, shorter);
        let path = paths::taken_from(start.place, prot::PROT_FILE@);
        let run = runs::after(start, shorter);
        let e = runs::history(start, shorter);
        let all = runs::history(start, replies);
        lemma_origin_step(run, replies.last());
        if let Some(to) = prot_in(runs::after(start, replies).phase) {
            if prot_in(run.phase) is Some && goes_on(prot_in(run.phase)->0, to) {
                let from = prot_in(run.phase)->0;
                let i = choose|i: int| 0 <= i < e.len() && is_origin(#[trigger] e[i], path, from);
                assert(is_origin(all[i], path, to));
            } else {
                assert(is_origin(all[e.len() as int], path, to));
            }
        }
    }
}

/// Whatever is written into `.prot`, or into its backup, has the user's
/// patterns as they were read, the recorded vault where there was one, and
/// every file that was recorded.
pub proof fn what_is_written_keeps_what_was_read(start: RunView, replies: Seq<ReplyView>)
    requires
        runs::is_start(start),
    ensures
        ({
            let e = runs::history(start, replies);
            let path = paths::taken_from(start.place, prot::PROT_FILE@);
            match model::request_of(runs::after(start, replies)) {
                Some(Request::WriteProt { data }) => has_origin(e, path, data),
                Some(Request::SaveBackup { data, .. }) => has_origin(e, path, data),
                _ => true,
            }
        }),
{
    lemma_origin(start, replies);
}

/// The exchange shows that the user lists the pattern in `.prot`, or that there
/// was none and it is that of the first one.
pub open spec fn lists_pattern(x: Exchange, path: Seq<char>, pattern: Seq<char>) -> bool {
    match x {
        (Request::ReadProt, Reply::Prot(reading)) => match prot::read_as(path, reading) {
            Ok(Some(held)) => held.patterns.contains(pattern),
            Ok(None) => prot::fresh().patterns.contains(pattern),
            Err(_) => false,
        },
        _ => false,
    }
}

/// In this run, the pattern was found to be listed in `.prot`.
pub open spec fn was_listed(e: Seq<Exchange>, path: Seq<char>, pattern: Seq<char>) -> bool {
    exists|i: int| 0 <= i < e.len() && lists_pattern(#[trigger] e[i], path, pattern)
}

/// Whether what is looked for is what a listed pattern stands for.
pub open spec fn stands_for_listed(
    e: Seq<Exchange>,
    place: paths::PlaceView,
    sought: Seq<char>,
) -> bool {
    exists|pattern: Seq<char>|
        sought == #[trigger] expand::search_for(place, pattern) && was_listed(
            e,
            paths::taken_from(place, prot::PROT_FILE@),
            pattern,
        )
}

/// The patterns that are left to expand are among those of `.prot`.
spec fn left_is_listed(phase: PhaseView) -> bool {
    phase matches PhaseView::Expand { prot, left, .. } ==> forall|k: int|
        0 <= k < left.len() ==> prot.patterns.contains(#[trigger] left[k])
}

#[verifier::spinoff_prover]
#[verifier::rlimit(40)]
proof fn lemma_left_step(e: Seq<Exchange>, run: RunView, reply: ReplyView)
    requires
        traced(e, run),
        left_is_listed(run.phase),
    ensures
        left_is_listed(model::step(run, reply).phase),
{
    if let PhaseView::Expand { prot, left, .. } = model::step(run, reply).phase {
        assert forall|k: int| 0 <= k < left.len() implies prot.patterns.contains(
            #[trigger] left[k],
        ) by {
            if let PhaseView::Expand { left: before, .. } = run.phase {
                assert(left[k] == before[k + 1]);
            } else {
                assert(left == prot.patterns);
            }
        }
    }
}

proof fn lemma_left(start: RunView, replies: Seq<ReplyView>)
    requires
        runs::is_start(start),
    ensures
        left_is_listed(runs::after(start, replies).phase),
    decreases replies.len(),
{
    if replies.len() > 0 {
        let shorter = replies.drop_last();
        lemma_left(start, shorter);
        lemma_traced(start, shorter);
        lemma_left_step(
            runs::history(start, shorter),
            runs::after(start, shorter),
            replies.last(),
        );
    }
}

/// Only what the patterns in `.prot` stand for is looked for, or, where there
/// was no `.prot`, what those of the first one stand for.
pub proof fn only_listed_patterns_are_looked_for(start: RunView, replies: Seq<ReplyView>)
    requires
        runs::is_start(start),
    ensures
        model::request_of(runs::after(start, replies)) matches Some(
            Request::Glob { pattern },
        ) ==> stands_for_listed(runs::history(start, replies), start.place, pattern),
{
    let e = runs::history(start, replies);
    let phase = runs::after(start, replies).phase;
    let path = paths::taken_from(start.place, prot::PROT_FILE@);
    lemma_left(start, replies);
    lemma_traced(start, replies);
    lemma_origin(start, replies);
    runs::lemma_fixed(start, replies);
    if let PhaseView::Expand { prot, left, .. } = phase {
        assert(prot.patterns.contains(left[0]));
        let data = prot_in(phase)->0;
        assert(data == prot);
        let i = choose|i: int| 0 <= i < e.len() && is_origin(#[trigger] e[i], path, data);
        assert(lists_pattern(e[i], path, left[0]));
        assert(was_listed(e, path, left[0]));
    }
}

/// What `.prot` was last found to hold in this run: the first contents where
/// there was none.
pub open spec fn last_held(e: Seq<Exchange>, path: Seq<char>) -> Option<ProtView>
    decreases e.len(),
{
    if e.len() == 0 {
        None
    } else {
        match e.last() {
            (Request::ReadProt, Reply::Prot(reading)) => match prot::read_as(path, reading) {
                Ok(Some(held)) => Some(held),
                Ok(None) => Some(prot::fresh()),
                Err(_) => None,
            },
            _ => last_held(e.drop_last(), path),
        }
    }
}

/// The exchange shows that what the pattern stands for was looked for, and the
/// matches were told.
pub open spec fn looks_for(x: Exchange, place: paths::PlaceView, pattern: Seq<char>) -> bool {
    match x {
        (Request::Glob { pattern: sought }, Reply::Matches(Ok(_))) => sought
            == expand::search_for(place, pattern),
        _ => false,
    }
}

/// In this run, what the pattern stands for was looked for.
pub open spec fn was_looked_for(
    e: Seq<Exchange>,
    place: paths::PlaceView,
    pattern: Seq<char>,
) -> bool {
    exists|i: int| 0 <= i < e.len() && looks_for(#[trigger] e[i], place, pattern)
}

/// In this run, every pattern that `.prot` was found to hold was looked for.
pub open spec fn all_looked_for(e: Seq<Exchange>, place: paths::PlaceView) -> bool {
    last_held(e, paths::taken_from(place, prot::PROT_FILE@)) matches Some(held) && forall|k: int|
        0 <= k < held.patterns.len() ==> was_looked_for(e, place, #[trigger] held.patterns[k])
}

/// How far the search has come in a phase.
spec fn is_searched(e: Seq<Exchange>, run: RunView) -> bool {
    let place = run.place;
    let held = last_held(e, paths::taken_from(place, prot::PROT_FILE@));
    match run.phase {
        PhaseView::WriteFresh { prot } => held matches Some(h) && h.patterns == prot.patterns,
        PhaseView::SaveFresh { prot } => held matches Some(h) && h.patterns == prot.patterns,
        PhaseView::ConfirmVault { way, prot, .. } => held matches Some(h) && h.patterns
            == prot.patterns,
        PhaseView::FindVault { way, prot } => held matches Some(h) && h.patterns == prot.patterns,
        PhaseView::CreateVault { prot } => held matches Some(h) && h.patterns == prot.patterns,
        PhaseView::Expand { prot, left, .. } => {
            &&& held matches Some(h) && h.patterns == prot.patterns
            &&& 0 < left.len() <= prot.patterns.len()
            &&& left == prot.patterns.skip(prot.patterns.len() - left.len())
            &&& forall|k: int|
                0 <= k < prot.patterns.len() - left.len() ==> was_looked_for(
                    e,
                    place,
                    #[trigger] prot.patterns[k],
                )
        },
        PhaseView::ReadFile { .. } => all_looked_for(e, place),
        PhaseView::Upload { .. } => all_looked_for(e, place),
        PhaseView::Verify { .. } => all_looked_for(e, place),
        PhaseView::Record { .. } => all_looked_for(e, place),
        PhaseView::Save { .. } => all_looked_for(e, place),
        PhaseView::Reread { .. } => all_looked_for(e, place),
        PhaseView::Remove { .. } => all_looked_for(e, place),
        _ => true,
    }
}

proof fn lemma_looked_longer(e: Seq<Exchange>, x: Exchange, place: paths::PlaceView)
    requires
        !(x.0 is ReadProt),
    ensures
        last_held(e.push(x), paths::taken_from(place, prot::PROT_FILE@)) == last_held(
            e,
            paths::taken_from(place, prot::PROT_FILE@),
        ),
        forall|pattern: Seq<char>| #[trigger]
            was_looked_for(e, place, pattern) ==> was_looked_for(e.push(x), place, pattern),
        all_looked_for(e, place) ==> all_looked_for(e.push(x), place),
{
    let all = e.push(x);
    assert(all.drop_last() =~= e);
    assert forall|pattern: Seq<char>| #[trigger] was_looked_for(
        e,
        place,
        pattern,
    ) implies was_looked_for(all, place, pattern) by {
        let i = choose|i: int| 0 <= i < e.len() && looks_for(#[trigger] e[i], place, pattern);
        assert(looks_for(all[i], place, pattern));
    }
}

proof fn lemma_searched_pattern(e: Seq<Exchange>, run: RunView, reply: ReplyView)
    requires
        is_searched(e, run),
        run.phase is Expand,
    ensures
        is_searched(e.push((model::request_of(run)->0, reply)), model::step(run, reply)),
        (model::step(run, reply).phase matches PhaseView::Finished { outcome } && outcome is Ok)
            ==> all_looked_for(e.push((model::request_of(run)->0, reply)), run.place),
{
    let x = (model::request_of(run)->0, reply);
    let all = e.push(x);
    let place = run.place;
    lemma_looked_longer(e, x, place);
    if let PhaseView::Expand { prot, left, found, .. } = run.phase {
        if let Reply::Matches(Ok(entries)) = reply {
            let n = prot.patterns.len() - left.len();
            let rest = left.skip(1);
            assert(left[0] == prot.patterns[n]);
            assert(looks_for(all[e.len() as int], place, left[0]));
            assert(was_looked_for(all, place, prot.patterns[n]));
            assert(rest =~= prot.patterns.skip(prot.patterns.len() - rest.len()));
            assert forall|k: int| 0 <= k < prot.patterns.len() - rest.len() implies was_looked_for(
                all,
                place,
                #[trigger] prot.patterns[k],
            ) by {
                if k < n {
                    assert(was_looked_for(e, place, prot.patterns[k]));
                }
            }
        }
    }
}

#[verifier::spinoff_prover]
#[verifier::rlimit(40)]
proof fn lemma_searched_step(e: Seq<Exchange>, run: RunView, reply: ReplyView)
    requires
        is_searched(e, run),
        model::request_of(run) is Some,
    ensures
        is_searched(e.push((model::request_of(run)->0, reply)), model::step(run, reply)),
        (runs::in_lock(run.phase) && (model::step(
            run,
            reply,
        ).phase matches PhaseView::Finished { outcome } && outcome is Ok)) ==> all_looked_for(
            e.push((model::request_of(run)->0, reply)),
            run.place,
        ),
{
    let x = (model::request_of(run)->0, reply);
    let all = e.push(x);
    let place = run.place;
    let next = model::step(run, reply);
    if run.phase is Expand {
        lemma_searched_pattern(e, run, reply);
    } else if x.0 is ReadProt {
        assert(all.drop_last() =~= e);
        assert(all.last() == x);
    } else {
        lemma_looked_longer(e, x, place);
        if let PhaseView::Expand { prot, left, .. } = next.phase {
            assert(left == prot.patterns);
            assert(left =~= prot.patterns.skip(0));
        }
        if prot_in(run.phase) is Some && prot_in(run.phase)->0.patterns.len() == 0 {
            let held = last_held(e, paths::taken_from(place, prot::PROT_FILE@));
            assert(held->0.patterns.len() == 0 ==> all_looked_for(all, place));
        }
    }
}

proof fn lemma_searched(start: RunView, replies: Seq<ReplyView>)
    requires
        runs::is_start(start),
    ensures
        is_searched(runs::history(start, replies), runs::after(start, replies)),
        (runs::is_start_of(start, Command::Lock) && (runs::after(
            start,
            replies,
        ).phase matches PhaseView::Finished { outcome } && outcome is Ok)) ==> all_looked_for(
            runs::history(start, replies),
            start.place,
        ),
    decreases replies.len(),
{
    if replies.len() > 0 {
        let shorter = replies.drop_last();
        let run = runs::after(start, shorter);
        lemma_searched(start, shorter);
        runs::lemma_fixed(start, shorter);
        runs::lemma_phases(start, shorter);
        if model::request_of(run) is Some {
            lemma_searched_step(runs::history(start, shorter), run, replies.last());
        }
    }
}

/// Locking looks for what every pattern in `.prot` stands for: not one is left
/// out before the first file is read, nor where locking ends well.
pub proof fn every_pattern_is_looked_for(start: RunView, replies: Seq<ReplyView>)
    requires
        runs::is_start(start),
    ensures
        model::request_of(runs::after(start, replies)) matches Some(Request::ReadFile { .. })
            ==> all_looked_for(runs::history(start, replies), start.place),
        (runs::is_start_of(start, Command::Lock) && (runs::after(
            start,
            replies,
        ).phase matches PhaseView::Finished { outcome } && outcome is Ok)) ==> all_looked_for(
            runs::history(start, replies),
            start.place,
        ),
{
    lemma_searched(start, replies);
    runs::lemma_fixed(start, replies);
}

/// Every search so far was for a listed pattern.
spec fn searches_are_listed(e: Seq<Exchange>, place: paths::PlaceView) -> bool {
    forall|i: int|
        0 <= i < e.len() ==> ((#[trigger] e[i]).0 matches Request::Glob { pattern }
            ==> stands_for_listed(e, place, pattern))
}

proof fn lemma_listed_longer(
    e: Seq<Exchange>,
    x: Exchange,
    place: paths::PlaceView,
    sought: Seq<char>,
)
    requires
        stands_for_listed(e, place, sought),
    ensures
        stands_for_listed(e.push(x), place, sought),
{
    let path = paths::taken_from(place, prot::PROT_FILE@);
    let pattern = choose|pattern: Seq<char>|
        sought == #[trigger] expand::search_for(place, pattern) && was_listed(e, path, pattern);
    let i = choose|i: int| 0 <= i < e.len() && lists_pattern(#[trigger] e[i], path, pattern);
    assert(lists_pattern(e.push(x)[i], path, pattern));
    assert(was_listed(e.push(x), path, pattern));
}

proof fn lemma_searches(start: RunView, replies: Seq<ReplyView>)
    requires
        runs::is_start(start),
    ensures
        searches_are_listed(runs::history(start, replies), start.place),
    decreases replies.len(),
{
    if replies.len() > 0 {
        let shorter = replies.drop_last();
        let run = runs::after(start, shorter);
        let e = runs::history(start, shorter);
        let all = runs::history(start, replies);
        lemma_searches(start, shorter);
        only_listed_patterns_are_looked_for(start, shorter);
        if let Some(request) = model::request_of(run) {
            let x = (request, replies.last());
            assert(all == e.push(x));
            assert forall|i: int| 0 <= i < all.len() implies ((
            #[trigger] all[i]).0 matches Request::Glob { pattern } ==> stands_for_listed(
                all,
                start.place,
                pattern,
            )) by {
                if let Request::Glob { pattern } = all[i].0 {
                    if i < e.len() {
                        assert(all[i] == e[i]);
                    } else {
                        assert(all[i] == x);
                    }
                    lemma_listed_longer(e, x, start.place, pattern);
                }
            }
        }
    }
}

/// In this run, a pattern that is listed in `.prot` matched the file, and it
/// can be protected.
pub open spec fn was_matched(
    e: Seq<Exchange>,
    place: paths::PlaceView,
    file: Seq<char>,
) -> bool {
    exists|i: int|
        0 <= i < e.len() && offers(#[trigger] e[i], place.style, file) && (
        e[i].0 matches Request::Glob { pattern } && stands_for_listed(e, place, pattern))
}

/// Only files that a pattern listed in `.prot` matched in this run, that lie in
/// the working directory, whose names can be recorded, and that are not `.prot`
/// are read, and only those are deleted.
pub proof fn only_matched_files_are_touched(start: RunView, replies: Seq<ReplyView>)
    requires
        runs::is_start(start),
    ensures
        match model::request_of(runs::after(start, replies)) {
            Some(Request::ReadFile { file }) => was_matched(
                runs::history(start, replies),
                start.place,
                file,
            ),
            Some(Request::RemoveFile { file }) => was_matched(
                runs::history(start, replies),
                start.place,
                file,
            ),
            _ => true,
        },
{
    let e = runs::history(start, replies);
    let style = start.place.style;
    lemma_offered(start, replies);
    lemma_traced(start, replies);
    lemma_searches(start, replies);
    let files = files_in(runs::after(start, replies).phase);
    if files.len() > 0 {
        assert(was_offered(e, style, files[0]));
        let i = choose|i: int| 0 <= i < e.len() && offers(#[trigger] e[i], style, files[0]);
        assert(e[i].0 is Glob);
        assert(was_matched(e, start.place, files[0]));
    }
}

/// Every file that is read or deleted is named by a plain path below the
/// working directory.
pub proof fn only_plain_paths_are_touched(start: RunView, replies: Seq<ReplyView>)
    requires
        runs::is_start(start),
    ensures
        match model::request_of(runs::after(start, replies)) {
            Some(Request::ReadFile { file }) => paths::is_plain(start.place.style, file),
            Some(Request::RemoveFile { file }) => paths::is_plain(start.place.style, file),
            _ => true,
        },
{
    only_matched_files_are_touched(start, replies);
}

/// Every write of `.prot` is mirrored to the backup where there is a home
/// directory: the next thing asked for is to save the same contents.
pub proof fn every_write_is_backed_up(run: RunView, data: ProtView)
    requires
        model::request_of(run) == Some(Request::<Seq<char>, Seq<u8>, ProtView>::WriteProt { data }),
        run.place.home is Some,
    ensures
        model::request_of(model::step(run, Reply::Ended(Ok(())))) == Some(
            model::backup_request(run.place, data),
        ),
{
}

/// Whether an exchange gave names that `.prot` can hold: every new ID fits a
/// line and does not hold the sentinel, that of a document holds no colon, and
/// no file that is to be protected has the sentinel in its name.
pub open spec fn is_clean(x: Exchange, style: paths::Style) -> bool {
    match x {
        (Request::FindVault { .. }, Reply::Vault(Ok(Some(id)))) => round_trip::storable_vault(id),
        (Request::CreateVault { .. }, Reply::Created(Ok(id))) => round_trip::storable_vault(id),
        (Request::CreateDocument { .. }, Reply::Created(Ok(id))) => is_clean_id(id),
        (Request::Glob { .. }, Reply::Matches(Ok(entries))) => forall|file: Seq<char>| #[trigger]
            expansion::is_offered(style, entries, file) ==> !text::has(file, prot::SENTINEL@),
        _ => true,
    }
}

/// Whether a document's ID can stand in `.prot`.
pub open spec fn is_clean_id(id: Seq<char>) -> bool {
    round_trip::storable_vault(id) && round_trip::free_of(id, ':')
}

/// Whether all exchanges gave names that `.prot` can hold.
pub open spec fn all_clean(e: Seq<Exchange>, style: paths::Style) -> bool {
    forall|i: int| 0 <= i < e.len() ==> is_clean(#[trigger] e[i], style)
}

/// Whether what a phase works with can stand in `.prot`.
spec fn is_storable_in(phase: PhaseView) -> bool {
    &&& prot_in(phase) matches Some(data) ==> round_trip::storable(data)
    &&& phase matches PhaseView::Verify { id, .. } ==> is_clean_id(id)
}

/// A file that was offered by clean exchanges can stand in `.prot`.
proof fn lemma_offered_file(e: Seq<Exchange>, style: paths::Style, file: Seq<char>)
    requires
        was_offered(e, style, file),
        all_clean(e, style),
    ensures
        round_trip::fits_a_line(file),
        !text::has(file, prot::SENTINEL@),
{
    let i = choose|i: int| 0 <= i < e.len() && offers(#[trigger] e[i], style, file);
    assert(is_clean(e[i], style));
    assert forall|k: int| 0 <= k < file.len() implies file[k] != '\n' by {
        assert(!text::is_control_char(file[k]));
    }
}

#[verifier::spinoff_prover]
#[verifier::rlimit(40)]
proof fn lemma_storable_step(e: Seq<Exchange>, run: RunView, reply: ReplyView)
    requires
        traced(e, run),
        all_offered(e, run.place.style, files_in(run.phase)),
        all_clean(e, run.place.style),
        model::request_of(run) is Some,
        is_clean((model::request_of(run)->0, reply), run.place.style),
        is_storable_in(run.phase),
    ensures
        is_storable_in(model::step(run, reply).phase),
{
    let style = run.place.style;
    let path = paths::taken_from(run.place, prot::PROT_FILE@);
    match (run.phase, reply) {
        (PhaseView::Verify { batch, id, .. }, _) => {
            assert(was_offered(e, style, batch.files[0]));
            lemma_offered_file(e, style, batch.files[0]);
            round_trip::recording_keeps_contents_storable(batch.prot, batch.files[0], id);
        },
        (PhaseView::Upload { batch, .. }, _) => {
            prot::lemma_position(batch.prot.documents, batch.files[0]);
            if let Some(i) = prot::position(batch.prot.documents, batch.files[0]) {
                assert(round_trip::storable_entry(batch.prot.documents[i]));
            }
        },
        (_, Reply::Prot(prot::Reading::Text(t))) => {
            round_trip::parsing_gives_storable_contents(t);
        },
        (_, Reply::Prot(prot::Reading::Missing)) => {
            round_trip::fresh_contents_are_storable();
        },
        _ => {},
    }
}

proof fn lemma_storable(start: RunView, replies: Seq<ReplyView>)
    requires
        runs::is_start(start),
        all_clean(runs::history(start, replies), start.place.style),
    ensures
        is_storable_in(runs::after(start, replies).phase),
    decreases replies.len(),
{
    if replies.len() > 0 {
        let shorter = replies.drop_last();
        let run = runs::after(start, shorter);
        let e = runs::history(start, shorter);
        let all = runs::history(start, replies);
        assert forall|i: int| 0 <= i < e.len() implies is_clean(
            #[trigger] e[i],
            start.place.style,
        ) by {
            assert(all[i] == e[i]);
        }
        lemma_storable(start, shorter);
        lemma_traced(start, shorter);
        lemma_offered(start, shorter);
        runs::lemma_fixed(start, shorter);
        if model::request_of(run) is Some {
            assert(is_clean(all[e.len() as int], start.place.style));
            lemma_storable_step(e, run, replies.last());
        }
    }
}

/// Whatever is written into `.prot` can stand there, given that the names that
/// the run came by can.
pub proof fn what_is_written_is_storable(start: RunView, replies: Seq<ReplyView>)
    requires
        runs::is_start(start),
        all_clean(runs::history(start, replies), start.place.style),
    ensures
        match model::request_of(runs::after(start, replies)) {
            Some(Request::WriteProt { data }) => round_trip::storable(data),
            Some(Request::SaveBackup { data, .. }) => round_trip::storable(data),
            _ => true,
        },
{
    lemma_storable(start, replies);
}

/// Whatever is written into `.prot` is read back from it, so that every file
/// that was locked can be found again. This holds given that 1Password gives
/// IDs that fit a line, without the sentinel and, for documents, without a
/// colon, and that no file has the sentinel in its name.
pub proof fn what_is_written_can_be_read_back(start: RunView, replies: Seq<ReplyView>)
    requires
        runs::is_start(start),
        all_clean(runs::history(start, replies), start.place.style),
    ensures
        match model::request_of(runs::after(start, replies)) {
            Some(Request::WriteProt { data }) => prot::parsed(prot::serialized(data)) == data,
            Some(Request::SaveBackup { data, .. }) => prot::parsed(prot::serialized(data)) == data,
            _ => true,
        },
{
    lemma_storable(start, replies);
    match model::request_of(runs::after(start, replies)) {
        Some(Request::WriteProt { data }) => {
            round_trip::reading_gives_back_what_was_written(data);
        },
        Some(Request::SaveBackup { data, .. }) => {
            round_trip::reading_gives_back_what_was_written(data);
        },
        _ => {},
    }
}

// ---------------------------------------------------------------------------
// one document for a file
// ---------------------------------------------------------------------------
/// The exchange shows which documents `.prot` recorded when locking began.
pub open spec fn shows_recorded(
    x: Exchange,
    path: Seq<char>,
    documents: Seq<(Seq<char>, Seq<char>)>,
) -> bool {
    match x {
        (Request::ReadProt, Reply::Prot(reading)) => match prot::read_as(path, reading) {
            Ok(Some(held)) => held.documents == documents,
            Ok(None) => documents == prot::fresh().documents,
            Err(_) => false,
        },
        _ => false,
    }
}

/// For the files at these places on, `.prot` still records what it did when it
/// was read.
spec fn untouched(
    documents: Seq<(Seq<char>, Seq<char>)>,
    held: Seq<(Seq<char>, Seq<char>)>,
    files: Seq<Seq<char>>,
    from: int,
) -> bool {
    forall|k: int|
        from <= k < files.len() ==> prot::recorded_id(documents, #[trigger] files[k])
            == prot::recorded_id(held, files[k])
}

/// What a phase still has recorded of what was read.
spec fn keeps_recorded(phase: PhaseView, held: Seq<(Seq<char>, Seq<char>)>) -> bool {
    match phase {
        PhaseView::WriteFresh { prot } => prot.documents == held,
        PhaseView::SaveFresh { prot } => prot.documents == held,
        PhaseView::ConfirmVault { prot, .. } => prot.documents == held,
        PhaseView::FindVault { prot, .. } => prot.documents == held,
        PhaseView::CreateVault { prot } => prot.documents == held,
        PhaseView::Expand { prot, .. } => prot.documents == held,
        PhaseView::ReadFile { batch } => untouched(batch.prot.documents, held, batch.files, 0),
        PhaseView::Upload { batch, .. } => untouched(batch.prot.documents, held, batch.files, 0),
        PhaseView::Verify { batch, .. } => untouched(batch.prot.documents, held, batch.files, 0),
        PhaseView::Record { batch, .. } => untouched(batch.prot.documents, held, batch.files, 1),
        PhaseView::Save { batch, .. } => untouched(batch.prot.documents, held, batch.files, 1),
        PhaseView::Reread { batch, .. } => untouched(batch.prot.documents, held, batch.files, 1),
        PhaseView::Remove { batch } => untouched(batch.prot.documents, held, batch.files, 1),
        _ => true,
    }
}

/// Whether a phase comes after `.prot` was read to lock.
spec fn knows_recorded(phase: PhaseView) -> bool {
    prot_in(phase) is Some
}

proof fn lemma_untouched_rest(
    documents: Seq<(Seq<char>, Seq<char>)>,
    held: Seq<(Seq<char>, Seq<char>)>,
    files: Seq<Seq<char>>,
)
    requires
        files.len() > 0,
        untouched(documents, held, files, 1),
    ensures
        untouched(documents, held, files.skip(1), 0),
{
    let rest = files.skip(1);
    assert forall|k: int| 0 <= k < rest.len() implies prot::recorded_id(
        documents,
        #[trigger] rest[k],
    ) == prot::recorded_id(held, rest[k]) by {
        assert(rest[k] == files[k + 1]);
    }
}

#[verifier::spinoff_prover]
#[verifier::rlimit(40)]
proof fn lemma_kept_step(
    e: Seq<Exchange>,
    run: RunView,
    reply: ReplyView,
    held: Seq<(Seq<char>, Seq<char>)>,
)
    requires
        traced(e, run),
        all_offered(e, run.place.style, files_in(run.phase)),
        knows_recorded(run.phase),
        keeps_recorded(run.phase, held),
    ensures
        keeps_recorded(model::step(run, reply).phase, held),
{
    match run.phase {
        PhaseView::ReadFile { batch } => {
            lemma_untouched_rest(batch.prot.documents, held, batch.files);
        },
        PhaseView::Verify { batch, id, .. } => {
            let after = prot::with_document(batch.prot.documents, batch.files[0], id);
            assert forall|k: int| 1 <= k < batch.files.len() implies prot::recorded_id(
                after,
                #[trigger] batch.files[k],
            ) == prot::recorded_id(held, batch.files[k]) by {
                expansion::ascending_files_are_distinct(batch.files, 0, k);
                round_trip::recording_is_found_again(
                    batch.prot.documents,
                    batch.files[0],
                    id,
                    batch.files[k],
                );
            }
        },
        PhaseView::Record { batch, .. } => {
            lemma_untouched_rest(batch.prot.documents, held, batch.files);
        },
        PhaseView::Save { batch, .. } => {
            lemma_untouched_rest(batch.prot.documents, held, batch.files);
        },
        PhaseView::Remove { batch } => {
            lemma_untouched_rest(batch.prot.documents, held, batch.files);
        },
        _ => {},
    }
}

/// The phase after `.prot` was read keeps what it recorded.
proof fn lemma_kept_first(run: RunView, reply: ReplyView) -> (held: Seq<(Seq<char>, Seq<char>)>)
    requires
        !knows_recorded(run.phase),
        knows_recorded(model::step(run, reply).phase),
    ensures
        keeps_recorded(model::step(run, reply).phase, held),
        model::request_of(run) matches Some(request) && shows_recorded(
            (request, reply),
            paths::taken_from(run.place, prot::PROT_FILE@),
            held,
        ),
{
    prot_in(model::step(run, reply).phase)->0.documents
}

proof fn lemma_kept(start: RunView, replies: Seq<ReplyView>)
    requires
        runs::is_start(start),
    ensures
        knows_recorded(runs::after(start, replies).phase) ==> exists|
            i: int,
            held: Seq<(Seq<char>, Seq<char>)>,
        |
            {
                &&& 0 <= i < runs::history(start, replies).len()
                &&& #[trigger] shows_recorded(
                    runs::history(start, replies)[i],
                    paths::taken_from(start.place, prot::PROT_FILE@),
                    held,
                )
                &&& keeps_recorded(runs::after(start, replies).phase, held)
            },
    decreases replies.len(),
{
    if replies.len() > 0 && knows_recorded(runs::after(start, replies).phase) {
        let shorter = replies.drop_last();
        let run = runs::after(start, shorter);
        let e = runs::history(start, shorter);
        let all = runs::history(start, replies);
        let path = paths::taken_from(start.place, prot::PROT_FILE@);
        lemma_kept(start, shorter);
        lemma_traced(start, shorter);
        lemma_offered(start, shorter);
        runs::lemma_fixed(start, shorter);
        if knows_recorded(run.phase) {
            let (i, held) = choose|i: int, held: Seq<(Seq<char>, Seq<char>)>|
                {
                    &&& 0 <= i < e.len()
                    &&& #[trigger] shows_recorded(e[i], path, held)
                    &&& keeps_recorded(run.phase, held)
                };
            lemma_kept_step(e, run, replies.last(), held);
            assert(shows_recorded(all[i], path, held));
        } else {
            let held = lemma_kept_first(run, replies.last());
            assert(shows_recorded(all[e.len() as int], path, held));
        }
    }
}

/// Whether the documents that `.prot` was found to record in this run all have
/// plain paths.
pub open spec fn held_plain(e: Seq<Exchange>, place: paths::PlaceView) -> bool {
    forall|i: int, held: Seq<(Seq<char>, Seq<char>)>|
        0 <= i < e.len() && #[trigger] shows_recorded(
            e[i],
            paths::taken_from(place, prot::PROT_FILE@),
            held,
        ) ==> unlocking::all_plain(place.style, held)
}

/// Whether no file had two documents in what `.prot` was found to record in
/// this run.
pub open spec fn held_distinct(e: Seq<Exchange>, place: paths::PlaceView) -> bool {
    forall|i: int, held: Seq<(Seq<char>, Seq<char>)>|
        0 <= i < e.len() && #[trigger] shows_recorded(
            e[i],
            paths::taken_from(place, prot::PROT_FILE@),
            held,
        ) ==> round_trip::distinct_files(held)
}

/// A step keeps the documents, records one for a file that was offered, or
/// takes them as `.prot` records them.
#[verifier::spinoff_prover]
#[verifier::rlimit(40)]
proof fn lemma_documents_step(e: Seq<Exchange>, run: RunView, reply: ReplyView)
    requires
        traced(e, run),
        all_offered(e, run.place.style, files_in(run.phase)),
        prot_in(model::step(run, reply).phase) is Some,
    ensures
        ({
            let now = prot_in(model::step(run, reply).phase)->0.documents;
            match prot_in(run.phase) {
                Some(before) => now == before.documents || exists|
                    file: Seq<char>,
                    id: Seq<char>,
                |
                    was_offered(e, run.place.style, file) && now == #[trigger] prot::with_document(
                        before.documents,
                        file,
                        id,
                    ),
                None => model::request_of(run) matches Some(request) && shows_recorded(
                    (request, reply),
                    paths::taken_from(run.place, prot::PROT_FILE@),
                    now,
                ),
            }
        }),
{
    if prot_in(run.phase) is None {
        lemma_kept_first(run, reply);
    } else if let PhaseView::Verify { batch, id, .. } = run.phase {
        assert(was_offered(e, run.place.style, batch.files[0]));
        assert(prot_in(model::step(run, reply).phase)->0.documents == prot::with_document(
            batch.prot.documents,
            batch.files[0],
            id,
        ));
    }
}

proof fn lemma_documents(start: RunView, replies: Seq<ReplyView>)
    requires
        runs::is_start(start),
    ensures
        prot_in(runs::after(start, replies).phase) matches Some(data) ==> {
            &&& held_plain(runs::history(start, replies), start.place) ==> unlocking::all_plain(
                start.place.style,
                data.documents,
            )
            &&& held_distinct(runs::history(start, replies), start.place)
                ==> round_trip::distinct_files(data.documents)
        },
    decreases replies.len(),
{
    if replies.len() > 0 && prot_in(runs::after(start, replies).phase) is Some {
        let shorter = replies.drop_last();
        let run = runs::after(start, shorter);
        let e = runs::history(start, shorter);
        let all = runs::history(start, replies);
        let place = start.place;
        let path = paths::taken_from(place, prot::PROT_FILE@);
        let now = prot_in(runs::after(start, replies).phase)->0.documents;
        lemma_documents(start, shorter);
        lemma_traced(start, shorter);
        lemma_offered(start, shorter);
        runs::lemma_fixed(start, shorter);
        lemma_documents_step(e, run, replies.last());
        assert forall|i: int, held: Seq<(Seq<char>, Seq<char>)>|
            0 <= i < e.len() && #[trigger] shows_recorded(e[i], path, held) implies shows_recorded(
            all[i],
            path,
            held,
        ) by {
            assert(all[i] == e[i]);
        }
        if let Some(before) = prot_in(run.phase) {
            if now != before.documents {
                let (file, id) = choose|file: Seq<char>, id: Seq<char>|
                    was_offered(e, place.style, file) && now == #[trigger] prot::with_document(
                        before.documents,
                        file,
                        id,
                    );
                let i = choose|i: int| 0 <= i < e.len() && offers(#[trigger] e[i], place.style, file);
                assert(paths::is_plain(place.style, file));
                if held_distinct(all, place) {
                    round_trip::recording_keeps_one_document_for_a_file(
                        before.documents,
                        file,
                        id,
                    );
                }
                if held_plain(all, place) {
                    prot::lemma_position(before.documents, file);
                }
            }
        } else {
            assert(shows_recorded(all[e.len() as int], path, now));
        }
    }
}

/// Whatever is written into `.prot`, or into its backup, records plain paths
/// alone where what was read did, so that unlocking refuses none of them.
pub proof fn what_is_written_stays_plain(start: RunView, replies: Seq<ReplyView>)
    requires
        runs::is_start(start),
        held_plain(runs::history(start, replies), start.place),
    ensures
        match model::request_of(runs::after(start, replies)) {
            Some(Request::WriteProt { data }) => unlocking::all_plain(
                start.place.style,
                data.documents,
            ),
            Some(Request::SaveBackup { data, .. }) => unlocking::all_plain(
                start.place.style,
                data.documents,
            ),
            _ => true,
        },
{
    lemma_documents(start, replies);
}

/// Whatever is written into `.prot`, or into its backup, has one document for a
/// file where what was read did, or where there was no `.prot`.
pub proof fn what_is_written_has_each_file_once(start: RunView, replies: Seq<ReplyView>)
    requires
        runs::is_start(start),
        held_distinct(runs::history(start, replies), start.place),
    ensures
        match model::request_of(runs::after(start, replies)) {
            Some(Request::WriteProt { data }) => round_trip::distinct_files(data.documents),
            Some(Request::SaveBackup { data, .. }) => round_trip::distinct_files(data.documents),
            _ => true,
        },
{
    lemma_documents(start, replies);
}

/// The documents that `.prot` recorded when locking began, as this run found
/// out, are these as far as the file is concerned.
pub open spec fn was_recorded(
    e: Seq<Exchange>,
    path: Seq<char>,
    file: Seq<char>,
    id: Option<Seq<char>>,
) -> bool {
    exists|i: int, held: Seq<(Seq<char>, Seq<char>)>|
        {
            &&& 0 <= i < e.len()
            &&& #[trigger] shows_recorded(e[i], path, held)
            &&& prot::recorded_id(held, file) == id
        }
}

/// A file for which `.prot` recorded a document is stored in that document
/// again, and a new document is created only for a file without one. Either
/// way the document bears the file's absolute path as its title.
pub proof fn a_file_has_one_document(start: RunView, replies: Seq<ReplyView>)
    requires
        runs::is_start(start),
    ensures
        ({
            let e = runs::history(start, replies);
            let path = paths::taken_from(start.place, prot::PROT_FILE@);
            match (runs::after(start, replies).phase, model::request_of(
                runs::after(start, replies),
            )) {
                (
                    PhaseView::Upload { batch, .. },
                    Some(Request::EditDocument { id, title, .. }),
                ) => {
                    &&& title == paths::taken_from(start.place, batch.files[0])
                    &&& was_recorded(e, path, batch.files[0], Some(id))
                },
                (PhaseView::Upload { batch, .. }, Some(Request::CreateDocument { title, .. })) => {
                    &&& title == paths::taken_from(start.place, batch.files[0])
                    &&& was_recorded(e, path, batch.files[0], None)
                },
                _ => true,
            }
        }),
{
    let e = runs::history(start, replies);
    let path = paths::taken_from(start.place, prot::PROT_FILE@);
    let phase = runs::after(start, replies).phase;
    lemma_kept(start, replies);
    lemma_traced(start, replies);
    runs::lemma_fixed(start, replies);
    if let PhaseView::Upload { batch, .. } = phase {
        let (i, held) = choose|i: int, held: Seq<(Seq<char>, Seq<char>)>|
            {
                &&& 0 <= i < e.len()
                &&& #[trigger] shows_recorded(e[i], path, held)
                &&& keeps_recorded(phase, held)
            };
        assert(prot::recorded_id(batch.prot.documents, batch.files[0]) == prot::recorded_id(
            held,
            batch.files[0],
        ));
        assert(shows_recorded(e[i], path, held));
    }
}

// ---------------------------------------------------------------------------
// what was recorded stays recorded
// ---------------------------------------------------------------------------
/// A verified copy of the file was stored in the document `id` and recorded in
/// this run.
pub open spec fn is_stored_as(e: Seq<Exchange>, file: Seq<char>, id: Seq<char>) -> bool {
    exists|n: int, vault: Seq<char>, content: Seq<u8>, data: ProtView| #[trigger]
        copied_and_recorded(e, n, file, vault, id, content, data)
}

/// The documents record every file that was stored in this run, with the ID
/// that was read back for it.
pub open spec fn records_all_stored(
    e: Seq<Exchange>,
    documents: Seq<(Seq<char>, Seq<char>)>,
) -> bool {
    forall|file: Seq<char>, id: Seq<char>| #[trigger]
        is_stored_as(e, file, id) ==> prot::recorded_id(documents, file) == Some(id)
}

/// None of the files from this place on was stored yet.
spec fn none_stored(e: Seq<Exchange>, files: Seq<Seq<char>>, from: int) -> bool {
    forall|file: Seq<char>, id: Seq<char>, k: int| #[trigger]
        is_stored_as(e, file, id) && from <= k < files.len() ==> #[trigger] files[k] != file
}

/// No file was read yet.
spec fn none_read(e: Seq<Exchange>) -> bool {
    forall|i: int| 0 <= i < e.len() ==> !((#[trigger] e[i]).0 is ReadFile)
}

/// What a phase has on record of the files that were stored before it.
spec fn is_kept_recorded(e: Seq<Exchange>, phase: PhaseView) -> bool {
    match phase {
        PhaseView::ReadFile { batch } => records_all_stored(e, batch.prot.documents)
            && none_stored(e, batch.files, 0),
        PhaseView::Upload { batch, .. } => records_all_stored(e, batch.prot.documents)
            && none_stored(e, batch.files, 0),
        PhaseView::Verify { batch, .. } => records_all_stored(e, batch.prot.documents)
            && none_stored(e, batch.files, 0),
        PhaseView::Record { batch, .. } => records_all_stored(e, batch.prot.documents)
            && none_stored(e, batch.files, 0),
        PhaseView::Save { batch, .. } => records_all_stored(e, batch.prot.documents)
            && none_stored(e, batch.files, 1),
        PhaseView::Reread { batch, .. } => records_all_stored(e, batch.prot.documents)
            && none_stored(e, batch.files, 1),
        PhaseView::Remove { batch } => records_all_stored(e, batch.prot.documents)
            && none_stored(e, batch.files, 1),
        PhaseView::Finished { .. } => true,
        _ => none_read(e),
    }
}

/// A file that is stored after one more exchange was stored before, or that
/// exchange recorded it.
proof fn lemma_stored_shorter(e: Seq<Exchange>, x: Exchange, file: Seq<char>, id: Seq<char>)
    requires
        is_stored_as(e.push(x), file, id),
    ensures
        is_stored_as(e, file, id) || exists|vault: Seq<char>, content: Seq<u8>, data: ProtView|
            #[trigger] copied(e, e.len() - 3, file, vault, id, content) && #[trigger] writes(
                x,
                data,
            ),
{
    let all = e.push(x);
    let (n, vault, content, data) = choose|
        n: int,
        vault: Seq<char>,
        content: Seq<u8>,
        data: ProtView,
    | #[trigger] copied_and_recorded(all, n, file, vault, id, content, data);
    assert(all[n] == e[n]);
    assert(all[n + 1] == e[n + 1]);
    assert(all[n + 2] == e[n + 2]);
    if n + 4 <= e.len() {
        assert(all[n + 3] == e[n + 3]);
        assert(copied_and_recorded(e, n, file, vault, id, content, data));
    } else {
        assert(all[n + 3] == x);
        assert(copied(e, e.len() - 3, file, vault, id, content) && writes(x, data));
    }
}

/// An exchange that does not write `.prot` stores nothing.
proof fn lemma_nothing_stored(
    e: Seq<Exchange>,
    x: Exchange,
    documents: Seq<(Seq<char>, Seq<char>)>,
    files: Seq<Seq<char>>,
    from: int,
)
    requires
        forall|data: ProtView| !writes(x, data),
        records_all_stored(e, documents),
        none_stored(e, files, from),
    ensures
        records_all_stored(e.push(x), documents),
        none_stored(e.push(x), files, from),
{
    let all = e.push(x);
    assert forall|file: Seq<char>, id: Seq<char>| #[trigger] is_stored_as(all, file, id) implies
        is_stored_as(e, file, id) by {
        lemma_stored_shorter(e, x, file, id);
    }
}

/// The rest of the files is not stored either.
proof fn lemma_none_stored_rest(e: Seq<Exchange>, files: Seq<Seq<char>>)
    requires
        files.len() > 0,
        none_stored(e, files, 1),
    ensures
        none_stored(e, files.skip(1), 0),
{
    let rest = files.skip(1);
    assert forall|file: Seq<char>, id: Seq<char>, k: int| #[trigger]
        is_stored_as(e, file, id) && 0 <= k < rest.len() implies #[trigger] rest[k] != file by {
        assert(rest[k] == files[k + 1]);
    }
}

#[verifier::spinoff_prover]
#[verifier::rlimit(40)]
proof fn lemma_kept_recorded_step(e: Seq<Exchange>, run: RunView, reply: ReplyView)
    requires
        traced(e, run),
        all_offered(e, run.place.style, files_in(run.phase)),
        is_kept_recorded(e, run.phase),
        model::request_of(run) is Some,
    ensures
        is_kept_recorded(
            e.push((model::request_of(run)->0, reply)),
            model::step(run, reply).phase,
        ),
{
    let x = (model::request_of(run)->0, reply);
    let all = e.push(x);
    let len = e.len() as int;
    let files = files_in(run.phase);
    match run.phase {
        PhaseView::ReadFile { batch } => {
            lemma_nothing_stored(e, x, batch.prot.documents, files, 0);
            lemma_none_stored_rest(all, files);
        },
        PhaseView::Upload { batch, .. } => {
            lemma_nothing_stored(e, x, batch.prot.documents, files, 0);
        },
        PhaseView::Verify { batch, id, .. } => {
            lemma_nothing_stored(e, x, batch.prot.documents, files, 0);
            let now = prot::with_document(batch.prot.documents, files[0], id);
            assert forall|file: Seq<char>, other: Seq<char>| #[trigger] is_stored_as(
                all,
                file,
                other,
            ) implies prot::recorded_id(now, file) == Some(other) by {
                assert(files[0] != file);
                round_trip::recording_is_found_again(
                    batch.prot.documents,
                    files[0],
                    id,
                    file,
                );
            }
        },
        PhaseView::Record { batch, content } => {
            lemma_recorded_now(e, x, batch, content);
            lemma_none_stored_rest(all, files);
        },
        PhaseView::Save { batch, .. } => {
            lemma_nothing_stored(e, x, batch.prot.documents, files, 1);
            lemma_none_stored_rest(all, files);
        },
        PhaseView::Reread { batch, .. } => {
            lemma_nothing_stored(e, x, batch.prot.documents, files, 1);
        },
        PhaseView::Remove { batch } => {
            lemma_nothing_stored(e, x, batch.prot.documents, files, 1);
            lemma_none_stored_rest(all, files);
        },
        _ => {
            assert(none_read(all)) by {
                assert forall|i: int| 0 <= i < all.len() implies !((
                #[trigger] all[i]).0 is ReadFile) by {
                    if i < len {
                        assert(all[i] == e[i]);
                    }
                }
            }
            assert forall|file: Seq<char>, id: Seq<char>| !#[trigger] is_stored_as(
                all,
                file,
                id,
            ) by {
                if is_stored_as(all, file, id) {
                    let (n, vault, content, data) = choose|
                        n: int,
                        vault: Seq<char>,
                        content: Seq<u8>,
                        data: ProtView,
                    | #[trigger] copied_and_recorded(all, n, file, vault, id, content, data);
                    assert(all[n].0 is ReadFile);
                }
            }
        },
    }
}

/// Recording the file at hand stores it and no other.
proof fn lemma_recorded_now(e: Seq<Exchange>, x: Exchange, batch: BatchView, content: Seq<u8>)
    requires
        x.0 == (Request::<Seq<char>, Seq<u8>, ProtView>::WriteProt { data: batch.prot }),
        batch.files.len() > 0,
        text::ascending(batch.files),
        prot::recorded_id(batch.prot.documents, batch.files[0]) is Some,
        copied(
            e,
            e.len() - 3,
            batch.files[0],
            batch.vault,
            prot::recorded_id(batch.prot.documents, batch.files[0])->0,
            content,
        ),
        records_all_stored(e, batch.prot.documents),
        none_stored(e, batch.files, 0),
    ensures
        records_all_stored(e.push(x), batch.prot.documents),
        none_stored(e.push(x), batch.files, 1),
{
    let all = e.push(x);
    let files = batch.files;
    let recorded = prot::recorded_id(batch.prot.documents, files[0])->0;
    assert forall|file: Seq<char>, id: Seq<char>| #[trigger] is_stored_as(all, file, id) implies
        is_stored_as(e, file, id) || (file == files[0] && id == recorded) by {
        lemma_stored_shorter(e, x, file, id);
        if !is_stored_as(e, file, id) {
            let (vault, bytes, data) = choose|vault: Seq<char>, bytes: Seq<u8>, data: ProtView|
                #[trigger] copied(e, e.len() - 3, file, vault, id, bytes) && #[trigger] writes(
                    x,
                    data,
                );
            assert(reads(e[e.len() - 3], file, bytes));
            assert(reads(e[e.len() - 3], files[0], content));
            assert(fetches(e[e.len() - 3 + 2], vault, id, bytes));
            assert(fetches(e[e.len() - 3 + 2], batch.vault, recorded, content));
        }
    }
    assert forall|file: Seq<char>, id: Seq<char>, k: int| #[trigger]
        is_stored_as(all, file, id) && 1 <= k < files.len() implies #[trigger] files[k] != file by {
        expansion::ascending_files_are_distinct(files, 0, k);
        if is_stored_as(e, file, id) {
            assert(files[k] != file);
        }
    }
}

proof fn lemma_kept_recorded(start: RunView, replies: Seq<ReplyView>)
    requires
        runs::is_start(start),
    ensures
        is_kept_recorded(runs::history(start, replies), runs::after(start, replies).phase),
    decreases replies.len(),
{
    if replies.len() > 0 {
        let shorter = replies.drop_last();
        let run = runs::after(start, shorter);
        lemma_kept_recorded(start, shorter);
        lemma_traced(start, shorter);
        lemma_offered(start, shorter);
        runs::lemma_fixed(start, shorter);
        if model::request_of(run) is Some {
            lemma_kept_recorded_step(runs::history(start, shorter), run, replies.last());
        }
    }
}

/// Every file that was stored in a run stays recorded, under the ID that was
/// read back for it, in all that the run writes into `.prot` afterwards. So a
/// run that is cut short leaves a record of all it has done.
pub proof fn what_was_stored_stays_recorded(start: RunView, replies: Seq<ReplyView>)
    requires
        runs::is_start(start),
    ensures
        match model::request_of(runs::after(start, replies)) {
            Some(Request::WriteProt { data }) => records_all_stored(
                runs::history(start, replies),
                data.documents,
            ),
            Some(Request::SaveBackup { data, .. }) => records_all_stored(
                runs::history(start, replies),
                data.documents,
            ),
            _ => true,
        },
{
    let e = runs::history(start, replies);
    lemma_kept_recorded(start, replies);
    if none_read(e) {
        assert forall|file: Seq<char>, id: Seq<char>| !#[trigger] is_stored_as(e, file, id) by {
            if is_stored_as(e, file, id) {
                let (n, vault, content, data) = choose|
                    n: int,
                    vault: Seq<char>,
                    content: Seq<u8>,
                    data: ProtView,
                | #[trigger] copied_and_recorded(e, n, file, vault, id, content, data);
                assert(e[n].0 is ReadFile);
            }
        }
    }
}

/// The exchange deleted the file.
pub open spec fn deletes(x: Exchange, file: Seq<char>) -> bool {
    match x {
        (Request::RemoveFile { file: f }, Reply::Removed(Ok(_))) => f == file,
        _ => false,
    }
}

/// Every file that was deleted was stored before.
spec fn deleted_are_stored(e: Seq<Exchange>) -> bool {
    forall|i: int, file: Seq<char>|
        0 <= i < e.len() && #[trigger] deletes(e[i], file) ==> is_stored(e, file)
}

proof fn lemma_deleted_are_stored(start: RunView, replies: Seq<ReplyView>)
    requires
        runs::is_start(start),
    ensures
        deleted_are_stored(runs::history(start, replies)),
    decreases replies.len(),
{
    if replies.len() > 0 {
        let shorter = replies.drop_last();
        let run = runs::after(start, shorter);
        let e = runs::history(start, shorter);
        let all = runs::history(start, replies);
        lemma_deleted_are_stored(start, shorter);
        a_file_is_deleted_only_after_its_copy_is_verified(start, shorter);
        if let Some(request) = model::request_of(run) {
            let x = (request, replies.last());
            assert(all == e.push(x));
            assert forall|i: int, file: Seq<char>|
                0 <= i < all.len() && #[trigger] deletes(all[i], file) implies is_stored(
                all,
                file,
            ) by {
                if i < e.len() {
                    assert(deletes(e[i], file));
                } else {
                    assert(safe_to_delete(e, file));
                }
                assert(is_stored(e, file));
                let (n, vault, id, content, data) = choose|
                    n: int,
                    vault: Seq<char>,
                    id: Seq<char>,
                    content: Seq<u8>,
                    data: ProtView,
                | #[trigger] copied_and_recorded(e, n, file, vault, id, content, data);
                assert(all[n] == e[n]);
                assert(all[n + 1] == e[n + 1]);
                assert(all[n + 2] == e[n + 2]);
                assert(all[n + 3] == e[n + 3]);
                assert(copied_and_recorded(all, n, file, vault, id, content, data));
            }
        }
    }
}

/// A file that was deleted earlier in a run is recorded in all that the run
/// writes into `.prot` afterwards, under the ID that was read back for it.
pub proof fn a_deleted_file_stays_recorded(
    start: RunView,
    replies: Seq<ReplyView>,
    i: int,
    file: Seq<char>,
    data: ProtView,
)
    requires
        runs::is_start(start),
        0 <= i < runs::history(start, replies).len(),
        deletes(runs::history(start, replies)[i], file),
        model::request_of(runs::after(start, replies)) == Some(
            Request::<Seq<char>, Seq<u8>, ProtView>::WriteProt { data },
        ),
    ensures
        prot::recorded_id(data.documents, file) matches Some(id) && is_stored_as(
            runs::history(start, replies),
            file,
            id,
        ),
{
    let e = runs::history(start, replies);
    lemma_deleted_are_stored(start, replies);
    what_was_stored_stays_recorded(start, replies);
    let (n, vault, id, content, d) = choose|
        n: int,
        vault: Seq<char>,
        id: Seq<char>,
        content: Seq<u8>,
        d: ProtView,
    | #[trigger] copied_and_recorded(e, n, file, vault, id, content, d);
    assert(is_stored_as(e, file, id));
}

// ---------------------------------------------------------------------------
// what a success means
// ---------------------------------------------------------------------------
/// The exchange shows that the file was deleted, or that it is empty.
pub open spec fn deals_with(x: Exchange, file: Seq<char>) -> bool {
    match x {
        (Request::RemoveFile { file: f }, Reply::Removed(Ok(_))) => f == file,
        (Request::ReadFile { file: f }, Reply::Content(Ok(content))) => f == file && content.len()
            == 0,
        _ => false,
    }
}

/// A verified copy of the file was stored and recorded in this run.
pub open spec fn is_stored(e: Seq<Exchange>, file: Seq<char>) -> bool {
    exists|n: int, vault: Seq<char>, id: Seq<char>, content: Seq<u8>, data: ProtView| #[trigger]
        copied_and_recorded(e, n, file, vault, id, content, data)
}

/// The file was deleted or is empty, or, where files are kept, a verified copy
/// of it was stored and recorded.
pub open spec fn is_dealt_with(e: Seq<Exchange>, keep: bool, file: Seq<char>) -> bool {
    ||| exists|i: int| 0 <= i < e.len() && deals_with(#[trigger] e[i], file)
    ||| keep && is_stored(e, file)
}

/// All files that were offered so far are among these, or dealt with.
spec fn none_forgotten(
    e: Seq<Exchange>,
    style: paths::Style,
    keep: bool,
    files: Seq<Seq<char>>,
) -> bool {
    forall|file: Seq<char>| #[trigger]
        was_offered(e, style, file) ==> files.contains(file) || is_dealt_with(e, keep, file)
}

/// No file is forgotten in a phase.
spec fn is_complete(e: Seq<Exchange>, run: RunView) -> bool {
    match run.phase {
        PhaseView::Finished { outcome } => outcome is Ok ==> none_forgotten(
            e,
            run.place.style,
            run.keep,
            seq![],
        ),
        _ => none_forgotten(e, run.place.style, run.keep, files_in(run.phase)),
    }
}

proof fn lemma_dealt_longer(e: Seq<Exchange>, x: Exchange, keep: bool, file: Seq<char>)
    requires
        is_dealt_with(e, keep, file),
    ensures
        is_dealt_with(e.push(x), keep, file),
{
    let all = e.push(x);
    if exists|i: int| 0 <= i < e.len() && deals_with(#[trigger] e[i], file) {
        let i = choose|i: int| 0 <= i < e.len() && deals_with(#[trigger] e[i], file);
        assert(deals_with(all[i], file));
    } else {
        let (n, vault, id, content, data) = choose|
            n: int,
            vault: Seq<char>,
            id: Seq<char>,
            content: Seq<u8>,
            data: ProtView,
        | #[trigger] copied_and_recorded(e, n, file, vault, id, content, data);
        assert(all[n] == e[n]);
        assert(all[n + 1] == e[n + 1]);
        assert(all[n + 2] == e[n + 2]);
        assert(all[n + 3] == e[n + 3]);
        assert(copied_and_recorded(all, n, file, vault, id, content, data));
    }
}

/// After an exchange that is no search, none is forgotten among the same files,
/// nor among all but the first where that is dealt with.
proof fn lemma_none_forgotten(
    e: Seq<Exchange>,
    x: Exchange,
    style: paths::Style,
    keep: bool,
    files: Seq<Seq<char>>,
)
    requires
        none_forgotten(e, style, keep, files),
        forall|file: Seq<char>| !offers(x, style, file),
    ensures
        none_forgotten(e.push(x), style, keep, files),
        files.len() > 0 && is_dealt_with(e.push(x), keep, files[0]) ==> none_forgotten(
            e.push(x),
            style,
            keep,
            files.skip(1),
        ),
{
    let all = e.push(x);
    assert forall|file: Seq<char>| #[trigger] was_offered(all, style, file) implies was_offered(
        e,
        style,
        file,
    ) by {
        let i = choose|i: int| 0 <= i < all.len() && offers(#[trigger] all[i], style, file);
        assert(i < e.len());
        assert(offers(e[i], style, file));
    }
    assert forall|file: Seq<char>| #[trigger] was_offered(all, style, file) implies files.contains(
        file,
    ) || is_dealt_with(all, keep, file) by {
        if is_dealt_with(e, keep, file) {
            lemma_dealt_longer(e, x, keep, file);
        }
    }
    if files.len() > 0 && is_dealt_with(all, keep, files[0]) {
        let rest = files.skip(1);
        assert forall|file: Seq<char>| #[trigger] was_offered(
            all,
            style,
            file,
        ) implies rest.contains(file) || is_dealt_with(all, keep, file) by {
            if files.contains(file) && file != files[0] {
                let k = choose|k: int| 0 <= k < files.len() && files[k] == file;
                assert(rest[k - 1] == file);
            }
        }
    }
}

#[verifier::spinoff_prover]
#[verifier::rlimit(40)]
proof fn lemma_complete_step(e: Seq<Exchange>, run: RunView, reply: ReplyView)
    requires
        traced(e, run),
        all_offered(e, run.place.style, files_in(run.phase)),
        is_complete(e, run),
        model::request_of(run) is Some,
    ensures
        is_complete(e.push((model::request_of(run)->0, reply)), model::step(run, reply)),
{
    let x = (model::request_of(run)->0, reply);
    let all = e.push(x);
    let style = run.place.style;
    let keep = run.keep;
    let files = files_in(run.phase);
    let next = model::step(run, reply);
    let len = e.len() as int;
    assert(all[len] == x);
    match run.phase {
        PhaseView::Expand { found, .. } => {
            if let Reply::Matches(Ok(entries)) = reply {
                let taken = expand::with_entries(run.place.cwd, style, found, entries).0;
                expansion::expansion_is_exact(run.place.cwd, style, found, entries);
                assert forall|file: Seq<char>| #[trigger] was_offered(
                    all,
                    style,
                    file,
                ) implies taken.contains(file) || is_dealt_with(all, keep, file) by {
                    let i = choose|i: int|
                        0 <= i < all.len() && offers(#[trigger] all[i], style, file);
                    if i < len {
                        assert(offers(e[i], style, file));
                        assert(was_offered(e, style, file));
                        if is_dealt_with(e, keep, file) {
                            lemma_dealt_longer(e, x, keep, file);
                        }
                    }
                }
                assert(none_forgotten(all, style, keep, taken));
            }
        },
        _ => {
            assert forall|file: Seq<char>| !offers(x, style, file) by {}
            lemma_none_forgotten(e, x, style, keep, files);
            match run.phase {
                PhaseView::ReadFile { batch } => {
                    if let Reply::Content(Ok(content)) = reply {
                        if content.len() == 0 {
                            assert(deals_with(all[len], files[0]));
                        }
                    }
                },
                PhaseView::Record { batch, content } => {
                    if keep && (reply matches Reply::Ended(Ok(_))) {
                        assert(all[len - 3] == e[len - 3]);
                        assert(all[len - 2] == e[len - 2]);
                        assert(all[len - 1] == e[len - 1]);
                        assert(copied_and_recorded(
                            all,
                            len - 3,
                            files[0],
                            batch.vault,
                            prot::recorded_id(batch.prot.documents, files[0])->0,
                            content,
                            batch.prot,
                        ));
                    }
                },
                PhaseView::Save { batch, content } => {
                    lemma_longer(e, x, len - 4, batch, content);
                    if keep {
                        assert(copied_and_recorded(
                            all,
                            len - 4,
                            files[0],
                            batch.vault,
                            prot::recorded_id(batch.prot.documents, files[0])->0,
                            content,
                            batch.prot,
                        ));
                    }
                },
                PhaseView::Remove { batch } => {
                    if let Reply::Removed(Ok(_)) = reply {
                        assert(deals_with(all[len], files[0]));
                    }
                },
                _ => {},
            }
            if files.len() == 1 {
                assert(files.skip(1) =~= seq![]);
            }
        },
    }
}

proof fn lemma_complete(start: RunView, replies: Seq<ReplyView>)
    requires
        runs::is_start(start),
    ensures
        is_complete(runs::history(start, replies), runs::after(start, replies)),
    decreases replies.len(),
{
    if replies.len() > 0 {
        let shorter = replies.drop_last();
        let run = runs::after(start, shorter);
        lemma_complete(start, shorter);
        lemma_traced(start, shorter);
        lemma_offered(start, shorter);
        runs::lemma_fixed(start, shorter);
        if model::request_of(run) is Some {
            lemma_complete_step(runs::history(start, shorter), run, replies.last());
        }
    }
}

/// A run that ends well has dealt with every file that its patterns matched and
/// that can be protected: it deleted it or found it empty, or, where files are
/// kept, stored and recorded a verified copy of it.
pub proof fn a_success_leaves_no_file_out(
    start: RunView,
    replies: Seq<ReplyView>,
    file: Seq<char>,
)
    requires
        runs::is_start(start),
        runs::after(start, replies).phase matches PhaseView::Finished { outcome } && outcome is Ok,
        was_offered(runs::history(start, replies), start.place.style, file),
    ensures
        is_dealt_with(runs::history(start, replies), start.keep, file),
{
    lemma_complete(start, replies);
    runs::lemma_fixed(start, replies);
}

// ---------------------------------------------------------------------------
// what is stored
// ---------------------------------------------------------------------------
/// What is stored is what was just read from a file, and it is not empty. The
/// document bears the file's absolute path as its title and its name as its
/// file name.
pub proof fn what_is_stored_is_what_was_just_read(start: RunView, replies: Seq<ReplyView>)
    requires
        runs::is_start(start),
    ensures
        model::request_of(runs::after(start, replies)) matches Some(request) ==> stores_last_read(
            runs::history(start, replies),
            start.place,
            request,
        ),
{
    let e = runs::history(start, replies);
    let run = runs::after(start, replies);
    lemma_traced(start, replies);
    runs::lemma_fixed(start, replies);
    if run.phase is Upload {
        let batch = run.phase->Upload_batch;
        let content = run.phase->Upload_content;
        assert(reads(e[e.len() - 1], batch.files[0], content));
        assert(reads(e.last(), batch.files[0], content));
    }
}

/// Whether a request that stores something stores what was read last.
pub open spec fn stores_last_read(
    e: Seq<Exchange>,
    place: paths::PlaceView,
    request: RequestView,
) -> bool {
    match request {
        Request::CreateDocument { title, file_name, content, .. } => is_of_last_read(
            e,
            place,
            title,
            file_name,
            content,
        ),
        Request::EditDocument { title, file_name, content, .. } => is_of_last_read(
            e,
            place,
            title,
            file_name,
            content,
        ),
        _ => true,
    }
}

/// What is read back while locking is the document that was just stored, from
/// the vault it was stored in; and `.prot` is then written with that document
/// recorded for the file, and with that vault.
pub proof fn what_is_read_back_and_recorded_is_what_was_stored(
    start: RunView,
    replies: Seq<ReplyView>,
)
    requires
        runs::is_start(start),
    ensures
        ({
            let e = runs::history(start, replies);
            let run = runs::after(start, replies);
            match (run.phase, model::request_of(run)) {
                (PhaseView::Verify { .. }, Some(Request::GetDocument { vault, id })) => {
                    was_just_stored(e, vault, id)
                },
                (PhaseView::Record { .. }, Some(Request::WriteProt { data })) => records_last_copy(
                    e,
                    data,
                ),
                (PhaseView::Verify { .. }, _) => false,
                (PhaseView::Record { .. }, _) => false,
                _ => true,
            }
        }),
{
    let e = runs::history(start, replies);
    let run = runs::after(start, replies);
    lemma_traced(start, replies);
    if run.phase is Verify {
        let batch = run.phase->Verify_batch;
        assert(stores(e.last(), batch.vault, run.phase->Verify_id, run.phase->Verify_content));
        assert(was_just_stored(e, batch.vault, run.phase->Verify_id));
    }
    if run.phase is Record {
        let batch = run.phase->Record_batch;
        let id = prot::recorded_id(batch.prot.documents, batch.files[0])->0;
        assert(copied(
            e,
            e.len() - 3,
            batch.files[0],
            batch.vault,
            id,
            run.phase->Record_content,
        ));
        assert(records_last_copy(e, batch.prot));
    }
}

/// Whether the last exchange stored a document.
pub open spec fn was_just_stored(e: Seq<Exchange>, vault: Seq<char>, id: Seq<char>) -> bool {
    e.len() > 0 && exists|content: Seq<u8>| #[trigger] stores(e.last(), vault, id, content)
}

/// Whether contents of `.prot` record the copy that the last three exchanges
/// made.
pub open spec fn records_last_copy(e: Seq<Exchange>, data: ProtView) -> bool {
    exists|file: Seq<char>, vault: Seq<char>, id: Seq<char>, content: Seq<u8>|
        {
            &&& #[trigger] copied(e, e.len() - 3, file, vault, id, content)
            &&& prot::recorded_id(data.documents, file) == Some(id)
            &&& data.vault == Some(vault)
        }
}

/// Whether contents are those of the file that was read last, with its path as
/// the title and its name as the file name.
pub open spec fn is_of_last_read(
    e: Seq<Exchange>,
    place: paths::PlaceView,
    title: Seq<char>,
    file_name: Seq<char>,
    content: Seq<u8>,
) -> bool {
    &&& e.len() > 0
    &&& content.len() > 0
    &&& exists|file: Seq<char>|
        {
            &&& #[trigger] reads(e.last(), file, content)
            &&& title == paths::taken_from(place, file)
            &&& file_name == paths::name_of(place.style, file)
        }
}

/// An empty file is passed over, and one that is not is stored; a file that was
/// stored is kept where files are to be kept, and otherwise read again and
/// deleted. Then comes the next file, and after the last the end.
pub proof fn every_file_is_gone_through(run: RunView, content: Seq<u8>, reply: Result<(), Failure<Seq<char>>>)
    ensures
        run.phase matches PhaseView::ReadFile { batch } ==> ({
            let next = model::step(run, Reply::Content(Ok(content))).phase;
            if content.len() > 0 {
                next matches PhaseView::Upload { batch: b, content: c } && b == batch && c == content
            } else {
                goes_on_after(next, batch, batch.locked)
            }
        }),
        run.phase matches PhaseView::Save { batch, content: c } ==> ({
            let next = model::step(run, Reply::Ended(reply)).phase;
            if run.keep {
                goes_on_after(next, batch, batch.locked + 1)
            } else {
                next == (PhaseView::Reread { batch, content: c })
            }
        }),
        run.phase matches PhaseView::Record { batch, content: c } ==> ({
            let next = model::step(run, Reply::Ended(Ok(()))).phase;
            if run.place.home is Some {
                next == (PhaseView::Save { batch, content: c })
            } else if run.keep {
                goes_on_after(next, batch, batch.locked + 1)
            } else {
                next == (PhaseView::Reread { batch, content: c })
            }
        }),
        run.phase matches PhaseView::Remove { batch } ==> goes_on_after(
            model::step(run, Reply::Removed(Ok(()))).phase,
            batch,
            batch.locked + 1,
        ),
{
}

/// Whether a phase goes on with the files after the one at hand, so many of them
/// being counted.
pub open spec fn goes_on_after(next: PhaseView, batch: BatchView, locked: nat) -> bool {
    if batch.files.skip(1).len() > 0 {
        next matches PhaseView::ReadFile { batch: b } && b.files == batch.files.skip(1) && b.prot
            == batch.prot && b.vault == batch.vault && b.locked == locked
    } else {
        next matches PhaseView::Finished { outcome } && outcome is Ok
    }
}

/// Where files are to be kept, none is deleted.
pub proof fn kept_files_are_not_deleted(start: RunView, replies: Seq<ReplyView>)
    requires
        runs::is_start(start),
        start.keep,
    ensures
        !(model::request_of(runs::after(start, replies)) matches Some(Request::RemoveFile { .. })),
{
    lemma_traced(start, replies);
    runs::lemma_fixed(start, replies);
}

// ---------------------------------------------------------------------------
// locking gets on
// ---------------------------------------------------------------------------
/// Whether nothing was looked for yet.
spec fn none_sought(e: Seq<Exchange>) -> bool {
    forall|i: int| 0 <= i < e.len() ==> !((#[trigger] e[i]).0 is Glob)
}

/// What a phase knows of the files that were offered.
spec fn knows_offered(e: Seq<Exchange>, run: RunView) -> bool {
    match run.phase {
        PhaseView::Expand { found, .. } => text::ascending(found) && forall|file: Seq<char>| #[trigger]
            was_offered(e, run.place.style, file) ==> found.contains(file),
        PhaseView::ReadFile { .. } => true,
        PhaseView::Upload { .. } => true,
        PhaseView::Verify { .. } => true,
        PhaseView::Record { .. } => true,
        PhaseView::Save { .. } => true,
        PhaseView::Reread { .. } => true,
        PhaseView::Remove { .. } => true,
        PhaseView::Finished { outcome: Err(Failure::NothingMatches { .. }) } => forall|
            file: Seq<char>,
        | !#[trigger] was_offered(e, run.place.style, file),
        PhaseView::Finished { .. } => true,
        _ => none_sought(e),
    }
}

/// Whether a reply brings the failure that nothing matches.
spec fn brings_nothing_matches(reply: ReplyView) -> bool {
    match reply {
        Reply::Flag(Err(Failure::NothingMatches { .. })) => true,
        Reply::Ended(Err(Failure::NothingMatches { .. })) => true,
        Reply::Vault(Err(Failure::NothingMatches { .. })) => true,
        Reply::Created(Err(Failure::NothingMatches { .. })) => true,
        Reply::Document(Err(Failure::NothingMatches { .. })) => true,
        _ => false,
    }
}

proof fn lemma_none_sought(e: Seq<Exchange>, style: paths::Style)
    requires
        none_sought(e),
    ensures
        forall|file: Seq<char>| !#[trigger] was_offered(e, style, file),
{
    assert forall|file: Seq<char>| !#[trigger] was_offered(e, style, file) by {
        if was_offered(e, style, file) {
            let i = choose|i: int| 0 <= i < e.len() && offers(#[trigger] e[i], style, file);
            assert(e[i].0 is Glob);
        }
    }
}

proof fn lemma_offered_one_more(e: Seq<Exchange>, x: Exchange, style: paths::Style, file: Seq<char>)
    requires
        was_offered(e.push(x), style, file),
    ensures
        was_offered(e, style, file) || offers(x, style, file),
{
    let all = e.push(x);
    let i = choose|i: int| 0 <= i < all.len() && offers(#[trigger] all[i], style, file);
    if i < e.len() {
        assert(offers(e[i], style, file));
    }
}

#[verifier::spinoff_prover]
#[verifier::rlimit(40)]
proof fn lemma_knows_offered_step(e: Seq<Exchange>, run: RunView, reply: ReplyView)
    requires
        knows_offered(e, run),
        model::request_of(run) is Some,
        !brings_nothing_matches(reply),
    ensures
        knows_offered(e.push((model::request_of(run)->0, reply)), model::step(run, reply)),
{
    let x = (model::request_of(run)->0, reply);
    let all = e.push(x);
    let style = run.place.style;
    let next = model::step(run, reply);
    if let PhaseView::Expand { found, .. } = run.phase {
        if let Reply::Matches(Ok(entries)) = reply {
            let taken = expand::with_entries(run.place.cwd, style, found, entries).0;
            expansion::expansion_is_exact(run.place.cwd, style, found, entries);
            assert forall|file: Seq<char>| #[trigger] was_offered(
                all,
                style,
                file,
            ) implies taken.contains(file) by {
                lemma_offered_one_more(e, x, style, file);
                if was_offered(e, style, file) {
                    assert(found.contains(file));
                } else {
                    assert(expansion::is_offered(style, entries, file));
                }
            }
            if taken.len() == 0 {
                assert forall|file: Seq<char>| !#[trigger] was_offered(all, style, file) by {
                    if was_offered(all, style, file) {
                        assert(taken.contains(file));
                    }
                }
            }
        }
    } else if none_sought(e) {
        assert forall|i: int| 0 <= i < all.len() implies !((#[trigger] all[i]).0 is Glob) by {
            if i < e.len() {
                assert(all[i] == e[i]);
            }
        }
        lemma_none_sought(all, style);
    }
}

/// Where nothing fails, locking ends because nothing matches only where no
/// pattern matched a file that can be protected.
pub proof fn nothing_matches_only_where_nothing_was_offered(
    start: RunView,
    replies: Seq<ReplyView>,
    file: Seq<char>,
)
    requires
        runs::is_start(start),
        endings::all_well(runs::history(start, replies)),
        runs::after(start, replies).phase matches PhaseView::Finished {
            outcome: Err(Failure::NothingMatches { .. }),
        },
    ensures
        !was_offered(runs::history(start, replies), start.place.style, file),
{
    lemma_knows_offered_well(start, replies);
    runs::lemma_fixed(start, replies);
}

proof fn lemma_knows_offered_well(start: RunView, replies: Seq<ReplyView>)
    requires
        runs::is_start(start),
        endings::all_well(runs::history(start, replies)),
    ensures
        knows_offered(runs::history(start, replies), runs::after(start, replies)),
    decreases replies.len(),
{
    if replies.len() > 0 {
        let shorter = replies.drop_last();
        let run = runs::after(start, shorter);
        let e = runs::history(start, shorter);
        if model::request_of(run) is Some {
            let x = (model::request_of(run)->0, replies.last());
            assert(runs::history(start, replies) == e.push(x));
            endings::lemma_well_before(e, x);
            assert(e.push(x)[e.len() as int] == x);
            lemma_knows_offered_well(start, shorter);
            if brings_nothing_matches(replies.last()) {
                assert(run.phase is SaveFresh || run.phase is Save);
                lemma_backup_brings_nothing(e, run, replies.last());
            } else {
                lemma_knows_offered_step(e, run, replies.last());
            }
        } else {
            lemma_knows_offered_well(start, shorter);
        }
    }
}

/// What a backup brings is only warned of.
proof fn lemma_backup_brings_nothing(e: Seq<Exchange>, run: RunView, reply: ReplyView)
    requires
        knows_offered(e, run),
        run.phase is SaveFresh || run.phase is Save,
        reply is Ended,
    ensures
        knows_offered(e.push((model::request_of(run)->0, reply)), model::step(run, reply)),
{
    let x = (model::request_of(run)->0, reply);
    let all = e.push(x);
    if none_sought(e) {
        assert forall|i: int| 0 <= i < all.len() implies !((#[trigger] all[i]).0 is Glob) by {
            if i < e.len() {
                assert(all[i] == e[i]);
            }
        }
    }
}

#[verifier::spinoff_prover]
#[verifier::rlimit(40)]
proof fn lemma_lock_step(e: Seq<Exchange>, run: RunView, reply: ReplyView)
    requires
        runs::in_lock(run.phase),
        !(run.phase is Finished),
        traced(e, run),
        endings::is_rechecking(e, run.phase),
        endings::goes_well(e.push((model::request_of(run)->0, reply)), e.len() as int),
    ensures
        model::step(run, reply).phase matches PhaseView::Finished { outcome: Err(f) }
            ==> f is NothingMatches,
{
    let x = (model::request_of(run)->0, reply);
    let all = e.push(x);
    let len = e.len() as int;
    assert(all[len] == x);
    if len > 0 {
        assert(all[len - 1] == e[len - 1]);
    }
    match run.phase {
        PhaseView::Reread { batch, content } => {
            if recorded_from(e, len - 4, batch, content) {
                assert(all[len - 4] == e[len - 4]);
                assert(reads(all[len - 4], batch.files[0], content));
            } else {
                assert(all[len - 5] == e[len - 5]);
                assert(reads(all[len - 5], batch.files[0], content));
            }
            if let Reply::Content(Ok(bytes)) = reply {
                assert(endings::is_steady(all, len, batch.files[0], bytes));
            }
        },
        PhaseView::Verify { batch, content, id } => {
            assert(stores(all[len - 1], batch.vault, id, content));
        },
        _ => {},
    }
}

/// Locking gets on: where nothing fails, what was stored comes back as it is and
/// no file changes meanwhile, it ends badly only where nothing matches. So all
/// that was offered is stored, recorded and, where files are not kept, deleted.
pub proof fn locking_gets_on(start: RunView, replies: Seq<ReplyView>)
    requires
        runs::is_start_of(start, Command::Lock),
        endings::all_well(runs::history(start, replies)),
    ensures
        runs::after(start, replies).phase matches PhaseView::Finished { outcome: Err(f) }
            ==> f is NothingMatches,
    decreases replies.len(),
{
    if replies.len() > 0 {
        let shorter = replies.drop_last();
        let run = runs::after(start, shorter);
        let e = runs::history(start, shorter);
        runs::lemma_phases(start, shorter);
        endings::lemma_rechecking(start, shorter);
        lemma_traced(start, shorter);
        if model::request_of(run) is Some {
            let x = (model::request_of(run)->0, replies.last());
            assert(runs::history(start, replies) == e.push(x));
            endings::lemma_well_before(e, x);
            locking_gets_on(start, shorter);
            lemma_lock_step(e, run, replies.last());
        } else {
            locking_gets_on(start, shorter);
        }
    }
}

/// Locking does its work: where nothing fails and a file was offered, the run
/// that is over ended well, every pattern in `.prot` was looked for, and the
/// file is deleted, or stored and recorded where files are kept. Only an empty
/// file is left as it is.
pub proof fn locking_does_its_work(start: RunView, replies: Seq<ReplyView>, file: Seq<char>)
    requires
        runs::is_start_of(start, Command::Lock),
        endings::all_well(runs::history(start, replies)),
        runs::after(start, replies).phase is Finished,
        was_offered(runs::history(start, replies), start.place.style, file),
    ensures
        runs::after(start, replies).phase matches PhaseView::Finished { outcome } && outcome is Ok,
        all_looked_for(runs::history(start, replies), start.place),
        is_dealt_with(runs::history(start, replies), start.keep, file),
{
    locking_gets_on(start, replies);
    if runs::after(start, replies).phase matches PhaseView::Finished { outcome } && outcome is Err {
        nothing_matches_only_where_nothing_was_offered(start, replies, file);
    }
    every_pattern_is_looked_for(start, replies);
    a_success_leaves_no_file_out(start, replies, file);
}

/// A file was read in this run.
pub open spec fn something_was_read(e: Seq<Exchange>) -> bool {
    exists|i: int| 0 <= i < e.len() && (#[trigger] e[i]).0 is ReadFile
}

/// Whether a phase deals with files that were found.
spec fn deals_with_files(phase: PhaseView) -> bool {
    match phase {
        PhaseView::Upload { .. } => true,
        PhaseView::Verify { .. } => true,
        PhaseView::Record { .. } => true,
        PhaseView::Save { .. } => true,
        PhaseView::Reread { .. } => true,
        PhaseView::Remove { .. } => true,
        PhaseView::Finished { outcome } => outcome is Ok,
        _ => false,
    }
}

#[verifier::spinoff_prover]
#[verifier::rlimit(40)]
proof fn lemma_something_read_step(e: Seq<Exchange>, run: RunView, reply: ReplyView)
    requires
        runs::in_lock(run.phase),
        !(run.phase is Finished),
        deals_with_files(run.phase) ==> something_was_read(e),
    ensures
        deals_with_files(model::step(run, reply).phase) ==> something_was_read(
            e.push((model::request_of(run)->0, reply)),
        ),
{
    let x = (model::request_of(run)->0, reply);
    let all = e.push(x);
    if something_was_read(e) {
        let i = choose|i: int| 0 <= i < e.len() && (#[trigger] e[i]).0 is ReadFile;
        assert(all[i] == e[i]);
    } else if run.phase is ReadFile {
        assert(all[e.len() as int].0 is ReadFile);
    }
}

/// Locking ends well only where there was something to lock: at least one file
/// was found and read.
pub proof fn a_success_means_that_something_was_found(start: RunView, replies: Seq<ReplyView>)
    requires
        runs::is_start_of(start, Command::Lock),
        runs::after(start, replies).phase matches PhaseView::Finished { outcome } && outcome is Ok,
    ensures
        something_was_read(runs::history(start, replies)),
{
    lemma_something_read(start, replies);
}

proof fn lemma_something_read(start: RunView, replies: Seq<ReplyView>)
    requires
        runs::is_start_of(start, Command::Lock),
    ensures
        deals_with_files(runs::after(start, replies).phase) ==> something_was_read(
            runs::history(start, replies),
        ),
    decreases replies.len(),
{
    if replies.len() > 0 {
        let shorter = replies.drop_last();
        let run = runs::after(start, shorter);
        lemma_something_read(start, shorter);
        runs::lemma_phases(start, shorter);
        if model::request_of(run) is Some {
            lemma_something_read_step(runs::history(start, shorter), run, replies.last());
        }
    }
}

/// Where no pattern is left and nothing was found, locking ends and tells the
/// patterns; where something was found, it goes on to the first file.
pub proof fn the_end_of_the_search(run: RunView, entries: Seq<Entry<Seq<char>>>)
    requires
        run.phase is Expand,
        run.phase->left.len() == 1,
    ensures
        ({
            let found = expand::with_entries(
                run.place.cwd,
                run.place.style,
                run.phase->found,
                entries,
            ).0;
            let next = model::step(run, Reply::Matches(Ok(entries))).phase;
            if found.len() == 0 {
                next == (PhaseView::Finished {
                    outcome: Err(
                        Failure::NothingMatches {
                            patterns: text::joined(run.phase->Expand_prot.patterns, ", "@),
                        },
                    ),
                })
            } else {
                next is ReadFile && next->ReadFile_batch.files == found
                    && next->ReadFile_batch.prot == run.phase->Expand_prot
                    && next->ReadFile_batch.vault == run.phase->Expand_vault
                    && next->ReadFile_batch.locked == 0
            }
        }),
{
    assert(run.phase->left.skip(1).len() == 0);
}

} // verus!
