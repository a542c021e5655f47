//! What unlocking and the choice between locking and unlocking guarantee.

use super::locking;
use super::round_trip;
use super::runs;
use crate::commands::model;
use crate::commands::model::Command;
use crate::commands::model::PhaseView;
use crate::commands::model::RecoveryView;
use crate::commands::model::RunView;
use crate::commands::model::Way;
use crate::commands::OWNER_ONLY;
use crate::commands::VAULT_NAME;
use crate::exchange::Reply;
use crate::exchange::ReplyView;
use crate::exchange::Request;
use crate::failure::Failure;
use crate::paths;
use crate::paths::Style;
use crate::prot;
use crate::prot::ProtView;
use crate::prot::Reading;
use crate::session::Exchange;
use crate::text;
use vstd::prelude::*;

verus! {

// ---------------------------------------------------------------------------
// paths that could leave the working directory
// ---------------------------------------------------------------------------
/// Whether all recorded paths are plain.
pub open spec fn all_plain(style: Style, documents: Seq<(Seq<char>, Seq<char>)>) -> bool {
    forall|i: int| 0 <= i < documents.len() ==> paths::is_plain(style, (#[trigger] documents[i]).0)
}

/// No recorded path is refused if and only if all are plain, and one that is
/// refused is recorded and not plain.
pub proof fn lemma_first_refused(style: Style, documents: Seq<(Seq<char>, Seq<char>)>)
    ensures
        match model::first_refused(style, documents) {
            Some(file) => !paths::is_plain(style, file) && exists|i: int|
                0 <= i < documents.len() && (#[trigger] documents[i]).0 == file,
            None => all_plain(style, documents),
        },
    decreases documents.len(),
{
    if documents.len() > 0 {
        let rest = documents.skip(1);
        lemma_first_refused(style, rest);
        if !paths::is_plain(style, documents[0].0) {
            assert(documents[0].0 == documents[0].0);
        } else {
            match model::first_refused(style, rest) {
                Some(file) => {
                    let i = choose|i: int|
                        0 <= i < rest.len() && (#[trigger] rest[i]).0 == file;
                    assert(documents[i + 1] == rest[i]);
                },
                None => {
                    assert forall|i: int| 0 <= i < documents.len() implies paths::is_plain(
                        style,
                        (#[trigger] documents[i]).0,
                    ) by {
                        if i > 0 {
                            assert(paths::is_plain(style, rest[i - 1].0));
                        }
                    }
                },
            }
        }
    }
}

/// The path that is told is the first that could leave the working directory.
pub proof fn the_first_bad_path_is_told(
    style: Style,
    documents: Seq<(Seq<char>, Seq<char>)>,
    i: int,
)
    requires
        0 <= i < documents.len(),
        !paths::is_plain(style, documents[i].0),
        forall|j: int| 0 <= j < i ==> paths::is_plain(style, (#[trigger] documents[j]).0),
    ensures
        model::first_refused(style, documents) == Some(documents[i].0),
    decreases documents.len(),
{
    if i > 0 {
        let rest = documents.skip(1);
        assert(paths::is_plain(style, documents[0].0));
        assert forall|j: int| 0 <= j < i - 1 implies paths::is_plain(
            style,
            (#[trigger] rest[j]).0,
        ) by {
            assert(rest[j] == documents[j + 1]);
        }
        assert(rest[i - 1] == documents[i]);
        the_first_bad_path_is_told(style, rest, i - 1);
    }
}

/// One recorded path that could leave the working directory stops unlocking,
/// and the choice between locking and unlocking, before anything is restored
/// or even looked at.
pub proof fn a_tampered_path_stops_everything(run: RunView, t: Seq<char>)
    requires
        run.phase is ReadToUnlock || run.phase is Inspect,
        !all_plain(run.place.style, prot::parsed(t).documents),
    ensures
        model::step(run, Reply::Prot(Reading::Text(t))).phase matches PhaseView::Finished {
            outcome: Err(Failure::RefusedPath { file }),
        } && !paths::is_plain(run.place.style, file),
{
    lemma_first_refused(run.place.style, prot::parsed(t).documents);
}

/// The recorded documents that a phase deals with.
spec fn documents_in(phase: PhaseView) -> Seq<(Seq<char>, Seq<char>)> {
    match phase {
        PhaseView::Survey { unseen, .. } => unseen,
        PhaseView::ConfirmVault { way: Way::Unlock, prot, .. } => prot.documents,
        PhaseView::FindVault { way: Way::Unlock, prot } => prot.documents,
        PhaseView::Probe { recovery } => recovery.documents,
        PhaseView::Fetch { recovery } => recovery.documents,
        PhaseView::Guard { recovery, .. } => recovery.documents,
        PhaseView::Restore { recovery, .. } => recovery.documents,
        _ => seq![],
    }
}

/// A phase that goes through documents has one at hand.
spec fn at_hand(phase: PhaseView) -> bool {
    match phase {
        PhaseView::Survey { unseen, .. } => unseen.len() > 0,
        PhaseView::Probe { recovery } => recovery.documents.len() > 0,
        PhaseView::Fetch { recovery } => recovery.documents.len() > 0,
        PhaseView::Guard { recovery, dirs, .. } => recovery.documents.len() > 0 && dirs.len() > 0,
        PhaseView::Restore { recovery, .. } => recovery.documents.len() > 0,
        _ => true,
    }
}

/// The documents of the next phase are those of this one, or all but the first,
/// or were just read and are all plain.
#[verifier::spinoff_prover]
#[verifier::rlimit(40)]
proof fn lemma_documents_step(run: RunView, reply: ReplyView)
    requires
        at_hand(run.phase),
    ensures
        at_hand(model::step(run, reply).phase),
        ({
            let now = documents_in(run.phase);
            let next = documents_in(model::step(run, reply).phase);
            ||| next == now
            ||| now.len() > 0 && next == now.skip(1)
            ||| next.len() == 0
            ||| {
                &&& model::request_of(run) == Some(
                    Request::<Seq<char>, Seq<u8>, ProtView>::ReadProt,
                )
                &&& reply matches Reply::Prot(Reading::Text(t))
                &&& next == prot::parsed(t).documents
                &&& all_plain(run.place.style, next)
            }
        }),
{
    if let Reply::Prot(Reading::Text(t)) = reply {
        lemma_first_refused(run.place.style, prot::parsed(t).documents);
    }
}

proof fn lemma_plain(start: RunView, replies: Seq<ReplyView>)
    requires
        runs::is_start(start),
    ensures
        at_hand(runs::after(start, replies).phase),
        all_plain(start.place.style, documents_in(runs::after(start, replies).phase)),
    decreases replies.len(),
{
    if replies.len() > 0 {
        let shorter = replies.drop_last();
        lemma_plain(start, shorter);
        runs::lemma_fixed(start, shorter);
        let run = runs::after(start, shorter);
        lemma_documents_step(run, replies.last());
        let now = documents_in(run.phase);
        let next = documents_in(runs::after(start, replies).phase);
        if now.len() > 0 && next == now.skip(1) {
            assert forall|i: int| 0 <= i < next.len() implies paths::is_plain(
                start.place.style,
                (#[trigger] next[i]).0,
            ) by {
                assert(next[i] == now[i + 1]);
            }
        }
    }
}

/// Whether a phase that goes through recorded documents has one at hand.
pub open spec fn has_document(phase: PhaseView) -> bool {
    match phase {
        PhaseView::Survey { unseen, .. } => unseen.len() > 0,
        PhaseView::Probe { recovery } => recovery.documents.len() > 0,
        PhaseView::Fetch { recovery } => recovery.documents.len() > 0,
        PhaseView::Guard { recovery, .. } => recovery.documents.len() > 0,
        PhaseView::Restore { recovery, .. } => recovery.documents.len() > 0,
        _ => true,
    }
}

/// A phase that goes through recorded documents has one at hand.
pub proof fn lemma_has_document(start: RunView, replies: Seq<ReplyView>)
    requires
        runs::is_start(start),
    ensures
        has_document(runs::after(start, replies).phase),
{
    lemma_plain(start, replies);
}

/// Only plain paths below the working directory and the directories on the way
/// to them are looked at on disk, and only there is anything restored, for its
/// owner alone to read.
pub proof fn restores_stay_inside(start: RunView, replies: Seq<ReplyView>)
    requires
        runs::is_start(start),
    ensures
        match model::request_of(runs::after(start, replies)) {
            Some(Request::Exists { file }) => paths::is_plain(start.place.style, file),
            Some(Request::IsLink { dir }) => is_on_a_plain_way(start.place.style, dir),
            Some(Request::WriteNew { file, mode, .. }) => paths::is_plain(start.place.style, file)
                && mode == OWNER_ONLY,
            _ => true,
        },
{
    let phase = runs::after(start, replies).phase;
    let style = start.place.style;
    lemma_plain(start, replies);
    lemma_traced(start, replies);
    let documents = documents_in(phase);
    if documents.len() > 0 {
        assert(paths::is_plain(style, documents[0].0));
    }
    if let PhaseView::Guard { recovery, dirs, .. } = phase {
        let way = paths::directories_to(style, recovery.documents[0].0);
        assert(way[way.len() - dirs.len()] == dirs[0]);
        assert(way.contains(dirs[0]));
    }
}

/// Whether a directory lies on the way to a plain path.
pub open spec fn is_on_a_plain_way(style: Style, dir: Seq<char>) -> bool {
    exists|file: Seq<char>| #[trigger]
        paths::is_plain(style, file) && paths::directories_to(style, file).contains(dir)
}

// ---------------------------------------------------------------------------
// what is restored
// ---------------------------------------------------------------------------
/// The exchange shows that `.prot` records the document, and that it names the
/// vault where it names one.
pub open spec fn records(x: Exchange, vault: Seq<char>, entry: (Seq<char>, Seq<char>)) -> bool {
    match x {
        (Request::ReadProt, Reply::Prot(Reading::Text(t))) => {
            &&& prot::parsed(t).documents.contains(entry)
            &&& prot::parsed(t).vault matches Some(id) ==> id == vault
        },
        _ => false,
    }
}

/// `.prot` was found to record the document in this run.
pub open spec fn was_recorded(
    e: Seq<Exchange>,
    vault: Seq<char>,
    entry: (Seq<char>, Seq<char>),
) -> bool {
    exists|i: int| 0 <= i < e.len() && records(#[trigger] e[i], vault, entry)
}

/// The contents of `.prot` that unlocking settles the vault for.
spec fn prot_in(phase: PhaseView) -> Option<ProtView> {
    match phase {
        PhaseView::ConfirmVault { way: Way::Unlock, prot, .. } => Some(prot),
        PhaseView::FindVault { way: Way::Unlock, prot } => Some(prot),
        _ => None,
    }
}

/// The exchange shows what `.prot` holds.
spec fn shows(x: Exchange, data: ProtView) -> bool {
    match x {
        (Request::ReadProt, Reply::Prot(Reading::Text(t))) => prot::parsed(t) == data,
        _ => false,
    }
}

/// The documents on their way back to disk.
spec fn recovery_in(phase: PhaseView) -> Option<RecoveryView> {
    match phase {
        PhaseView::Probe { recovery } => Some(recovery),
        PhaseView::Fetch { recovery } => Some(recovery),
        PhaseView::Guard { recovery, .. } => Some(recovery),
        PhaseView::Restore { recovery, .. } => Some(recovery),
        _ => None,
    }
}

/// What has led to a phase of unlocking.
spec fn traced(e: Seq<Exchange>, style: Style, phase: PhaseView) -> bool {
    let len = e.len() as int;
    &&& prot_in(phase) matches Some(data) ==> exists|i: int|
        0 <= i < e.len() && shows(#[trigger] e[i], data)
    &&& phase matches PhaseView::ConfirmVault { prot, id, .. } ==> prot.vault == Some(id)
    &&& phase matches PhaseView::FindVault { prot, .. } ==> prot.vault is None
    &&& recovery_in(phase) matches Some(recovery) ==> forall|k: int|
        0 <= k < recovery.documents.len() ==> was_recorded(
            e,
            recovery.vault,
            #[trigger] recovery.documents[k],
        )
    &&& phase matches PhaseView::Fetch { recovery } ==> {
        &&& len >= 1
        &&& is_absent(e[len - 1], recovery.documents[0].0)
    }
    &&& phase matches PhaseView::Guard { recovery, content, dirs } ==> {
        let all = paths::directories_to(style, recovery.documents[0].0);
        &&& 0 < dirs.len() <= all.len()
        &&& dirs == all.skip(all.len() - dirs.len())
        &&& fetched_and_looked_at(e, all, (all.len() - dirs.len()) as nat, recovery, content)
    }
    &&& phase matches PhaseView::Restore { recovery, content } ==> {
        let all = paths::directories_to(style, recovery.documents[0].0);
        fetched_and_looked_at(e, all, all.len(), recovery, content)
    }
}

/// Nothing was found at the path of the document at hand, then it was fetched,
/// and then the first `n` of these directories were found to be no links.
spec fn fetched_and_looked_at(
    e: Seq<Exchange>,
    dirs: Seq<Seq<char>>,
    n: nat,
    recovery: RecoveryView,
    content: Seq<u8>,
) -> bool {
    let at = e.len() - n;
    &&& at >= 2 && n <= dirs.len()
    &&& is_absent(e[at - 2], recovery.documents[0].0)
    &&& locking::fetches(e[at - 1], recovery.vault, recovery.documents[0].1, content)
    &&& no_links(e, dirs.take(n as int))
}

/// The last exchanges show, one after the other, that these directories are no
/// links.
pub open spec fn no_links(e: Seq<Exchange>, dirs: Seq<Seq<char>>) -> bool {
    &&& dirs.len() <= e.len()
    &&& forall|k: int|
        0 <= k < dirs.len() ==> is_no_link(
            e[e.len() - dirs.len() + k],
            #[trigger] dirs[k],
        )
}

/// The exchange shows that the directory is no link.
pub open spec fn is_no_link(x: Exchange, dir: Seq<char>) -> bool {
    x == runs::told(Request::IsLink { dir }, Reply::Link(Some(false)))
}

/// The exchange shows that nothing is at this path.
pub open spec fn is_absent(x: Exchange, file: Seq<char>) -> bool {
    x == runs::told(Request::Exists { file }, Reply::Presence(Some(false)))
}

proof fn lemma_recorded_longer(
    e: Seq<Exchange>,
    x: Exchange,
    vault: Seq<char>,
    entry: (Seq<char>, Seq<char>),
)
    requires
        was_recorded(e, vault, entry),
    ensures
        was_recorded(e.push(x), vault, entry),
{
    let i = choose|i: int| 0 <= i < e.len() && records(#[trigger] e[i], vault, entry);
    assert(records(e.push(x)[i], vault, entry));
}

/// How the documents on their way come about.
#[verifier::spinoff_prover]
#[verifier::rlimit(40)]
proof fn lemma_recovery_step(run: RunView, reply: ReplyView)
    requires
        at_hand(run.phase),
        run.phase matches PhaseView::ConfirmVault { prot, id, .. } ==> prot.vault == Some(id),
        run.phase matches PhaseView::FindVault { prot, .. } ==> prot.vault is None,
    ensures
        ({
            let next = model::step(run, reply).phase;
            &&& next matches PhaseView::ConfirmVault { prot, id, .. } ==> prot.vault == Some(id)
            &&& next matches PhaseView::FindVault { prot, .. } ==> prot.vault is None
            &&& prot_in(next) matches Some(data) ==> {
                ||| prot_in(run.phase) == Some(data)
                ||| model::request_of(run) matches Some(request) && shows((request, reply), data)
            }
            &&& recovery_in(next) matches Some(recovery) ==> {
                ||| prot_in(run.phase) matches Some(data) && recovery.documents == data.documents
                    && (data.vault matches Some(id) ==> id == recovery.vault)
                ||| recovery_in(run.phase) matches Some(before) && recovery.vault == before.vault
                    && (recovery.documents == before.documents || recovery.documents
                    == before.documents.skip(1))
            }
        }),
{
}

#[verifier::spinoff_prover]
#[verifier::rlimit(40)]
proof fn lemma_traced_step(e: Seq<Exchange>, run: RunView, reply: ReplyView)
    requires
        at_hand(run.phase),
        traced(e, run.place.style, run.phase),
        model::request_of(run) is Some,
    ensures
        traced(
            e.push((model::request_of(run)->0, reply)),
            run.place.style,
            model::step(run, reply).phase,
        ),
{
    let x = (model::request_of(run)->0, reply);
    let all = e.push(x);
    let len = e.len() as int;
    let next = model::step(run, reply).phase;
    lemma_recovery_step(run, reply);
    assert(all[len] == x);
    if let Some(data) = prot_in(next) {
        if prot_in(run.phase) == Some(data) {
            let i = choose|i: int| 0 <= i < e.len() && shows(#[trigger] e[i], data);
            assert(shows(all[i], data));
        } else {
            assert(shows(all[len], data));
        }
    }
    if let Some(recovery) = recovery_in(next) {
        assert forall|k: int| 0 <= k < recovery.documents.len() implies was_recorded(
            all,
            recovery.vault,
            #[trigger] recovery.documents[k],
        ) by {
            if let Some(data) = prot_in(run.phase) {
                let i = choose|i: int| 0 <= i < e.len() && shows(#[trigger] e[i], data);
                assert(all[i] == e[i]);
                assert(data.documents.contains(recovery.documents[k]));
                assert(records(all[i], recovery.vault, recovery.documents[k]));
            } else {
                let before = recovery_in(run.phase)->0;
                if recovery.documents == before.documents {
                    assert(was_recorded(e, before.vault, before.documents[k]));
                } else {
                    assert(was_recorded(e, before.vault, before.documents[k + 1]));
                }
                lemma_recorded_longer(e, x, recovery.vault, recovery.documents[k]);
            }
        }
    }
    if len > 0 {
        assert(all[len - 1] == e[len - 1]);
    }
    lemma_guard_step(e, run, reply);
}

/// One reply keeps what is known of the directories on the way.
#[verifier::spinoff_prover]
#[verifier::rlimit(40)]
proof fn lemma_guard_step(e: Seq<Exchange>, run: RunView, reply: ReplyView)
    requires
        at_hand(run.phase),
        traced(e, run.place.style, run.phase),
        model::request_of(run) is Some,
    ensures
        ({
            let all = e.push((model::request_of(run)->0, reply));
            let style = run.place.style;
            match model::step(run, reply).phase {
                PhaseView::Guard { recovery, content, dirs } => {
                    let way = paths::directories_to(style, recovery.documents[0].0);
                    &&& 0 < dirs.len() <= way.len()
                    &&& dirs == way.skip(way.len() - dirs.len())
                    &&& fetched_and_looked_at(
                        all,
                        way,
                        (way.len() - dirs.len()) as nat,
                        recovery,
                        content,
                    )
                },
                PhaseView::Restore { recovery, content } => {
                    let way = paths::directories_to(style, recovery.documents[0].0);
                    fetched_and_looked_at(all, way, way.len(), recovery, content)
                },
                _ => true,
            }
        }),
{
    let x = (model::request_of(run)->0, reply);
    let all = e.push(x);
    let len = e.len() as int;
    let style = run.place.style;
    assert(all[len] == x);
    match (run.phase, reply) {
        (PhaseView::Fetch { recovery }, Reply::Document(Ok(content))) => {
            let way = paths::directories_to(style, recovery.documents[0].0);
            assert(all[len - 1] == e[len - 1]);
            assert(way.skip(0) =~= way);
            assert(way.take(0) =~= seq![]);
            assert(fetched_and_looked_at(all, way, 0, recovery, content));
        },
        (PhaseView::Guard { recovery, content, dirs }, Reply::Link(link)) => {
            let way = paths::directories_to(style, recovery.documents[0].0);
            let n = (way.len() - dirs.len()) as nat;
            if link == Some(false) {
                assert(dirs[0] == way[n as int]);
                assert(dirs.skip(1) =~= way.skip(n as int + 1));
                let seen = way.take(n as int);
                let more = way.take(n as int + 1);
                assert(no_links(e, seen));
                assert forall|k: int| 0 <= k < more.len() implies is_no_link(
                    all[all.len() - more.len() + k],
                    #[trigger] more[k],
                ) by {
                    if k < n {
                        assert(more[k] == seen[k]);
                        assert(is_no_link(e[e.len() - seen.len() + k], seen[k]));
                        assert(all[all.len() - more.len() + k] == e[e.len() - seen.len() + k]);
                    } else {
                        assert(all[all.len() - more.len() + k] == x);
                    }
                }
                assert(all[len - n - 2] == e[len - n - 2]);
                assert(all[len - n - 1] == e[len - n - 1]);
                assert(fetched_and_looked_at(all, way, (n + 1) as nat, recovery, content));
            }
        },
        _ => {},
    }
}

proof fn lemma_traced(start: RunView, replies: Seq<ReplyView>)
    requires
        runs::is_start(start),
    ensures
        traced(
            runs::history(start, replies),
            start.place.style,
            runs::after(start, replies).phase,
        ),
    decreases replies.len(),
{
    if replies.len() > 0 {
        let shorter = replies.drop_last();
        lemma_traced(start, shorter);
        lemma_plain(start, shorter);
        runs::lemma_fixed(start, shorter);
        let run = runs::after(start, shorter);
        if model::request_of(run) is Some {
            lemma_traced_step(runs::history(start, shorter), run, replies.last());
        }
    }
}

/// Whether a file is restored as recorded: nothing was found at its path, then
/// its contents were fetched from the document that `.prot` records for it,
/// from the vault that `.prot` names where it names one, and then every
/// directory on the way to it was found to be no link.
pub open spec fn restored_as_recorded(
    e: Seq<Exchange>,
    style: Style,
    file: Seq<char>,
    content: Seq<u8>,
) -> bool {
    let dirs = paths::directories_to(style, file);
    let at = e.len() - dirs.len();
    &&& at >= 2
    &&& is_absent(e[at - 2], file)
    &&& exists|vault: Seq<char>, id: Seq<char>| #[trigger]
        locking::fetches(e[at - 1], vault, id, content) && was_recorded(e, vault, (file, id))
    &&& no_links(e, dirs)
}

/// A file is restored only where nothing was, through no link, and with the
/// very bytes of the document that `.prot` records for it.
pub proof fn a_file_is_restored_as_recorded(start: RunView, replies: Seq<ReplyView>)
    requires
        runs::is_start(start),
    ensures
        model::request_of(runs::after(start, replies)) matches Some(
            Request::WriteNew { file, content, .. },
        ) ==> restored_as_recorded(
            runs::history(start, replies),
            start.place.style,
            file,
            content,
        ),
{
    let e = runs::history(start, replies);
    lemma_traced(start, replies);
    lemma_plain(start, replies);
    let phase = runs::after(start, replies).phase;
    if let PhaseView::Restore { recovery, content } = phase {
        let at = recovery_in(phase)->0;
        assert(at == recovery);
        assert(was_recorded(e, at.vault, at.documents[0]));
        assert(at.documents[0] == (at.documents[0].0, at.documents[0].1));
        let dirs = paths::directories_to(start.place.style, at.documents[0].0);
        assert(dirs.take(dirs.len() as int) =~= dirs);
        assert(locking::fetches(
            e[e.len() - dirs.len() - 1],
            at.vault,
            at.documents[0].1,
            content,
        ));
    }
}

/// A directory on the way that is a link, or that could not be looked at, stops
/// unlocking before the file is restored.
pub proof fn a_link_on_the_way_stops_unlocking(run: RunView, dir: Seq<char>, link: Option<bool>)
    requires
        model::request_of(run) == Some(Request::<Seq<char>, Seq<u8>, ProtView>::IsLink { dir }),
        link != Some(false),
    ensures
        model::step(run, Reply::Link(link)).phase matches PhaseView::Finished {
            outcome: Err(Failure::LinkedDirectory { dir: d, .. }),
        } && d == dir,
{
}

/// Unlocking takes up what `.prot` holds: someone being signed in, the recorded
/// paths being plain, and the recorded vault being the right one, it goes
/// through just the recorded documents, with the recorded vault.
pub proof fn unlocking_takes_up_what_was_written(start: RunView, data: ProtView, vault: Seq<char>)
    requires
        runs::is_start_of(start, Command::Unlock),
        round_trip::storable(data),
        data.vault == Some(vault),
        data.documents.len() > 0,
        all_plain(start.place.style, data.documents),
    ensures
        runs::after(
            start,
            seq![
                Reply::Flag(Ok(true)),
                Reply::Prot(Reading::Text(prot::serialized(data))),
                Reply::Vault(Ok(Some(VAULT_NAME@))),
            ],
        ).phase == (PhaseView::Probe {
            recovery: RecoveryView { vault, documents: data.documents, unlocked: 0 },
        }),
{
    let signed_in: ReplyView = Reply::Flag(Ok(true));
    let read: ReplyView = Reply::Prot(Reading::Text(prot::serialized(data)));
    let named: ReplyView = Reply::Vault(Ok(Some(VAULT_NAME@)));
    round_trip::reading_gives_back_what_was_written(data);
    lemma_first_refused(start.place.style, data.documents);
    if let Some(file) = model::first_refused(start.place.style, data.documents) {
        let i = choose|i: int|
            0 <= i < data.documents.len() && (#[trigger] data.documents[i]).0 == file;
        assert(paths::is_plain(start.place.style, data.documents[i].0));
    }
    let one = seq![signed_in];
    let two = seq![signed_in, read];
    let three = seq![signed_in, read, named];
    assert(one.drop_last() =~= Seq::<ReplyView>::empty());
    assert(two.drop_last() =~= one);
    assert(three.drop_last() =~= two);
    assert(runs::after(start, Seq::<ReplyView>::empty()) == start);
    assert(runs::after(start, one).phase == PhaseView::ReadToUnlock);
    assert(runs::after(start, two).phase == (PhaseView::ConfirmVault {
        way: Way::Unlock,
        prot: data,
        id: vault,
    }));
}

/// Whether the exchange is no reading of `.prot`, or gives this text.
pub open spec fn reads_only(x: Exchange, t: Seq<char>) -> bool {
    match x {
        (Request::ReadProt, Reply::Prot(reading)) => reading == Reading::Text(t),
        _ => true,
    }
}

/// Whether the exchange does not fetch the document, or gives these contents.
pub open spec fn fetches_only(
    x: Exchange,
    vault: Seq<char>,
    id: Seq<char>,
    content: Seq<u8>,
) -> bool {
    match x {
        (Request::GetDocument { vault: v, id: i }, Reply::Document(Ok(bytes))) => v == vault && i
            == id ==> bytes == content,
        _ => true,
    }
}

/// Unlocking takes up what a run of locking writes: where the paths that `.prot`
/// recorded before were plain, and the names that the run came by can stand in
/// `.prot`, it refuses nothing and goes through just the recorded documents.
pub proof fn unlocking_takes_up_what_locking_wrote(
    lock: RunView,
    replies: Seq<ReplyView>,
    start: RunView,
    data: ProtView,
    vault: Seq<char>,
)
    requires
        runs::is_start(lock),
        model::request_of(runs::after(lock, replies)) == Some(
            Request::<Seq<char>, Seq<u8>, ProtView>::WriteProt { data },
        ),
        locking::all_clean(runs::history(lock, replies), lock.place.style),
        locking::held_plain(runs::history(lock, replies), lock.place),
        data.vault == Some(vault),
        data.documents.len() > 0,
        runs::is_start_of(start, Command::Unlock),
        start.place.style == lock.place.style,
    ensures
        runs::after(
            start,
            seq![
                Reply::Flag(Ok(true)),
                Reply::Prot(Reading::Text(prot::serialized(data))),
                Reply::Vault(Ok(Some(VAULT_NAME@))),
            ],
        ).phase == (PhaseView::Probe {
            recovery: RecoveryView { vault, documents: data.documents, unlocked: 0 },
        }),
{
    locking::what_is_written_stays_plain(lock, replies);
    locking::what_is_written_is_storable(lock, replies);
    unlocking_takes_up_what_was_written(start, data, vault);
}

/// A file is restored with the bytes of its one document.
proof fn lemma_restored_as_locked(
    locked: Seq<Exchange>,
    n: int,
    start: RunView,
    replies: Seq<ReplyView>,
    file: Seq<char>,
    vault: Seq<char>,
    id: Seq<char>,
    content: Seq<u8>,
    data: ProtView,
)
    requires
        locking::copied_and_recorded(locked, n, file, vault, id, content, data),
        round_trip::storable(data),
        round_trip::distinct_files(data.documents),
        runs::is_start(start),
        forall|i: int|
            0 <= i < runs::history(start, replies).len() ==> reads_only(
                #[trigger] runs::history(start, replies)[i],
                prot::serialized(data),
            ),
        forall|i: int|
            0 <= i < runs::history(start, replies).len() ==> fetches_only(
                #[trigger] runs::history(start, replies)[i],
                vault,
                id,
                content,
            ),
    ensures
        match model::request_of(runs::after(start, replies)) {
            Some(Request::WriteNew { file: f, content: bytes, .. }) => f == file ==> bytes
                == content,
            _ => true,
        },
{
    let e = runs::history(start, replies);
    if let Some(Request::WriteNew { file: f, content: bytes, .. }) = model::request_of(
        runs::after(start, replies),
    ) {
        if f == file {
            a_file_is_restored_as_recorded(start, replies);
            round_trip::reading_gives_back_what_was_written(data);
            let at = e.len() - paths::directories_to(start.place.style, file).len();
            let (v, other) = choose|v: Seq<char>, other: Seq<char>| #[trigger]
                locking::fetches(e[at - 1], v, other, bytes) && was_recorded(e, v, (file, other));
            let i = choose|i: int| 0 <= i < e.len() && records(#[trigger] e[i], v, (file, other));
            assert(reads_only(e[i], prot::serialized(data)));
            assert(data.documents.contains((file, other)));
            prot::lemma_position(data.documents, file);
            let j = choose|j: int|
                0 <= j < data.documents.len() && data.documents[j] == (file, other);
            assert(data.documents[j].0 == file);
            assert(other == id);
            assert(fetches_only(e[at - 1], vault, id, content));
        }
    }
}

/// What was locked is what is restored: where `.prot` holds the contents that a
/// run of locking wrote, and the document holds the bytes that it verified, the
/// file is restored with just those bytes. This holds where the names that the
/// run came by can stand in `.prot`, and no file had two documents before.
pub proof fn what_was_locked_is_what_is_restored(
    lock: RunView,
    lock_replies: Seq<ReplyView>,
    n: int,
    start: RunView,
    replies: Seq<ReplyView>,
    file: Seq<char>,
    vault: Seq<char>,
    id: Seq<char>,
    content: Seq<u8>,
    data: ProtView,
)
    requires
        runs::is_start(lock),
        locking::all_clean(runs::history(lock, lock_replies), lock.place.style),
        locking::held_distinct(runs::history(lock, lock_replies), lock.place),
        locking::copied_and_recorded(
            runs::history(lock, lock_replies),
            n,
            file,
            vault,
            id,
            content,
            data,
        ),
        runs::is_start(start),
        forall|i: int|
            0 <= i < runs::history(start, replies).len() ==> reads_only(
                #[trigger] runs::history(start, replies)[i],
                prot::serialized(data),
            ),
        forall|i: int|
            0 <= i < runs::history(start, replies).len() ==> fetches_only(
                #[trigger] runs::history(start, replies)[i],
                vault,
                id,
                content,
            ),
    ensures
        match model::request_of(runs::after(start, replies)) {
            Some(Request::WriteNew { file: f, content: bytes, .. }) => f == file ==> bytes
                == content,
            _ => true,
        },
{
    let e = runs::history(lock, lock_replies);
    let k = runs::lemma_asked(lock, lock_replies, n + 3);
    let earlier = lock_replies.take(k);
    let before = runs::history(lock, earlier);
    let path = paths::taken_from(lock.place, prot::PROT_FILE@);
    assert forall|i: int| 0 <= i < before.len() implies locking::is_clean(
        #[trigger] before[i],
        lock.place.style,
    ) by {
        assert(before[i] == e[i]);
    }
    assert forall|i: int, held: Seq<(Seq<char>, Seq<char>)>|
        0 <= i < before.len() && #[trigger] locking::shows_recorded(
            before[i],
            path,
            held,
        ) implies round_trip::distinct_files(held) by {
        assert(locking::shows_recorded(e[i], path, held));
    }
    locking::what_is_written_is_storable(lock, earlier);
    locking::what_is_written_has_each_file_once(lock, earlier);
    lemma_restored_as_locked(e, n, start, replies, file, vault, id, content, data);
}

// ---------------------------------------------------------------------------
// what a success means
// ---------------------------------------------------------------------------
/// The exchange shows that `.prot` records the document.
pub open spec fn lists(x: Exchange, entry: (Seq<char>, Seq<char>)) -> bool {
    match x {
        (Request::ReadProt, Reply::Prot(Reading::Text(t))) => prot::parsed(t).documents.contains(
            entry,
        ),
        _ => false,
    }
}

/// `.prot` was found to record the document.
pub open spec fn was_listed(e: Seq<Exchange>, entry: (Seq<char>, Seq<char>)) -> bool {
    exists|i: int| 0 <= i < e.len() && lists(#[trigger] e[i], entry)
}

/// The exchange shows that something is at this path, or cannot be ruled out to
/// be, or that the file was restored there.
pub open spec fn puts_right(x: Exchange, file: Seq<char>) -> bool {
    match x {
        (Request::Exists { file: f }, Reply::Presence(there)) => f == file
            && model::counts_as_present(there),
        (Request::WriteNew { file: f, .. }, Reply::Restored(outcome)) => f == file
            && outcome is Written,
        _ => false,
    }
}

/// The file is on disk, by what was found out in this run.
pub open spec fn is_on_disk(e: Seq<Exchange>, file: Seq<char>) -> bool {
    exists|i: int| 0 <= i < e.len() && puts_right(#[trigger] e[i], file)
}

/// All documents that were found to be recorded are among these, or their files
/// are on disk.
spec fn none_forgotten(e: Seq<Exchange>, documents: Seq<(Seq<char>, Seq<char>)>) -> bool {
    forall|entry: (Seq<char>, Seq<char>)| #[trigger]
        was_listed(e, entry) ==> documents.contains(entry) || is_on_disk(e, entry.0)
}

/// No document is forgotten in a phase of unlocking.
spec fn is_complete(e: Seq<Exchange>, phase: PhaseView) -> bool {
    match phase {
        PhaseView::Finished { outcome } => outcome is Ok ==> none_forgotten(e, seq![]),
        PhaseView::SigningIn { .. } => e_lists_nothing(e),
        PhaseView::ReadToUnlock => e_lists_nothing(e),
        _ => none_forgotten(e, documents_in(phase)),
    }
}

/// `.prot` was not read yet.
spec fn e_lists_nothing(e: Seq<Exchange>) -> bool {
    forall|entry: (Seq<char>, Seq<char>)| !#[trigger] was_listed(e, entry)
}

proof fn lemma_listed_shorter(e: Seq<Exchange>, x: Exchange, entry: (Seq<char>, Seq<char>))
    requires
        was_listed(e.push(x), entry),
    ensures
        was_listed(e, entry) || lists(x, entry),
{
    let all = e.push(x);
    let i = choose|i: int| 0 <= i < all.len() && lists(#[trigger] all[i], entry);
    if i < e.len() {
        assert(lists(e[i], entry));
    }
}

#[verifier::spinoff_prover]
#[verifier::rlimit(40)]
proof fn lemma_complete_step(e: Seq<Exchange>, run: RunView, reply: ReplyView)
    requires
        runs::in_unlock(run.phase),
        at_hand(run.phase),
        is_complete(e, run.phase),
        model::request_of(run) is Some,
    ensures
        is_complete(
            e.push((model::request_of(run)->0, reply)),
            model::step(run, reply).phase,
        ),
{
    let x = (model::request_of(run)->0, reply);
    let all = e.push(x);
    let len = e.len() as int;
    let next = model::step(run, reply).phase;
    let now = documents_in(run.phase);
    assert(all[len] == x);
    assert forall|file: Seq<char>| #[trigger] is_on_disk(e, file) implies is_on_disk(all, file) by {
        let i = choose|i: int| 0 <= i < e.len() && puts_right(#[trigger] e[i], file);
        assert(puts_right(all[i], file));
    }
    assert forall|entry: (Seq<char>, Seq<char>)| #[trigger] was_listed(all, entry) implies was_listed(
        e,
        entry,
    ) || lists(x, entry) by {
        lemma_listed_shorter(e, x, entry);
    }
    match run.phase {
        PhaseView::SigningIn { .. } => {},
        PhaseView::ReadToUnlock => {
            if let Reply::Prot(Reading::Text(t)) = reply {
                lemma_first_refused(run.place.style, prot::parsed(t).documents);
                if !(next is Finished) {
                    assert(documents_in(next) == prot::parsed(t).documents);
                }
            }
        },
        PhaseView::Probe { recovery } => {
            if let Reply::Presence(there) = reply {
                if model::counts_as_present(there) {
                    assert(puts_right(all[len], now[0].0));
                    lemma_one_done(e, all, now);
                }
            }
        },
        PhaseView::Restore { recovery, .. } => {
            if let Reply::Restored(outcome) = reply {
                if outcome is Written {
                    assert(puts_right(all[len], now[0].0));
                    lemma_one_done(e, all, now);
                }
            }
        },
        _ => {},
    }
}

/// Once the file of the first document is on disk, none is forgotten among the
/// rest.
proof fn lemma_one_done(
    e: Seq<Exchange>,
    all: Seq<Exchange>,
    documents: Seq<(Seq<char>, Seq<char>)>,
)
    requires
        none_forgotten(e, documents),
        documents.len() > 0,
        is_on_disk(all, documents[0].0),
        forall|file: Seq<char>| #[trigger] is_on_disk(e, file) ==> is_on_disk(all, file),
        forall|entry: (Seq<char>, Seq<char>)| #[trigger]
            was_listed(all, entry) ==> was_listed(e, entry),
    ensures
        none_forgotten(all, documents.skip(1)),
        documents.len() == 1 ==> none_forgotten(all, seq![]),
{
    let rest = documents.skip(1);
    assert forall|entry: (Seq<char>, Seq<char>)| #[trigger] was_listed(
        all,
        entry,
    ) implies rest.contains(entry) || is_on_disk(all, entry.0) by {
        if documents.contains(entry) && entry != documents[0] {
            let k = choose|k: int| 0 <= k < documents.len() && documents[k] == entry;
            assert(rest[k - 1] == entry);
        }
    }
    if documents.len() == 1 {
        assert(rest =~= seq![]);
    }
}

proof fn lemma_complete(start: RunView, replies: Seq<ReplyView>)
    requires
        runs::is_start_of(start, Command::Unlock),
    ensures
        is_complete(runs::history(start, replies), runs::after(start, replies).phase),
    decreases replies.len(),
{
    if replies.len() > 0 {
        let shorter = replies.drop_last();
        let run = runs::after(start, shorter);
        lemma_complete(start, shorter);
        lemma_plain(start, shorter);
        runs::lemma_phases(start, shorter);
        if model::request_of(run) is Some {
            lemma_complete_step(runs::history(start, shorter), run, replies.last());
        }
    }
}

/// An unlocking that ends well leaves every recorded file on disk: it was there
/// already, or it was restored.
pub proof fn a_success_leaves_every_file_on_disk(
    start: RunView,
    replies: Seq<ReplyView>,
    entry: (Seq<char>, Seq<char>),
)
    requires
        runs::is_start_of(start, Command::Unlock),
        runs::after(start, replies).phase matches PhaseView::Finished { outcome } && outcome is Ok,
        was_listed(runs::history(start, replies), entry),
    ensures
        is_on_disk(runs::history(start, replies), entry.0),
{
    lemma_complete(start, replies);
}

// ---------------------------------------------------------------------------
// lock or unlock
// ---------------------------------------------------------------------------
/// The recorded files that count as being on disk, where `there[i]` says what
/// was found out about the `i`-th.
pub open spec fn files_found(
    documents: Seq<(Seq<char>, Seq<char>)>,
    there: Seq<Option<bool>>,
    present: bool,
) -> Seq<Seq<char>>
    decreases there.len(),
{
    if there.len() == 0 {
        seq![]
    } else {
        let before = files_found(documents, there.drop_last(), present);
        if model::counts_as_present(there.last()) == present {
            before.push(documents[there.len() - 1].0)
        } else {
            before
        }
    }
}

/// The replies that tell what was found out.
pub open spec fn presences(there: Seq<Option<bool>>) -> Seq<ReplyView> {
    there.map_values(|b: Option<bool>| Reply::Presence(b))
}

proof fn lemma_survey(
    start: RunView,
    documents: Seq<(Seq<char>, Seq<char>)>,
    there: Seq<Option<bool>>,
)
    requires
        start.phase == (PhaseView::Survey {
            unseen: documents,
            present: seq![],
            missing: seq![],
        }),
        there.len() <= documents.len(),
        documents.len() > 0,
    ensures
        runs::after(start, presences(there)).phase == (if there.len() < documents.len() {
            PhaseView::Survey {
                unseen: documents.skip(there.len() as int),
                present: files_found(documents, there, true),
                missing: files_found(documents, there, false),
            }
        } else {
            model::choice(
                files_found(documents, there, true),
                files_found(documents, there, false),
            ).0
        }),
    decreases there.len(),
{
    let replies = presences(there);
    if there.len() == 0 {
        assert(documents.skip(0) =~= documents);
    } else {
        let fewer = there.drop_last();
        lemma_survey(start, documents, fewer);
        assert(replies.drop_last() =~= presences(fewer));
        let last: ReplyView = Reply::Presence(there.last());
        assert(replies.last() == last);
        assert(documents.skip(fewer.len() as int).skip(1) =~= documents.skip(there.len() as int));
    }
}

/// The choice depends on the recorded files alone: where all of them are on
/// disk they are locked, where none is they are unlocked, and where some are
/// and some are not, the run stops and tells which. A file of which it could
/// not be found out counts as being on disk.
pub proof fn the_choice_follows_the_disk(
    start: RunView,
    documents: Seq<(Seq<char>, Seq<char>)>,
    there: Seq<Option<bool>>,
)
    requires
        start.phase == (PhaseView::Survey {
            unseen: documents,
            present: seq![],
            missing: seq![],
        }),
        there.len() == documents.len(),
        documents.len() > 0,
    ensures
        ({
            let end = runs::after(start, presences(there)).phase;
            let present = files_found(documents, there, true);
            let missing = files_found(documents, there, false);
            &&& present.len() + missing.len() == documents.len()
            &&& missing.len() == 0 ==> end == model::beginning(Command::Lock)
            &&& present.len() == 0 ==> end == model::beginning(Command::Unlock)
            &&& present.len() > 0 && missing.len() > 0 ==> end == (PhaseView::Finished {
                outcome: Err(
                    Failure::MixedState {
                        present: text::joined(present, ", "@),
                        missing: text::joined(missing, ", "@),
                    },
                ),
            })
        }),
{
    lemma_survey(start, documents, there);
    lemma_found_count(documents, there);
}

proof fn lemma_found_count(documents: Seq<(Seq<char>, Seq<char>)>, there: Seq<Option<bool>>)
    ensures
        files_found(documents, there, true).len() + files_found(documents, there, false).len()
            == there.len(),
    decreases there.len(),
{
    if there.len() > 0 {
        lemma_found_count(documents, there.drop_last());
    }
}

/// Where `.prot` does not exist, or records nothing, the choice is to lock.
pub proof fn nothing_recorded_means_lock(start: RunView, reading: Reading<Seq<char>>)
    requires
        start.phase == PhaseView::Inspect,
        match reading {
            Reading::Text(t) => prot::parsed(t).documents.len() == 0,
            Reading::Missing => true,
            Reading::Failed { .. } => false,
        },
    ensures
        model::step(start, Reply::Prot(reading)).phase == model::beginning(Command::Lock),
{
}

/// Where all recorded paths are plain, the choice goes through all of them.
pub proof fn the_choice_looks_at_every_recorded_file(start: RunView, t: Seq<char>)
    requires
        start.phase == PhaseView::Inspect,
        prot::parsed(t).documents.len() > 0,
        all_plain(start.place.style, prot::parsed(t).documents),
    ensures
        model::step(start, Reply::Prot(Reading::Text(t))).phase == (PhaseView::Survey {
            unseen: prot::parsed(t).documents,
            present: seq![],
            missing: seq![],
        }),
{
    let documents = prot::parsed(t).documents;
    lemma_first_refused(start.place.style, documents);
    if let Some(file) = model::first_refused(start.place.style, documents) {
        let i = choose|i: int| 0 <= i < documents.len() && (#[trigger] documents[i]).0 == file;
        assert(paths::is_plain(start.place.style, documents[i].0));
    }
}

} // verus!
