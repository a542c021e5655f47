//! Runs of commands as a whole: what was asked for, and what came of it.

use crate::commands::model;
use crate::commands::model::Command;
use crate::commands::model::PhaseView;
use crate::commands::model::RunView;
use crate::commands::model::SignIn;
use crate::exchange::Reply;
use crate::exchange::ReplyView;
use crate::exchange::Request;
use crate::exchange::RequestView;
use crate::failure::Failure;
use crate::session;
use crate::session::Exchange;
use vstd::prelude::*;

verus! {

/// A request with its reply.
pub open spec fn told(request: RequestView, reply: ReplyView) -> Exchange {
    (request, reply)
}

/// A run after all these replies.
pub open spec fn after(start: RunView, replies: Seq<ReplyView>) -> RunView
    decreases replies.len(),
{
    if replies.len() == 0 {
        start
    } else {
        model::step(after(start, replies.drop_last()), replies.last())
    }
}

/// What was asked for so far, with the replies.
pub open spec fn history(start: RunView, replies: Seq<ReplyView>) -> Seq<Exchange>
    decreases replies.len(),
{
    if replies.len() == 0 {
        seq![]
    } else {
        let before = history(start, replies.drop_last());
        match model::request_of(after(start, replies.drop_last())) {
            Some(request) => before.push((request, replies.last())),
            None => before,
        }
    }
}

/// How every command begins.
pub open spec fn is_start(run: RunView) -> bool {
    ||| run.phase == PhaseView::Inspect
    ||| run.phase matches PhaseView::SigningIn { stage, .. } && stage == SignIn::Check
}

/// Whether a command was called by name, and not chosen by what is on disk.
pub open spec fn is_start_of(run: RunView, command: Command) -> bool {
    run.phase == model::beginning(command)
}

/// The place of a run and whether it keeps files never change.
#[verifier::spinoff_prover]
#[verifier::rlimit(40)]
pub proof fn lemma_fixed(start: RunView, replies: Seq<ReplyView>)
    ensures
        after(start, replies).place == start.place,
        after(start, replies).keep == start.keep,
    decreases replies.len(),
{
    if replies.len() > 0 {
        lemma_fixed(start, replies.drop_last());
    }
}

/// What was exchanged was asked for by the run as it then was.
pub proof fn lemma_asked(start: RunView, replies: Seq<ReplyView>, i: int) -> (k: int)
    requires
        0 <= i < history(start, replies).len(),
    ensures
        0 <= k < replies.len(),
        model::request_of(after(start, replies.take(k))) == Some(history(start, replies)[i].0),
        history(start, replies.take(k)) == history(start, replies).take(i),
    decreases replies.len(),
{
    let shorter = replies.drop_last();
    let before = history(start, shorter);
    let all = history(start, replies);
    if i < before.len() {
        let k = lemma_asked(start, shorter, i);
        assert(shorter.take(k) =~= replies.take(k));
        assert(before.take(i) =~= all.take(i));
        k
    } else {
        assert(replies.take(replies.len() - 1) =~= shorter);
        assert(all.take(i) =~= before);
        replies.len() - 1
    }
}

/// A finished run asks for nothing more and stays as it is.
pub proof fn a_finished_run_stays_finished(start: RunView, replies: Seq<ReplyView>)
    requires
        start.phase is Finished,
    ensures
        after(start, replies) == start,
        history(start, replies) == Seq::<Exchange>::empty(),
        model::request_of(start) is None,
    decreases replies.len(),
{
    if replies.len() > 0 {
        a_finished_run_stays_finished(start, replies.drop_last());
    }
}

/// A run that is not finished asks for something.
pub proof fn an_unfinished_run_asks(run: RunView)
    ensures
        model::request_of(run) is None <==> run.phase is Finished,
{
}

/// Whether a reply tells of a failure.
pub open spec fn is_failure(reply: ReplyView) -> bool {
    match reply {
        Reply::Flag(r) => r is Err,
        Reply::Ended(r) => r is Err,
        Reply::Vault(r) => r is Err,
        Reply::Created(r) => r is Err,
        Reply::Document(r) => r is Err,
        Reply::Prot(reading) => reading is Failed,
        Reply::Matches(r) => r is Err,
        Reply::Content(r) => r is Err,
        Reply::Removed(r) => r is Err,
        Reply::Presence(_) => false,
        Reply::Link(link) => link != Some(false),
        Reply::Restored(outcome) => !(outcome is Written),
    }
}

/// The first failure ends a run with a failure, and nothing more is asked for.
/// Only that of a backup does not.
#[verifier::spinoff_prover]
#[verifier::rlimit(40)]
pub proof fn a_failure_ends_the_run(run: RunView, reply: ReplyView)
    requires
        !(run.phase is Finished),
        is_failure(reply),
        !model::saves(run.phase),
    ensures
        model::step(run, reply).phase matches PhaseView::Finished { outcome } && outcome is Err,
{
}

/// Whether a backup succeeds or fails, the run goes on the same way.
pub proof fn a_backup_never_ends_the_run(
    run: RunView,
    e: Failure<Seq<char>>,
)
    requires
        model::saves(run.phase),
    ensures
        model::step(run, Reply::Ended(Err(e))) == model::step(run, Reply::Ended(Ok(()))),
        model::step(run, Reply::Ended(Err(e))).phase matches PhaseView::Finished { outcome }
            ==> outcome is Ok,
{
}

/// Whether a request deals with more than the session, `.prot` and what is on
/// disk.
pub open spec fn needs_session(request: RequestView) -> bool {
    match request {
        Request::IsSignedIn => false,
        Request::Confirm { .. } => false,
        Request::SignIn => false,
        Request::ReadProt => false,
        Request::Exists { .. } => false,
        _ => true,
    }
}

/// Whether someone was found to be signed in.
pub open spec fn signed_in(e: Seq<Exchange>) -> bool {
    exists|i: int|
        0 <= i < e.len() && #[trigger] e[i] == told(
            Request::IsSignedIn,
            Reply::Flag(Ok(true)),
        )
}

/// The phases before anyone is known to be signed in.
spec fn before_session(phase: PhaseView) -> bool {
    phase is Inspect || phase is Survey || phase is SigningIn || phase is Finished
}

proof fn lemma_session(start: RunView, replies: Seq<ReplyView>)
    requires
        is_start(start),
    ensures
        before_session(after(start, replies).phase) || signed_in(history(start, replies)),
    decreases replies.len(),
{
    if replies.len() > 0 {
        let shorter = replies.drop_last();
        lemma_session(start, shorter);
        let run = after(start, shorter);
        let e = history(start, shorter);
        let all = history(start, replies);
        if signed_in(e) {
            let i = choose|i: int|
                0 <= i < e.len() && #[trigger] e[i] == told(
                    Request::IsSignedIn,
                    Reply::Flag(Ok(true)),
                );
            assert(all[i] == e[i]);
        } else if !before_session(after(start, replies).phase) {
            assert(all[e.len() as int] == told(
                Request::IsSignedIn,
                Reply::Flag(Ok(true)),
            ));
        }
    }
}

/// Nothing but the session, `.prot` and the presence of files is looked at, and
/// nothing at all is changed, before someone is found to be signed in.
pub proof fn nothing_is_touched_before_signing_in(start: RunView, replies: Seq<ReplyView>)
    requires
        is_start(start),
    ensures
        model::request_of(after(start, replies)) matches Some(request) && needs_session(request)
            ==> signed_in(history(start, replies)),
{
    lemma_session(start, replies);
}

#[verifier::spinoff_prover]
#[verifier::rlimit(40)]
proof fn lemma_asking(start: RunView, replies: Seq<ReplyView>)
    requires
        is_start(start),
    ensures
        ({
            let run = after(start, replies);
            let e = history(start, replies);
            &&& run.phase matches PhaseView::SigningIn { stage, .. } ==> {
                &&& stage == SignIn::Ask ==> e.len() > 0 && e.last() == told(
                    Request::IsSignedIn,
                    Reply::Flag(Ok(false)),
                )
                &&& stage == SignIn::Enter ==> e.len() > 0 && e.last() == told(
                    model::sign_in_request(SignIn::Ask),
                    Reply::Flag(Ok(true)),
                )
            }
        }),
    decreases replies.len(),
{
    if replies.len() > 0 {
        lemma_asking(start, replies.drop_last());
    }
}

/// The user is asked only who was just found not to be signed in, and signs in
/// only after saying yes.
pub proof fn nobody_signs_in_unasked(start: RunView, replies: Seq<ReplyView>)
    requires
        is_start(start),
    ensures
        ({
            let e = history(start, replies);
            match model::request_of(after(start, replies)) {
                Some(Request::Confirm { .. }) => e.len() > 0 && e.last() == told(
                    Request::IsSignedIn,
                    Reply::Flag(Ok(false)),
                ),
                Some(Request::SignIn) => e.len() > 0 && e.last() == told(
                    model::sign_in_request(SignIn::Ask),
                    Reply::Flag(Ok(true)),
                ),
                _ => true,
            }
        }),
{
    lemma_asking(start, replies);
}

/// Signing in takes at most four exchanges. Who is signed in already is asked
/// nothing more; the user signs in only after saying yes; and it ends well only
/// where someone was last found to be signed in.
pub proof fn signing_in_is_asked_for_and_checked(
    trace: Seq<Exchange>,
    outcome: Result<(), Failure<Seq<char>>>,
)
    requires
        session::signs_in(SignIn::Check, trace, outcome),
    ensures
        1 <= trace.len() <= 4,
        trace[0] == told(Request::IsSignedIn, Reply::Flag(Ok(true))) ==> trace.len() == 1
            && outcome is Ok,
        outcome is Ok ==> trace.last() == told(Request::IsSignedIn, Reply::Flag(Ok(true))),
        forall|i: int|
            0 <= i < trace.len() && (#[trigger] trace[i]).0 is SignIn ==> i == 2 && trace[1]
                == told(model::sign_in_request(SignIn::Ask), Reply::Flag(Ok(true))),
{
    reveal_with_fuel(session::signs_in, 5);
    let second = trace.skip(1);
    let third = second.skip(1);
    let fourth = third.skip(1);
    if trace.len() > 1 {
        assert(second[0] == trace[1]);
        if trace.len() > 2 {
            assert(third[0] == trace[2]);
            if trace.len() > 3 {
                assert(fourth[0] == trace[3]);
            }
        }
    }
}

/// Signing in goes as the replies say: who is not signed in is asked, who says
/// yes signs in, and the session is checked afterwards. It ends well where that
/// says yes, and otherwise tells what went wrong.
pub proof fn signing_in_goes_as_it_is_answered(
    trace: Seq<Exchange>,
    outcome: Result<(), Failure<Seq<char>>>,
)
    requires
        session::signs_in(SignIn::Check, trace, outcome),
    ensures
        trace[0].0 is IsSignedIn,
        trace[0].1 matches Reply::Flag(Err(e)) ==> trace.len() == 1 && outcome == Err::<
            (),
            Failure<Seq<char>>,
        >(e),
        is_no(trace[0].1) ==> {
            &&& trace.len() >= 2
            &&& trace[1].0 == told(
                Request::Confirm {
                    question: "You are not signed in to 1Password. Sign in now?"@,
                },
                trace[1].1,
            ).0
            &&& is_no(trace[1].1) ==> trace.len() == 2 && outcome == Err::<(), Failure<Seq<char>>>(
                Failure::NotSignedIn,
            )
            &&& is_yes(trace[1].1) ==> {
                &&& trace.len() >= 3
                &&& trace[2].0 is SignIn
                &&& (trace[2].1 matches Reply::Ended(Ok(_))) ==> {
                    &&& trace.len() == 4
                    &&& trace[3].0 is IsSignedIn
                    &&& is_yes(trace[3].1) ==> outcome is Ok
                    &&& is_no(trace[3].1) ==> outcome == Err::<(), Failure<Seq<char>>>(
                        Failure::StillNotSignedIn,
                    )
                }
                &&& trace[2].1 matches Reply::Ended(Err(e)) ==> trace.len() == 3 && outcome == Err::<
                    (),
                    Failure<Seq<char>>,
                >(e)
            }
        },
{
    reveal_with_fuel(session::signs_in, 5);
    let second = trace.skip(1);
    let third = second.skip(1);
    let fourth = third.skip(1);
    if trace.len() > 1 {
        assert(second[0] == trace[1]);
        if trace.len() > 2 {
            assert(third[0] == trace[2]);
            if trace.len() > 3 {
                assert(fourth[0] == trace[3]);
            }
        }
    }
}

/// Whether a reply is a yes.
pub open spec fn is_yes(reply: ReplyView) -> bool {
    reply matches Reply::Flag(Ok(b)) && b
}

/// Whether a reply is a no.
pub open spec fn is_no(reply: ReplyView) -> bool {
    reply matches Reply::Flag(Ok(b)) && !b
}

// ---------------------------------------------------------------------------
// what each command can ask for
// ---------------------------------------------------------------------------
/// What setting up can ask for.
pub open spec fn fits_setup(request: RequestView) -> bool {
    match request {
        Request::IsSignedIn => true,
        Request::Confirm { .. } => true,
        Request::SignIn => true,
        Request::FindVault { .. } => true,
        Request::CreateVault { .. } => true,
        _ => false,
    }
}

/// What locking can ask for: it restores nothing.
pub open spec fn fits_lock(request: RequestView) -> bool {
    match request {
        Request::Exists { .. } => false,
        Request::IsLink { .. } => false,
        Request::WriteNew { .. } => false,
        _ => true,
    }
}

/// What unlocking can ask for: it reads documents and creates files, and
/// changes neither the vault nor `.prot`, and no file that exists.
pub open spec fn fits_unlock(request: RequestView) -> bool {
    match request {
        Request::IsSignedIn => true,
        Request::Confirm { .. } => true,
        Request::SignIn => true,
        Request::FindVault { .. } => true,
        Request::VaultName { .. } => true,
        Request::GetDocument { .. } => true,
        Request::ReadProt => true,
        Request::Exists { .. } => true,
        Request::IsLink { .. } => true,
        Request::WriteNew { .. } => true,
        _ => false,
    }
}

/// The phases of setting up.
pub open spec fn in_setup(phase: PhaseView) -> bool {
    match phase {
        PhaseView::SigningIn { command, .. } => command == Command::Setup,
        PhaseView::FindToSetUp => true,
        PhaseView::CreateToSetUp => true,
        PhaseView::Finished { .. } => true,
        _ => false,
    }
}

/// The phases of locking.
pub open spec fn in_lock(phase: PhaseView) -> bool {
    match phase {
        PhaseView::SigningIn { command, .. } => command == Command::Lock,
        PhaseView::ReadToLock => true,
        PhaseView::WriteFresh { .. } => true,
        PhaseView::SaveFresh { .. } => true,
        PhaseView::ConfirmVault { way, .. } => way == model::Way::Lock,
        PhaseView::FindVault { way, .. } => way == model::Way::Lock,
        PhaseView::CreateVault { .. } => true,
        PhaseView::Expand { .. } => true,
        PhaseView::ReadFile { .. } => true,
        PhaseView::Upload { .. } => true,
        PhaseView::Verify { .. } => true,
        PhaseView::Record { .. } => true,
        PhaseView::Save { .. } => true,
        PhaseView::Reread { .. } => true,
        PhaseView::Remove { .. } => true,
        PhaseView::Finished { .. } => true,
        _ => false,
    }
}

/// The phases of unlocking.
pub open spec fn in_unlock(phase: PhaseView) -> bool {
    match phase {
        PhaseView::SigningIn { command, .. } => command == Command::Unlock,
        PhaseView::ReadToUnlock => true,
        PhaseView::ConfirmVault { way, .. } => way == model::Way::Unlock,
        PhaseView::FindVault { way, .. } => way == model::Way::Unlock,
        PhaseView::Probe { .. } => true,
        PhaseView::Fetch { .. } => true,
        PhaseView::Guard { .. } => true,
        PhaseView::Restore { .. } => true,
        PhaseView::Finished { .. } => true,
        _ => false,
    }
}

/// Each command goes through its own phases.
#[verifier::spinoff_prover]
#[verifier::rlimit(40)]
pub proof fn lemma_phases(start: RunView, replies: Seq<ReplyView>)
    ensures
        is_start_of(start, Command::Setup) ==> in_setup(after(start, replies).phase),
        is_start_of(start, Command::Lock) ==> in_lock(after(start, replies).phase),
        is_start_of(start, Command::Unlock) ==> in_unlock(after(start, replies).phase),
    decreases replies.len(),
{
    if replies.len() > 0 {
        lemma_phases(start, replies.drop_last());
    }
}

/// Each command asks only for what it is there for.
pub proof fn commands_keep_to_their_business(start: RunView, replies: Seq<ReplyView>)
    ensures
        model::request_of(after(start, replies)) matches Some(request) ==> {
            &&& is_start_of(start, Command::Setup) ==> fits_setup(request)
            &&& is_start_of(start, Command::Lock) ==> fits_lock(request)
            &&& is_start_of(start, Command::Unlock) ==> fits_unlock(request)
        },
{
    lemma_phases(start, replies);
}

} // verus!
