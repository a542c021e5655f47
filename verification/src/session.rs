//! A session with 1Password: what is asked of it, and signing in.

use crate::commands;
use crate::commands::model;
use crate::commands::model::Progress;
use crate::commands::model::SignIn;
use crate::commands::SIGN_IN_QUESTION;
use crate::exchange::Reply;
use crate::exchange::ReplyView;
use crate::exchange::Request;
use crate::exchange::RequestView;
use crate::failure;
use crate::failure::Error;
use crate::failure::Failure;
use crate::op::OpBackend;
use vstd::prelude::*;

verus! {

/// One thing that was asked for, with the reply.
pub type Exchange = (RequestView, ReplyView);

/// A backend, with a record of all that was asked of it and of the user.
pub struct Session<'a, O: OpBackend> {
    op: &'a O,
    log: Ghost<Seq<Exchange>>,
}

/// Whether a request is one to 1Password.
pub open spec fn is_for_backend(request: RequestView) -> bool {
    match request {
        Request::IsSignedIn => true,
        Request::SignIn => true,
        Request::FindVault { .. } => true,
        Request::VaultName { .. } => true,
        Request::CreateVault { .. } => true,
        Request::CreateDocument { .. } => true,
        Request::EditDocument { .. } => true,
        Request::GetDocument { .. } => true,
        _ => false,
    }
}

/// Whether `reply` is what the backend gave when it was asked for just what the
/// request says.
pub open spec fn given_by<O: OpBackend>(op: &O, request: RequestView, reply: Reply) -> bool {
    match (request, reply) {
        (Request::IsSignedIn, Reply::Flag(r)) => call_ensures(O::is_signed_in, (op,), r),
        (Request::SignIn, Reply::Ended(r)) => call_ensures(O::sign_in, (op,), r),
        (Request::FindVault { name }, Reply::Vault(r)) => exists|n: &str|
            n@ == name && #[trigger] call_ensures(O::find_vault, (op, n), r),
        (Request::VaultName { id }, Reply::Vault(r)) => exists|i: &str|
            i@ == id && #[trigger] call_ensures(O::vault_name, (op, i), r),
        (Request::CreateVault { name, description }, Reply::Created(r)) => exists|
            n: &str,
            d: &str,
        |
            n@ == name && d@ == description && #[trigger] call_ensures(
                O::create_vault,
                (op, n, d),
                r,
            ),
        (
            Request::CreateDocument { vault, title, file_name, content },
            Reply::Created(r),
        ) => exists|v: &str, t: &str, f: &str, c: &[u8]|
            v@ == vault && t@ == title && f@ == file_name && c@ == content
                && #[trigger] call_ensures(O::create_document, (op, v, t, f, c), r),
        (
            Request::EditDocument { vault, id, title, file_name, content },
            Reply::Ended(r),
        ) => exists|v: &str, i: &str, t: &str, f: &str, c: &[u8]|
            v@ == vault && i@ == id && t@ == title && f@ == file_name && c@ == content
                && #[trigger] call_ensures(O::edit_document, (op, v, i, t, f, c), r),
        (Request::GetDocument { vault, id }, Reply::Document(r)) => exists|v: &str, i: &str|
            v@ == vault && i@ == id && #[trigger] call_ensures(O::get_document, (op, v, i), r),
        (_, _) => false,
    }
}

impl<'a, O: OpBackend> Session<'a, O> {
    /// The backend.
    pub closed spec fn backend(&self) -> &O {
        self.op
    }

    /// All that was asked so far, with the replies.
    pub closed spec fn log(&self) -> Seq<Exchange> {
        self.log@
    }

    /// A session in which nothing was asked yet.
    pub fn new(op: &'a O) -> (r: Self)
        ensures
            r.backend() == op,
            r.log() == Seq::<Exchange>::empty(),
    {
        Session { op, log: Ghost(Seq::empty()) }
    }

    /// Asks the backend what a command asks for. A request that is not for the
    /// backend is left to others.
    pub fn ask(&mut self, request: &Request) -> (r: Option<Reply>)
        ensures
            final(self).backend() == old(self).backend(),
            match r {
                Some(reply) => {
                    &&& is_for_backend(request@)
                    &&& given_by(old(self).backend(), request@, reply)
                    &&& final(self).log() == old(self).log().push((request@, reply@))
                },
                None => !is_for_backend(request@) && final(self).log() == old(self).log(),
            },
    {
        let reply = match request {
            Request::IsSignedIn => Reply::Flag(self.op.is_signed_in()),
            Request::SignIn => Reply::Ended(self.op.sign_in()),
            Request::FindVault { name } => Reply::Vault(self.op.find_vault(name.as_str())),
            Request::VaultName { id } => Reply::Vault(self.op.vault_name(id.as_str())),
            Request::CreateVault { name, description } => Reply::Created(
                self.op.create_vault(name.as_str(), description.as_str()),
            ),
            Request::CreateDocument { vault, title, file_name, content } => Reply::Created(
                self.op.create_document(
                    vault.as_str(),
                    title.as_str(),
                    file_name.as_str(),
                    content.as_slice(),
                ),
            ),
            Request::EditDocument { vault, id, title, file_name, content } => Reply::Ended(
                self.op.edit_document(
                    vault.as_str(),
                    id.as_str(),
                    title.as_str(),
                    file_name.as_str(),
                    content.as_slice(),
                ),
            ),
            Request::GetDocument { vault, id } => Reply::Document(
                self.op.get_document(vault.as_str(), id.as_str()),
            ),
            _ => {
                return None;
            },
        };
        self.log = Ghost(self.log@.push((request@, reply@)));
        Some(reply)
    }

    /// Asks the user.
    fn ask_user<F: FnOnce() -> Result<bool, Error>>(&mut self, confirm: F) -> (r: Reply)
        requires
            call_requires(confirm, ()),
        ensures
            final(self).backend() == old(self).backend(),
            r matches Reply::Flag(answer) && call_ensures(confirm, (), answer),
            final(self).log() == old(self).log().push(
                (model::sign_in_request(SignIn::Ask), r@),
            ),
    {
        let reply = Reply::Flag(confirm());
        self.log = Ghost(self.log@.push((model::sign_in_request(SignIn::Ask), reply@)));
        reply
    }
}

// ---------------------------------------------------------------------------
// signing in
// ---------------------------------------------------------------------------
/// Whether signing in, from `stage` on, went through just these exchanges and
/// came to this outcome.
pub open spec fn signs_in(
    stage: SignIn,
    trace: Seq<Exchange>,
    outcome: Result<(), Failure<Seq<char>>>,
) -> bool
    decreases trace.len(),
{
    &&& trace.len() > 0
    &&& trace[0].0 == model::sign_in_request(stage)
    &&& match model::sign_in_step(stage, trace[0].1) {
        Progress::More { stage } => signs_in(stage, trace.skip(1), outcome),
        Progress::Over { outcome: reached } => trace.len() == 1 && reached == outcome,
    }
}

/// Whether an exchange is one with the backend or with the user, who can say
/// what `says` allows.
pub open spec fn is_genuine<O: OpBackend>(
    op: &O,
    says: spec_fn(Result<bool, Error>) -> bool,
    exchange: Exchange,
) -> bool {
    exists|reply: Reply|
        {
            &&& #[trigger] reply@ == exchange.1
            &&& {
                ||| given_by(op, exchange.0, reply)
                ||| exchange.0 == model::sign_in_request(SignIn::Ask) && (reply matches Reply::Flag(
                    answer,
                ) && says(answer))
            }
        }
}

/// What was asked since, and of whom.
pub open spec fn signed_in_by<O: OpBackend>(
    op: &O,
    says: spec_fn(Result<bool, Error>) -> bool,
    before: Seq<Exchange>,
    after: Seq<Exchange>,
    outcome: Result<(), Failure<Seq<char>>>,
) -> bool {
    &&& before.is_prefix_of(after)
    &&& signs_in(SignIn::Check, after.skip(before.len() as int), outcome)
    &&& forall|i: int|
        before.len() <= i < after.len() ==> is_genuine(op, says, #[trigger] after[i])
}

/// Makes sure that someone is signed in. Where nobody is, `confirm` decides
/// whether to sign in; it is not asked otherwise.
pub fn ensure_signed_in_with<O: OpBackend, F: FnOnce() -> Result<bool, Error>>(
    session: &mut Session<O>,
    confirm: F,
) -> (r: Result<(), Error>)
    requires
        forall|first: Result<bool, Error>|
            call_ensures(O::is_signed_in, (old(session).backend(),), first) && first == Ok::<
                bool,
                Error,
            >(false) ==> call_requires(confirm, ()),
    ensures
        final(session).backend() == old(session).backend(),
        signed_in_by(
            old(session).backend(),
            |answer: Result<bool, Error>| call_ensures(confirm, (), answer),
            old(session).log(),
            final(session).log(),
            failure::outcome_of(r),
        ),
{
    let ghost before = session.log();
    let ghost op = session.backend();
    let ghost says = |answer: Result<bool, Error>| call_ensures(confirm, (), answer);
    proof {
        reveal_with_fuel(signs_in, 5);
    }
    let first = match session.ask(&Request::IsSignedIn) {
        Some(reply) => reply,
        None => return Err(Failure::UnexpectedReply),
    };
    let ghost check = (Request::IsSignedIn, first@);
    assert(is_genuine(op, says, check));
    assert(session.log().skip(before.len() as int) =~= seq![check]);
    if let Progress::Over { outcome } = commands::sign_in_step(SignIn::Check, first) {
        return outcome;
    }
    let answer = session.ask_user(confirm);
    let ghost asked = (model::sign_in_request(SignIn::Ask), answer@);
    assert(is_genuine(op, says, asked));
    assert(session.log().skip(before.len() as int) =~= seq![check, asked]);
    assert(seq![check, asked].skip(1) =~= seq![asked]);
    if let Progress::Over { outcome } = commands::sign_in_step(SignIn::Ask, answer) {
        return outcome;
    }
    let ended = match session.ask(&Request::SignIn) {
        Some(reply) => reply,
        None => return Err(Failure::UnexpectedReply),
    };
    let ghost entered = (Request::SignIn, ended@);
    assert(is_genuine(op, says, entered));
    assert(session.log().skip(before.len() as int) =~= seq![check, asked, entered]);
    assert(seq![check, asked, entered].skip(1) =~= seq![asked, entered]);
    assert(seq![asked, entered].skip(1) =~= seq![entered]);
    if let Progress::Over { outcome } = commands::sign_in_step(SignIn::Enter, ended) {
        return outcome;
    }
    let second = match session.ask(&Request::IsSignedIn) {
        Some(reply) => reply,
        None => return Err(Failure::UnexpectedReply),
    };
    let ghost rechecked = (Request::IsSignedIn, second@);
    assert(is_genuine(op, says, rechecked));
    assert(session.log().skip(before.len() as int) =~= seq![check, asked, entered, rechecked]);
    assert(seq![check, asked, entered, rechecked].skip(1) =~= seq![asked, entered, rechecked]);
    assert(seq![asked, entered, rechecked].skip(1) =~= seq![entered, rechecked]);
    assert(seq![entered, rechecked].skip(1) =~= seq![rechecked]);
    match commands::sign_in_step(SignIn::Recheck, second) {
        Progress::Over { outcome } => outcome,
        Progress::More { .. } => Err(Failure::UnexpectedReply),
    }
}

/// Makes sure that someone is signed in, asking the user with `prompt` where
/// nobody is.
pub fn ensure_signed_in<O: OpBackend, P: FnOnce(&str) -> Result<bool, Error>>(
    session: &mut Session<O>,
    prompt: P,
) -> (r: Result<(), Error>)
    requires
        call_requires(prompt, (SIGN_IN_QUESTION,)),
    ensures
        final(session).backend() == old(session).backend(),
        signed_in_by(
            old(session).backend(),
            |answer: Result<bool, Error>| call_ensures(prompt, (SIGN_IN_QUESTION,), answer),
            old(session).log(),
            final(session).log(),
            failure::outcome_of(r),
        ),
{
    let confirm = || -> (answer: Result<bool, Error>)
        ensures
            call_ensures(prompt, (SIGN_IN_QUESTION,), answer),
        {
            prompt(SIGN_IN_QUESTION)
        };
    let ghost op = session.backend();
    let ghost before = session.log();
    let ghost confirmed = |answer: Result<bool, Error>| call_ensures(confirm, (), answer);
    let ghost prompted = |answer: Result<bool, Error>|
        call_ensures(prompt, (SIGN_IN_QUESTION,), answer);
    let r = ensure_signed_in_with(session, confirm);
    proof {
        let after = session.log();
        assert forall|i: int| before.len() <= i < after.len() implies is_genuine(
            op,
            prompted,
            #[trigger] after[i],
        ) by {
            assert(is_genuine(op, confirmed, after[i]));
        }
    }
    r
}

} // verus!
