//! How `op` is called, and what its answers mean.

use crate::failure::Failure;
use crate::failure::OpFailure;
use crate::op;
use crate::op::Answer;
use crate::op::IdEnvelope;
use crate::op::Outcome;
use crate::op::Signin;
use crate::op::VaultEnvelope;
use crate::outside;
use crate::text;
use vstd::prelude::*;

verus! {

/// Whether the arguments of a call name the vault it is confined to.
pub open spec fn names_vault(args: Seq<Seq<char>>, vault: Seq<char>) -> bool {
    exists|i: int| 0 <= i < args.len() - 1 && #[trigger] args[i] == "--vault"@ && args[i + 1] == vault
}

/// Every call that deals with a document is confined to a vault.
pub proof fn every_document_call_names_its_vault(
    vault: Seq<char>,
    id: Seq<char>,
    path: Seq<char>,
    title: Seq<char>,
    file_name: Seq<char>,
)
    ensures
        names_vault(op::document_create_call(path, vault, title, file_name), vault),
        names_vault(op::document_edit_call(id, path, vault, title, file_name), vault),
        names_vault(op::document_get_call(vault, id), vault),
{
    let create = op::document_create_call(path, vault, title, file_name);
    let edit = op::document_edit_call(id, path, vault, title, file_name);
    let get = op::document_get_call(vault, id);
    assert(create[3] == "--vault"@ && create[4] == vault);
    assert(edit[4] == "--vault"@ && edit[5] == vault);
    assert(get[3] == "--vault"@ && get[4] == vault);
}

/// No call deletes anything: the verb of every call is one of these.
pub proof fn no_call_deletes(
    key: Seq<char>,
    name: Seq<char>,
    description: Seq<char>,
    vault: Seq<char>,
    id: Seq<char>,
    path: Seq<char>,
    title: Seq<char>,
    file_name: Seq<char>,
)
    ensures
        op::whoami_call() == seq!["whoami"@],
        op::signin_call() == seq!["signin"@],
        op::vault_get_call(key)[1] == "get"@,
        op::vault_create_call(name, description)[1] == "create"@,
        op::document_create_call(path, vault, title, file_name)[1] == "create"@,
        op::document_edit_call(id, path, vault, title, file_name)[1] == "edit"@,
        op::document_get_call(vault, id)[1] == "get"@,
{
}

/// Whether an option stands at this place of a call, with this value after it.
pub open spec fn has_option(args: Seq<Seq<char>>, at: int, option: Seq<char>, value: Seq<char>) -> bool {
    0 <= at < args.len() - 1 && args[at] == option && args[at + 1] == value
}

/// Every call hands `op` what it is about, each value after its own option: a
/// vault is looked up by its key and created with its name and description, and
/// a document is stored, replaced and fetched under its own ID, from its own
/// path, with its own title and file name, in its own vault.
pub proof fn every_call_hands_over_its_values(
    key: Seq<char>,
    name: Seq<char>,
    description: Seq<char>,
    vault: Seq<char>,
    id: Seq<char>,
    path: Seq<char>,
    title: Seq<char>,
    file_name: Seq<char>,
)
    ensures
        ({
            let call = op::vault_get_call(key);
            call.len() == 4 && call[0] == "vault"@ && call[2] == key && call[3] == "--format=json"@
        }),
        ({
            let call = op::vault_create_call(name, description);
            &&& call.len() == 6 && call[0] == "vault"@ && call[2] == name
            &&& has_option(call, 3, "--description"@, description)
            &&& call[5] == "--format=json"@
        }),
        ({
            let call = op::document_create_call(path, vault, title, file_name);
            &&& call.len() == 10 && call[0] == "document"@ && call[2] == path
            &&& has_option(call, 3, "--vault"@, vault)
            &&& has_option(call, 5, "--title"@, title)
            &&& has_option(call, 7, "--file-name"@, file_name)
            &&& call[9] == "--format=json"@
        }),
        ({
            let call = op::document_edit_call(id, path, vault, title, file_name);
            &&& call.len() == 10 && call[0] == "document"@ && call[2] == id && call[3] == path
            &&& has_option(call, 4, "--vault"@, vault)
            &&& has_option(call, 6, "--title"@, title)
            &&& has_option(call, 8, "--file-name"@, file_name)
        }),
        ({
            let call = op::document_get_call(vault, id);
            &&& call.len() == 6 && call[0] == "document"@ && call[2] == id
            &&& has_option(call, 3, "--vault"@, vault)
            &&& call[5] == "--force"@
        }),
{
}

// ---------------------------------------------------------------------------
// what came of a call
// ---------------------------------------------------------------------------
/// What a program that ended well printed.
pub open spec fn ended_well(stdout: Seq<u8>, stderr: Seq<u8>) -> Outcome<Seq<char>, Seq<u8>> {
    Outcome::Exited { success: true, stdout, stderr }
}

/// What a program that failed printed.
pub open spec fn ended_badly(stdout: Seq<u8>, stderr: Seq<u8>) -> Outcome<Seq<char>, Seq<u8>> {
    Outcome::Exited { success: false, stdout, stderr }
}

/// The failure that a text on standard error tells.
pub open spec fn told(stderr: Seq<u8>) -> Failure<Seq<char>> {
    Failure::Op(OpFailure { stderr: outside::lossy_text(stderr) })
}

/// Whether an error text, in lower case, holds a phrase.
pub open spec fn holds(stderr: Seq<u8>, phrase: Seq<char>) -> bool {
    text::has(outside::lowercase(outside::lossy_text(stderr)), phrase)
}

/// A call that ended well gives its standard output, byte for byte, whatever
/// stands on standard error; one that failed gives its standard error as it is,
/// whatever stands on standard output; and one that was never made gives
/// neither.
pub proof fn a_call_gives_what_it_printed(stdout: Seq<u8>, stderr: Seq<u8>, reason: Seq<char>)
    ensures
        op::result_of(ended_well(stdout, stderr)) == Ok::<Seq<u8>, Failure<Seq<char>>>(stdout),
        op::result_of(ended_badly(stdout, stderr)) == Err::<Seq<u8>, Failure<Seq<char>>>(
            told(stderr),
        ),
        op::result_of(Outcome::Missing) == Err::<Seq<u8>, Failure<Seq<char>>>(Failure::OpMissing),
        op::result_of(Outcome::NotRun { reason }) == Err::<Seq<u8>, Failure<Seq<char>>>(
            Failure::OpNotRun { reason },
        ),
{
}

/// Someone is signed in just where `op whoami` ended well, whatever it printed.
/// Nobody is just where it failed and its error says so; any other error is
/// passed on.
pub proof fn being_signed_in_is_ending_well(outcome: Outcome<Seq<char>, Seq<u8>>)
    ensures
        op::signed_in(op::result_of(outcome)) == Ok::<bool, Failure<Seq<char>>>(true) <==> (
        outcome matches Outcome::Exited { success, .. } && success),
        op::signed_in(op::result_of(outcome)) == Ok::<bool, Failure<Seq<char>>>(false) <==> (
        outcome matches Outcome::Exited { success, stderr, .. } && !success && holds(
            stderr,
            "not signed in"@,
        )),
        outcome matches Outcome::Exited { success, stderr, .. } ==> (!success && !holds(
            stderr,
            "not signed in"@,
        ) ==> op::signed_in(op::result_of(outcome)) == Err::<bool, Failure<Seq<char>>>(
            told(stderr),
        )),
        outcome is Missing ==> op::signed_in(op::result_of(outcome)) == Err::<
            bool,
            Failure<Seq<char>>,
        >(Failure::OpMissing),
        outcome matches Outcome::NotRun { reason } ==> op::signed_in(op::result_of(outcome))
            == Err::<bool, Failure<Seq<char>>>(Failure::OpNotRun { reason }),
{
}

/// Whether an error says that there is no such vault.
pub open spec fn denies_vault(stderr: Seq<u8>) -> bool {
    holds(stderr, "isn't a vault"@) || holds(stderr, "is not a vault"@) || holds(
        stderr,
        "vault not found"@,
    )
}

/// A vault is missing just where looking it up failed with an error that says
/// so. Where it ended well, what was found is given; and any other failure is
/// passed on, never taken for a missing vault.
pub proof fn a_vault_is_missing_only_where_op_says_so(
    stdout: Seq<u8>,
    stderr: Seq<u8>,
    reason: Seq<char>,
    found: Result<Seq<char>, Failure<Seq<char>>>,
)
    ensures
        op::lookup(op::result_of(ended_well(stdout, stderr)), found) == (match found {
            Ok(t) => Ok(Some(t)),
            Err(e) => Err(e),
        }),
        denies_vault(stderr) ==> op::lookup(op::result_of(ended_badly(stdout, stderr)), found)
            == Ok::<Option<Seq<char>>, Failure<Seq<char>>>(None),
        !denies_vault(stderr) ==> op::lookup(op::result_of(ended_badly(stdout, stderr)), found)
            == Err::<Option<Seq<char>>, Failure<Seq<char>>>(told(stderr)),
        op::lookup(op::result_of(Outcome::Missing), found) == Err::<
            Option<Seq<char>>,
            Failure<Seq<char>>,
        >(Failure::OpMissing),
        op::lookup(op::result_of(Outcome::NotRun { reason }), found) == Err::<
            Option<Seq<char>>,
            Failure<Seq<char>>,
        >(Failure::OpNotRun { reason }),
{
}

/// The ID that `op` printed is its `uuid` where it has one, and else its `id`;
/// where it has neither, or printed no JSON, the text is told, trimmed.
pub proof fn the_id_is_the_uuid_or_the_id(
    shown: Seq<char>,
    uuid: String,
    id: Option<String>,
    other: String,
    cause: String,
)
    ensures
        op::id_in(shown, Ok(IdEnvelope { id, uuid: Some(uuid) })) == Ok::<
            Seq<char>,
            Failure<Seq<char>>,
        >(uuid@),
        op::id_in(shown, Ok(IdEnvelope { id: Some(other), uuid: None })) == Ok::<
            Seq<char>,
            Failure<Seq<char>>,
        >(other@),
        op::id_in(shown, Ok(IdEnvelope { id: None, uuid: None })) == Err::<
            Seq<char>,
            Failure<Seq<char>>,
        >(Failure::NoId { text: text::trimmed(shown) }),
        op::id_in(shown, Err(cause)) == Err::<Seq<char>, Failure<Seq<char>>>(
            Failure::BadJson { text: text::trimmed(shown), cause: cause@ },
        ),
{
}

/// The name that `op` printed of a vault is given as it is.
pub proof fn the_name_is_given_as_it_is(
    id: Seq<char>,
    shown: Seq<char>,
    name: String,
    cause: String,
)
    ensures
        op::name_in(id, shown, Ok(VaultEnvelope { name: Some(name) })) == Ok::<
            Seq<char>,
            Failure<Seq<char>>,
        >(name@),
        op::name_in(id, shown, Ok(VaultEnvelope { name: None })) == Err::<
            Seq<char>,
            Failure<Seq<char>>,
        >(Failure::NoName { id }),
        op::name_in(id, shown, Err(cause)) == Err::<Seq<char>, Failure<Seq<char>>>(
            Failure::BadJson { text: text::trimmed(shown), cause: cause@ },
        ),
{
}

/// Something was created just where the call ended well, and its ID is the one
/// in what it printed; a call that failed passes its failure on.
pub proof fn creating_gives_the_printed_id(
    outcome: Outcome<Seq<char>, Seq<u8>>,
    decoded: Result<IdEnvelope, String>,
)
    ensures
        match outcome {
            Outcome::Exited { success, stdout, stderr } => if success {
                op::created(outcome, decoded) == op::id_in(outside::lossy_text(stdout), decoded)
            } else {
                op::created(outcome, decoded) == Err::<Seq<char>, Failure<Seq<char>>>(
                    told(stderr),
                )
            },
            Outcome::Missing => op::created(outcome, decoded) == Err::<
                Seq<char>,
                Failure<Seq<char>>,
            >(Failure::OpMissing),
            Outcome::NotRun { reason } => op::created(outcome, decoded) == Err::<
                Seq<char>,
                Failure<Seq<char>>,
            >(Failure::OpNotRun { reason }),
        },
        outcome matches Outcome::Exited { success, stdout, .. } ==> (success ==> op::shown_by(
            outcome,
        ) == outside::lossy_text(stdout)),
{
}

/// A document was replaced just where the call ended well, whatever it printed;
/// a call that failed passes its failure on.
pub proof fn replacing_is_ending_well(stdout: Seq<u8>, stderr: Seq<u8>, reason: Seq<char>)
    ensures
        op::edited(ended_well(stdout, stderr)) is Ok,
        op::edited(ended_badly(stdout, stderr)) == Err::<(), Failure<Seq<char>>>(told(stderr)),
        op::edited(Outcome::Missing) == Err::<(), Failure<Seq<char>>>(Failure::OpMissing),
        op::edited(Outcome::NotRun { reason }) == Err::<(), Failure<Seq<char>>>(
            Failure::OpNotRun { reason },
        ),
{
}

/// The user signed in just where `op signin` ended well.
pub proof fn signing_in_is_ending_well(outcome: Signin<Seq<char>>)
    ensures
        op::signin_result(outcome) is Ok <==> outcome == (Signin::<Seq<char>>::Exited {
            success: true,
        }),
        outcome == (Signin::<Seq<char>>::Exited { success: false }) ==> op::signin_result(outcome)
            == Err::<(), Failure<Seq<char>>>(Failure::SigninIncomplete),
        outcome is Missing ==> op::signin_result(outcome) == Err::<(), Failure<Seq<char>>>(
            Failure::OpMissing,
        ),
        outcome matches Signin::NotRun { reason } ==> op::signin_result(outcome) == Err::<
            (),
            Failure<Seq<char>>,
        >(Failure::SigninNotRun { reason }),
{
}

/// The user said yes just where `y` or `yes` was typed, in capitals or not, with
/// white space around it or not. Where nobody could be asked the answer is no.
pub proof fn only_a_typed_yes_is_a_yes(answer: Answer<Seq<char>>)
    ensures
        op::meant_by(answer) == Ok::<bool, Failure<Seq<char>>>(true) <==> (
        answer matches Answer::Typed { line } && (outside::lowercase(text::trimmed(line)) == "y"@
            || outside::lowercase(text::trimmed(line)) == "yes"@)),
        answer is NoTerminal ==> op::meant_by(answer) == Ok::<bool, Failure<Seq<char>>>(false),
        answer is Typed ==> op::meant_by(answer) is Ok,
        answer matches Answer::Failed { message } ==> op::meant_by(answer) == Err::<
            bool,
            Failure<Seq<char>>,
        >(Failure::Outside { message }),
{
}

} // verus!
