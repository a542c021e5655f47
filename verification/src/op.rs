//! The `op` program: how it is called, and what its answers mean.
//!
//! Credentials are never handled here. What `op` prints on standard error is
//! told as it is, so the user sees the real error.

use crate::failure::Error;
use crate::failure::Failure;
use crate::failure::OpFailure;
use crate::exchange;
use crate::failure;
use crate::outside;
use crate::text;
use vstd::prelude::*;

verus! {

/// The operations on 1Password that the commands ask for.
pub trait OpBackend {
    /// Whether anyone is signed in. Nobody is asked.
    fn is_signed_in(&self) -> Result<bool, Error>;

    /// Lets the user sign in.
    fn sign_in(&self) -> Result<(), Error>;

    /// The ID of the vault with this name, where there is one.
    fn find_vault(&self, name: &str) -> Result<Option<String>, Error>;

    /// The name of the vault with this ID, where there is one.
    fn vault_name(&self, id: &str) -> Result<Option<String>, Error>;

    /// Creates a vault and gives its ID.
    fn create_vault(&self, name: &str, description: &str) -> Result<String, Error>;

    /// Stores a new document and gives its ID.
    fn create_document(
        &self,
        vault: &str,
        title: &str,
        file_name: &str,
        content: &[u8],
    ) -> Result<String, Error>;

    /// Replaces the contents and the title of a document.
    fn edit_document(
        &self,
        vault: &str,
        id: &str,
        title: &str,
        file_name: &str,
        content: &[u8],
    ) -> Result<(), Error>;

    /// The contents of a document.
    fn get_document(&self, vault: &str, id: &str) -> Result<Vec<u8>, Error>;
}

// ---------------------------------------------------------------------------
// how `op` is called
// ---------------------------------------------------------------------------
/// The prefix of the directory in which a document waits for `op`.
pub const STAGE_PREFIX: &'static str = "dotprot-";

/// The arguments that ask who is signed in.
pub open spec fn whoami_call() -> Seq<Seq<char>> {
    seq!["whoami"@]
}

/// The arguments that sign in.
pub open spec fn signin_call() -> Seq<Seq<char>> {
    seq!["signin"@]
}

/// The arguments that look up a vault by its name or ID.
pub open spec fn vault_get_call(key: Seq<char>) -> Seq<Seq<char>> {
    seq!["vault"@, "get"@, key, "--format=json"@]
}

/// The arguments that create a vault.
pub open spec fn vault_create_call(name: Seq<char>, description: Seq<char>) -> Seq<Seq<char>> {
    seq!["vault"@, "create"@, name, "--description"@, description, "--format=json"@]
}

/// The arguments that store the file at `path` as a new document.
pub open spec fn document_create_call(
    path: Seq<char>,
    vault: Seq<char>,
    title: Seq<char>,
    file_name: Seq<char>,
) -> Seq<Seq<char>> {
    seq![
        "document"@,
        "create"@,
        path,
        "--vault"@,
        vault,
        "--title"@,
        title,
        "--file-name"@,
        file_name,
        "--format=json"@,
    ]
}

/// The arguments that replace a document by the file at `path`.
pub open spec fn document_edit_call(
    id: Seq<char>,
    path: Seq<char>,
    vault: Seq<char>,
    title: Seq<char>,
    file_name: Seq<char>,
) -> Seq<Seq<char>> {
    seq![
        "document"@,
        "edit"@,
        id,
        path,
        "--vault"@,
        vault,
        "--title"@,
        title,
        "--file-name"@,
        file_name,
    ]
}

/// The arguments that fetch a document.
pub open spec fn document_get_call(vault: Seq<char>, id: Seq<char>) -> Seq<Seq<char>> {
    seq!["document"@, "get"@, id, "--vault"@, vault, "--force"@]
}

/// The arguments that ask who is signed in.
pub fn whoami_args() -> (r: Vec<String>)
    ensures
        text::texts(r@) == whoami_call(),
{
    let mut r: Vec<String> = Vec::new();
    r.push("whoami".to_owned());
    assert(text::texts(r@) =~= whoami_call());
    r
}

/// The arguments that sign in.
pub fn signin_args() -> (r: Vec<String>)
    ensures
        text::texts(r@) == signin_call(),
{
    let mut r: Vec<String> = Vec::new();
    r.push("signin".to_owned());
    assert(text::texts(r@) =~= signin_call());
    r
}

/// The arguments that look up a vault by its name or ID.
pub fn vault_get_args(key: &str) -> (r: Vec<String>)
    ensures
        text::texts(r@) == vault_get_call(key@),
{
    let mut r: Vec<String> = Vec::new();
    r.push("vault".to_owned());
    r.push("get".to_owned());
    r.push(key.to_owned());
    r.push("--format=json".to_owned());
    assert(text::texts(r@) =~= vault_get_call(key@));
    r
}

/// The arguments that create a vault.
pub fn vault_create_args(name: &str, description: &str) -> (r: Vec<String>)
    ensures
        text::texts(r@) == vault_create_call(name@, description@),
{
    let mut r: Vec<String> = Vec::new();
    r.push("vault".to_owned());
    r.push("create".to_owned());
    r.push(name.to_owned());
    r.push("--description".to_owned());
    r.push(description.to_owned());
    r.push("--format=json".to_owned());
    assert(text::texts(r@) =~= vault_create_call(name@, description@));
    r
}

/// The arguments that store the file at `path` as a new document.
pub fn document_create_args(path: &str, vault: &str, title: &str, file_name: &str) -> (r: Vec<
    String,
>)
    ensures
        text::texts(r@) == document_create_call(path@, vault@, title@, file_name@),
{
    let mut r: Vec<String> = Vec::new();
    r.push("document".to_owned());
    r.push("create".to_owned());
    r.push(path.to_owned());
    r.push("--vault".to_owned());
    r.push(vault.to_owned());
    r.push("--title".to_owned());
    r.push(title.to_owned());
    r.push("--file-name".to_owned());
    r.push(file_name.to_owned());
    r.push("--format=json".to_owned());
    assert(text::texts(r@) =~= document_create_call(path@, vault@, title@, file_name@));
    r
}

/// The arguments that replace a document by the file at `path`.
pub fn document_edit_args(
    id: &str,
    path: &str,
    vault: &str,
    title: &str,
    file_name: &str,
) -> (r: Vec<String>)
    ensures
        text::texts(r@) == document_edit_call(id@, path@, vault@, title@, file_name@),
{
    let mut r: Vec<String> = Vec::new();
    r.push("document".to_owned());
    r.push("edit".to_owned());
    r.push(id.to_owned());
    r.push(path.to_owned());
    r.push("--vault".to_owned());
    r.push(vault.to_owned());
    r.push("--title".to_owned());
    r.push(title.to_owned());
    r.push("--file-name".to_owned());
    r.push(file_name.to_owned());
    assert(text::texts(r@) =~= document_edit_call(id@, path@, vault@, title@, file_name@));
    r
}

/// The arguments that fetch a document.
pub fn document_get_args(vault: &str, id: &str) -> (r: Vec<String>)
    ensures
        text::texts(r@) == document_get_call(vault@, id@),
{
    let mut r: Vec<String> = Vec::new();
    r.push("document".to_owned());
    r.push("get".to_owned());
    r.push(id.to_owned());
    r.push("--vault".to_owned());
    r.push(vault.to_owned());
    r.push("--force".to_owned());
    assert(text::texts(r@) =~= document_get_call(vault@, id@));
    r
}

// ---------------------------------------------------------------------------
// what came of a call
// ---------------------------------------------------------------------------
/// What came of starting `op`.
#[verifier::ext_equal]
#[derive(Debug)]
pub enum Outcome<T = String, B = Vec<u8>> {
    /// There is no such program.
    Missing,
    /// It could not be started.
    NotRun { reason: T },
    /// It ended, and this is what it printed.
    Exited { success: bool, stdout: B, stderr: B },
}

impl View for Outcome<String, Vec<u8>> {
    type V = Outcome<Seq<char>, Seq<u8>>;

    open spec fn view(&self) -> Outcome<Seq<char>, Seq<u8>> {
        match self {
            Outcome::Missing => Outcome::Missing,
            Outcome::NotRun { reason } => Outcome::NotRun { reason: reason@ },
            Outcome::Exited { success, stdout, stderr } => Outcome::Exited {
                success: *success,
                stdout: stdout@,
                stderr: stderr@,
            },
        }
    }
}

/// What `op` printed, or why it did not do its work.
pub open spec fn result_of(outcome: Outcome<Seq<char>, Seq<u8>>) -> Result<
    Seq<u8>,
    Failure<Seq<char>>,
> {
    match outcome {
        Outcome::Missing => Err(Failure::OpMissing),
        Outcome::NotRun { reason } => Err(Failure::OpNotRun { reason }),
        Outcome::Exited { success, stdout, stderr } => if success {
            Ok(stdout)
        } else {
            Err(Failure::Op(OpFailure { stderr: outside::lossy_text(stderr) }))
        },
    }
}

/// The failure that a text on standard error tells, as it is.
pub fn told_failure(stderr: String) -> (r: Error)
    ensures
        r@ == Failure::Op(OpFailure { stderr: stderr@ }),
{
    Failure::Op(OpFailure { stderr })
}

/// What `op` printed, or why it did not do its work: where it failed, what it
/// told on standard error, unchanged.
pub fn run_op(outcome: Outcome) -> (r: Result<Vec<u8>, Error>)
    ensures
        exchange::document_view(r) == result_of(outcome@),
        match outcome@ {
            Outcome::Exited { success: false, stderr, .. } => vstd::utf8::valid_utf8(stderr)
                ==> exchange::document_view(r) == Err::<Seq<u8>, Failure<Seq<char>>>(
                Failure::Op(OpFailure { stderr: vstd::utf8::decode_utf8(stderr) }),
            ),
            _ => true,
        },
{
    match outcome {
        Outcome::Missing => Err(Failure::OpMissing),
        Outcome::NotRun { reason } => Err(Failure::OpNotRun { reason }),
        Outcome::Exited { success, stdout, stderr } => {
            if success {
                Ok(stdout)
            } else {
                Err(told_failure(outside::from_utf8_lossy(&stderr)))
            }
        },
    }
}

// ---------------------------------------------------------------------------
// signing in
// ---------------------------------------------------------------------------
/// Whether an error, in lower case, says that nobody is signed in.
pub fn says_signed_out(lowered: &str) -> (r: bool)
    ensures
        r == text::has(lowered@, "not signed in"@),
{
    text::contains(lowered, "not signed in")
}

/// What asking who is signed in means. Only an error that says so means that
/// nobody is.
pub open spec fn signed_in(result: Result<Seq<u8>, Failure<Seq<char>>>) -> Result<
    bool,
    Failure<Seq<char>>,
> {
    match result {
        Ok(_) => Ok(true),
        Err(Failure::Op(f)) => if text::has(outside::lowercase(f.stderr), "not signed in"@) {
            Ok(false)
        } else {
            Err(Failure::Op(f))
        },
        Err(e) => Err(e),
    }
}

/// Whether anyone is signed in, by what came of [`whoami_args`].
pub fn is_signed_in(outcome: Outcome) -> (r: Result<bool, Error>)
    ensures
        failure::outcome_of(r) == signed_in(result_of(outcome@)),
        match result_of(outcome@) {
            Err(Failure::Op(f)) => outside::is_ascii_text(f.stderr) ==> (r is Ok <==> text::has(
                outside::ascii_lowercase(f.stderr),
                "not signed in"@,
            )),
            _ => true,
        },
{
    match run_op(outcome) {
        Ok(_) => Ok(true),
        Err(Failure::Op(f)) => {
            if says_signed_out(outside::to_lowercase(f.stderr.as_str()).as_str()) {
                Ok(false)
            } else {
                Err(Failure::Op(f))
            }
        },
        Err(e) => Err(e),
    }
}

/// What came of letting the user sign in.
#[verifier::ext_equal]
#[derive(Debug)]
pub enum Signin<T = String> {
    /// There is no such program.
    Missing,
    /// It could not be started.
    NotRun { reason: T },
    /// It ended.
    Exited { success: bool },
}

impl View for Signin<String> {
    type V = Signin<Seq<char>>;

    open spec fn view(&self) -> Signin<Seq<char>> {
        match self {
            Signin::Missing => Signin::Missing,
            Signin::NotRun { reason } => Signin::NotRun { reason: reason@ },
            Signin::Exited { success } => Signin::Exited { success: *success },
        }
    }
}

/// What came of letting the user sign in, as a result.
pub open spec fn signin_result(outcome: Signin<Seq<char>>) -> Result<(), Failure<Seq<char>>> {
    match outcome {
        Signin::Missing => Err(Failure::OpMissing),
        Signin::NotRun { reason } => Err(Failure::SigninNotRun { reason }),
        Signin::Exited { success } => if success {
            Ok(())
        } else {
            Err(Failure::SigninIncomplete)
        },
    }
}

/// Whether the user signed in, by what came of [`signin_args`].
pub fn sign_in(outcome: Signin) -> (r: Result<(), Error>)
    ensures
        failure::outcome_of(r) == signin_result(outcome@),
        failure::outcome_of(r) == (match outcome@ {
            Signin::Missing => Err::<(), Failure<Seq<char>>>(Failure::OpMissing),
            Signin::NotRun { reason } => Err(Failure::SigninNotRun { reason }),
            Signin::Exited { success } => if success {
                Ok(())
            } else {
                Err(Failure::SigninIncomplete)
            },
        }),
{
    match outcome {
        Signin::Missing => Err(Failure::OpMissing),
        Signin::NotRun { reason } => Err(Failure::SigninNotRun { reason }),
        Signin::Exited { success } => {
            if success {
                Ok(())
            } else {
                Err(Failure::SigninIncomplete)
            }
        },
    }
}

/// What came of asking the user a question at the terminal.
#[verifier::ext_equal]
#[derive(Debug)]
pub enum Answer<T = String> {
    /// There is no terminal, and nobody was asked.
    NoTerminal,
    /// The answer could not be read.
    Failed { message: T },
    /// The line that was typed.
    Typed { line: T },
}

impl View for Answer<String> {
    type V = Answer<Seq<char>>;

    open spec fn view(&self) -> Answer<Seq<char>> {
        match self {
            Answer::NoTerminal => Answer::NoTerminal,
            Answer::Failed { message } => Answer::Failed { message: message@ },
            Answer::Typed { line } => Answer::Typed { line: line@ },
        }
    }
}

/// How a question is put.
pub fn prompt_text(question: &str) -> (r: String)
    ensures
        r@ == question@ + " [y/N] "@,
{
    question.to_owned().concat(" [y/N] ")
}

/// Whether an answer, in lower case, is a yes.
pub fn is_yes(lowered: &str) -> (r: bool)
    ensures
        r == (lowered@ == "y"@ || lowered@ == "yes"@),
{
    text::same(lowered, "y") || text::same(lowered, "yes")
}

/// What an answer means. Without a terminal nobody said yes.
pub open spec fn meant_by(answer: Answer<Seq<char>>) -> Result<bool, Failure<Seq<char>>> {
    match answer {
        Answer::NoTerminal => Ok(false),
        Answer::Failed { message } => Err(Failure::Outside { message }),
        Answer::Typed { line } => {
            let said = outside::lowercase(text::trimmed(line));
            Ok(said == "y"@ || said == "yes"@)
        },
    }
}

/// Whether the user said yes. Without a terminal the answer is no, so that
/// nothing waits for an answer that never comes.
pub fn prompt_yes_no(answer: Answer) -> (r: Result<bool, Error>)
    ensures
        failure::outcome_of(r) == meant_by(answer@),
        failure::outcome_of(r) == (match answer@ {
            Answer::NoTerminal => Ok::<bool, Failure<Seq<char>>>(false),
            Answer::Failed { message } => Err(Failure::Outside { message }),
            Answer::Typed { line } => {
                let said = outside::lowercase(text::trimmed(line));
                Ok(said == "y"@ || said == "yes"@)
            },
        }),
        match answer@ {
            Answer::Typed { line } => outside::is_ascii_text(text::trimmed(line)) ==> {
                let said = outside::ascii_lowercase(text::trimmed(line));
                failure::outcome_of(r) == Ok::<bool, Failure<Seq<char>>>(
                    said == "y"@ || said == "yes"@,
                )
            },
            _ => true,
        },
{
    match answer {
        Answer::NoTerminal => Ok(false),
        Answer::Failed { message } => Err(Failure::Outside { message }),
        Answer::Typed { line } => {
            let trimmed = text::trim(line.as_str());
            Ok(is_yes(outside::to_lowercase(trimmed.as_str()).as_str()))
        },
    }
}

// ---------------------------------------------------------------------------
// IDs and names
// ---------------------------------------------------------------------------
/// What `op` prints of an item or a vault: an ID under one of two names.
#[derive(Debug)]
pub struct IdEnvelope {
    pub id: Option<String>,
    pub uuid: Option<String>,
}

/// What `op` prints of a vault: its name.
#[derive(Debug)]
pub struct VaultEnvelope {
    pub name: Option<String>,
}

/// The ID in what `op` printed, where `decoded` is what its JSON holds or why it
/// holds nothing. The `uuid` is preferred to the `id`.
pub open spec fn id_in(shown: Seq<char>, decoded: Result<IdEnvelope, String>) -> Result<
    Seq<char>,
    Failure<Seq<char>>,
> {
    match decoded {
        Ok(envelope) => match (envelope.uuid, envelope.id) {
            (Some(uuid), _) => Ok(uuid@),
            (None, Some(id)) => Ok(id@),
            (None, None) => Err(Failure::NoId { text: text::trimmed(shown) }),
        },
        Err(cause) => Err(Failure::BadJson { text: text::trimmed(shown), cause: cause@ }),
    }
}

/// The ID in what `op` printed, shown as a text.
pub fn id_of(shown: &str, decoded: Result<IdEnvelope, String>) -> (r: Result<String, Error>)
    ensures
        exchange::created_view(r) == id_in(shown@, decoded),
{
    match decoded {
        Ok(envelope) => match (envelope.uuid, envelope.id) {
            (Some(uuid), _) => Ok(uuid),
            (None, Some(id)) => Ok(id),
            (None, None) => Err(Failure::NoId { text: text::trim(shown) }),
        },
        Err(cause) => Err(Failure::BadJson { text: text::trim(shown), cause }),
    }
}

/// The ID in what `op` printed.
pub fn parse_id(stdout: &Vec<u8>, decoded: Result<IdEnvelope, String>) -> (r: Result<String, Error>)
    ensures
        exchange::created_view(r) == id_in(outside::lossy_text(stdout@), decoded),
{
    id_of(outside::from_utf8_lossy(stdout).as_str(), decoded)
}

/// Whether an error, in lower case, says that there is no such vault.
pub open spec fn tells_vault_missing(lowered: Seq<char>) -> bool {
    ||| text::has(lowered, "isn't a vault"@)
    ||| text::has(lowered, "is not a vault"@)
    ||| text::has(lowered, "vault not found"@)
}

/// Whether an error, in lower case, says that there is no such vault.
pub fn says_vault_missing(lowered: &str) -> (r: bool)
    ensures
        r == tells_vault_missing(lowered@),
{
    text::contains(lowered, "isn't a vault") || text::contains(lowered, "is not a vault")
        || text::contains(lowered, "vault not found")
}

/// Whether an error says that there is no such vault. Any other failure must
/// not be taken for that, or a second vault of the same name would be created.
pub fn vault_not_found(stderr: &str) -> (r: bool)
    ensures
        r == tells_vault_missing(outside::lowercase(stderr@)),
        outside::is_ascii_text(stderr@) ==> r == tells_vault_missing(
            outside::ascii_lowercase(stderr@),
        ),
{
    says_vault_missing(outside::to_lowercase(stderr).as_str())
}

/// What looking up a vault means, given what a success means.
pub open spec fn lookup(
    result: Result<Seq<u8>, Failure<Seq<char>>>,
    found: Result<Seq<char>, Failure<Seq<char>>>,
) -> Result<Option<Seq<char>>, Failure<Seq<char>>> {
    match result {
        Ok(_) => match found {
            Ok(t) => Ok(Some(t)),
            Err(e) => Err(e),
        },
        Err(Failure::Op(f)) => if tells_vault_missing(outside::lowercase(f.stderr)) {
            Ok(None)
        } else {
            Err(Failure::Op(f))
        },
        Err(e) => Err(e),
    }
}

/// What `op` printed on standard output, as a text.
pub open spec fn shown_by(outcome: Outcome<Seq<char>, Seq<u8>>) -> Seq<char> {
    match result_of(outcome) {
        Ok(stdout) => outside::lossy_text(stdout),
        Err(_) => Seq::empty(),
    }
}

/// The ID of a vault, by what came of [`vault_get_args`] with its name.
pub fn find_vault(outcome: Outcome, decoded: Result<IdEnvelope, String>) -> (r: Result<
    Option<String>,
    Error,
>)
    ensures
        exchange::vault_view(r) == lookup(
            result_of(outcome@),
            id_in(shown_by(outcome@), decoded),
        ),
{
    match run_op(outcome) {
        Ok(stdout) => match parse_id(&stdout, decoded) {
            Ok(id) => Ok(Some(id)),
            Err(e) => Err(e),
        },
        Err(Failure::Op(f)) => {
            if vault_not_found(f.stderr.as_str()) {
                Ok(None)
            } else {
                Err(Failure::Op(f))
            }
        },
        Err(e) => Err(e),
    }
}

/// The name in what `op` printed of the vault `id`.
pub open spec fn name_in(
    id: Seq<char>,
    shown: Seq<char>,
    decoded: Result<VaultEnvelope, String>,
) -> Result<Seq<char>, Failure<Seq<char>>> {
    match decoded {
        Ok(envelope) => match envelope.name {
            Some(name) => Ok(name@),
            None => Err(Failure::NoName { id }),
        },
        Err(cause) => Err(Failure::BadJson { text: text::trimmed(shown), cause: cause@ }),
    }
}

/// The name in what `op` printed of the vault `id`, shown as a text.
pub fn name_of(id: &str, shown: &str, decoded: Result<VaultEnvelope, String>) -> (r: Result<
    String,
    Error,
>)
    ensures
        exchange::created_view(r) == name_in(id@, shown@, decoded),
{
    match decoded {
        Ok(envelope) => match envelope.name {
            Some(name) => Ok(name),
            None => Err(Failure::NoName { id: id.to_owned() }),
        },
        Err(cause) => Err(Failure::BadJson { text: text::trim(shown), cause }),
    }
}

/// The name of a vault, by what came of [`vault_get_args`] with its ID.
pub fn vault_name(id: &str, outcome: Outcome, decoded: Result<VaultEnvelope, String>) -> (r: Result<
    Option<String>,
    Error,
>)
    ensures
        exchange::vault_view(r) == lookup(
            result_of(outcome@),
            name_in(id@, shown_by(outcome@), decoded),
        ),
{
    match run_op(outcome) {
        Ok(stdout) => match name_of(id, outside::from_utf8_lossy(&stdout).as_str(), decoded) {
            Ok(name) => Ok(Some(name)),
            Err(e) => Err(e),
        },
        Err(Failure::Op(f)) => {
            if vault_not_found(f.stderr.as_str()) {
                Ok(None)
            } else {
                Err(Failure::Op(f))
            }
        },
        Err(e) => Err(e),
    }
}

/// What creating something means: its ID.
pub open spec fn created(
    outcome: Outcome<Seq<char>, Seq<u8>>,
    decoded: Result<IdEnvelope, String>,
) -> Result<Seq<char>, Failure<Seq<char>>> {
    match result_of(outcome) {
        Ok(_) => id_in(shown_by(outcome), decoded),
        Err(e) => Err(e),
    }
}

/// The ID of a new vault, by what came of [`vault_create_args`].
pub fn create_vault(outcome: Outcome, decoded: Result<IdEnvelope, String>) -> (r: Result<
    String,
    Error,
>)
    ensures
        exchange::created_view(r) == created(outcome@, decoded),
{
    match run_op(outcome) {
        Ok(stdout) => parse_id(&stdout, decoded),
        Err(e) => Err(e),
    }
}

// ---------------------------------------------------------------------------
// documents
// ---------------------------------------------------------------------------
/// The ID of a new document, by what came of [`document_create_args`].
pub fn create_document(outcome: Outcome, decoded: Result<IdEnvelope, String>) -> (r: Result<
    String,
    Error,
>)
    ensures
        exchange::created_view(r) == created(outcome@, decoded),
{
    match run_op(outcome) {
        Ok(stdout) => parse_id(&stdout, decoded),
        Err(e) => Err(e),
    }
}

/// What replacing a document means: it was done just where the call ended well.
pub open spec fn edited(outcome: Outcome<Seq<char>, Seq<u8>>) -> Result<(), Failure<Seq<char>>> {
    match result_of(outcome) {
        Ok(_) => Ok(()),
        Err(e) => Err(e),
    }
}

/// Whether a document was replaced, by what came of [`document_edit_args`].
pub fn edit_document(outcome: Outcome) -> (r: Result<(), Error>)
    ensures
        failure::outcome_of(r) == edited(outcome@),
        failure::outcome_of(r) == (match result_of(outcome@) {
            Ok(_) => Ok::<(), Failure<Seq<char>>>(()),
            Err(e) => Err(e),
        }),
{
    match run_op(outcome) {
        Ok(_) => Ok(()),
        Err(e) => Err(e),
    }
}

/// The contents of a document, by what came of [`document_get_args`].
pub fn get_document(outcome: Outcome) -> (r: Result<Vec<u8>, Error>)
    ensures
        exchange::document_view(r) == result_of(outcome@),
{
    run_op(outcome)
}

} // verus!
