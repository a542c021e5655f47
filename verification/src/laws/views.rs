//! What the values that are handed around stand for.

use crate::exchange::Entry;
use crate::exchange::Line;
use crate::exchange::Reply;
use crate::exchange::Request;
use crate::exchange::RequestView;
use crate::exchange::Restoring;
use crate::op::OpBackend;
use crate::paths::Component;
use crate::paths::Place;
use crate::prot::ProtData;
use crate::prot::Reading;
use crate::prot::WriteStep;
use crate::session;
use vstd::prelude::*;

verus! {

/// Whether a request stands for another.
pub open spec fn stands_for(a: RequestView, b: RequestView) -> bool {
    a == b
}

/// A request stands for what its fields hold, each for its own.
pub proof fn a_request_stands_for_its_fields(request: Request)
    ensures
        match request {
            Request::IsSignedIn => request@ is IsSignedIn,
            Request::Confirm { question } => stands_for(request@, Request::Confirm { question: question@ }),
            Request::SignIn => request@ is SignIn,
            Request::FindVault { name } => stands_for(request@, Request::FindVault { name: name@ }),
            Request::VaultName { id } => stands_for(request@, Request::VaultName { id: id@ }),
            Request::CreateVault { name, description } => stands_for(request@, Request::CreateVault {
                name: name@,
                description: description@,
            }),
            Request::CreateDocument { vault, title, file_name, content } => stands_for(request@, Request::CreateDocument {
                vault: vault@,
                title: title@,
                file_name: file_name@,
                content: content@,
            }),
            Request::EditDocument { vault, id, title, file_name, content } => stands_for(request@, Request::EditDocument {
                vault: vault@,
                id: id@,
                title: title@,
                file_name: file_name@,
                content: content@,
            }),
            Request::GetDocument { vault, id } => stands_for(request@, Request::GetDocument {
                vault: vault@,
                id: id@,
            }),
            Request::ReadProt => request@ is ReadProt,
            Request::WriteProt { data } => stands_for(request@, Request::WriteProt { data: data@ }),
            Request::SaveBackup { dir, file, data } => stands_for(request@, Request::SaveBackup {
                dir: dir@,
                file: file@,
                data: data@,
            }),
            Request::Glob { pattern } => stands_for(request@, Request::Glob { pattern: pattern@ }),
            Request::ReadFile { file } => stands_for(request@, Request::ReadFile { file: file@ }),
            Request::RemoveFile { file } => stands_for(request@, Request::RemoveFile { file: file@ }),
            Request::Exists { file } => stands_for(request@, Request::Exists { file: file@ }),
            Request::IsLink { dir } => stands_for(request@, Request::IsLink { dir: dir@ }),
            Request::WriteNew { file, content, mode } => stands_for(request@, Request::WriteNew {
                file: file@,
                content: content@,
                mode,
            }),
        },
{
}

/// A reply stands for what it holds: a success for its value, and a failure for
/// itself.
pub proof fn a_reply_stands_for_what_it_holds(reply: Reply)
    ensures
        match reply {
            Reply::Flag(Ok(b)) => reply@ matches Reply::Flag(Ok(v)) && v == b,
            Reply::Flag(Err(e)) => reply@ matches Reply::Flag(Err(v)) && v == e@,
            Reply::Ended(Ok(_)) => reply@ matches Reply::Ended(Ok(_)),
            Reply::Ended(Err(e)) => reply@ matches Reply::Ended(Err(v)) && v == e@,
            Reply::Vault(Ok(Some(t))) => reply@ matches Reply::Vault(Ok(Some(v))) && v == t@,
            Reply::Vault(Ok(None)) => reply@ matches Reply::Vault(Ok(None)),
            Reply::Vault(Err(e)) => reply@ matches Reply::Vault(Err(v)) && v == e@,
            Reply::Created(Ok(id)) => reply@ matches Reply::Created(Ok(v)) && v == id@,
            Reply::Created(Err(e)) => reply@ matches Reply::Created(Err(v)) && v == e@,
            Reply::Document(Ok(bytes)) => reply@ matches Reply::Document(Ok(v)) && v == bytes@,
            Reply::Document(Err(e)) => reply@ matches Reply::Document(Err(v)) && v == e@,
            Reply::Prot(Reading::Text(t)) => reply@ matches Reply::Prot(Reading::Text(v)) && v == t@,
            Reply::Prot(Reading::Missing) => reply@ matches Reply::Prot(Reading::Missing),
            Reply::Prot(Reading::Failed { cause }) => reply@ matches Reply::Prot(
                Reading::Failed { cause: v },
            ) && v == cause@,
            Reply::Matches(Ok(list)) => reply@ matches Reply::Matches(Ok(v)) && v.len()
                == list@.len() && forall|i: int|
                0 <= i < v.len() ==> #[trigger] v[i] == list@[i]@,
            Reply::Matches(Err(m)) => reply@ matches Reply::Matches(Err(v)) && v == m@,
            Reply::Content(Ok(bytes)) => reply@ matches Reply::Content(Ok(v)) && v == bytes@,
            Reply::Content(Err(m)) => reply@ matches Reply::Content(Err(v)) && v == m@,
            Reply::Removed(Ok(_)) => reply@ matches Reply::Removed(Ok(_)),
            Reply::Removed(Err(m)) => reply@ matches Reply::Removed(Err(v)) && v == m@,
            Reply::Presence(there) => reply@ matches Reply::Presence(v) && v == there,
            Reply::Link(link) => reply@ matches Reply::Link(v) && v == link,
            Reply::Restored(Restoring::Written) => reply@ matches Reply::Restored(
                Restoring::Written,
            ),
            Reply::Restored(Restoring::Refused { cause }) => reply@ matches Reply::Restored(
                Restoring::Refused { cause: v },
            ) && v == cause@,
            Reply::Restored(Restoring::Failed { message }) => reply@ matches Reply::Restored(
                Restoring::Failed { message: v },
            ) && v == message@,
        },
{
}

/// What a match stands for, and a line for the user, and a step of writing.
pub proof fn matches_lines_and_steps_stand_for_what_they_hold(
    entry: Entry,
    line: Line,
    step: WriteStep,
)
    ensures
        match entry {
            Entry::Unreadable { shown } => entry@ == (Entry::Unreadable { shown: shown@ }),
            Entry::Found { shown, is_file, relative: Some(path) } => entry@ == (Entry::Found {
                shown: shown@,
                is_file,
                relative: Some(path@),
            }),
            Entry::Found { shown, is_file, relative: None } => entry@ matches Entry::Found {
                shown: s,
                is_file: f,
                relative: None,
            } && s == shown@ && f == is_file,
        },
        match line {
            Line::Out(t) => line@ == Line::Out(t@),
            Line::Warn(t) => line@ == Line::Warn(t@),
        },
        match step {
            WriteStep::CreateTemp { prefix } => step@ == (WriteStep::CreateTemp {
                prefix: prefix@,
            }),
            WriteStep::Fill { text } => step@ == (WriteStep::Fill { text: text@ }),
            WriteStep::CarryMode => step@ is CarryMode,
            WriteStep::Flush => step@ is Flush,
            WriteStep::Rename => step@ is Rename,
        },
{
}

/// The contents of `.prot` stand for the vault, the documents and the patterns
/// that they hold, in order.
pub proof fn contents_stand_for_what_they_hold(data: ProtData, i: int)
    ensures
        data.vault matches Some(id) ==> data@.vault == Some(id@),
        data.vault is None ==> data@.vault is None,
        data@.documents.len() == data.documents@.len(),
        0 <= i < data.documents@.len() ==> data@.documents[i].0 == data.documents@[i].0@
            && data@.documents[i].1 == data.documents@[i].1@,
        data@.patterns.len() == data.patterns@.len(),
        0 <= i < data.patterns@.len() ==> data@.patterns[i] == data.patterns@[i]@,
{
}

/// A place stands for where it is.
pub proof fn a_place_stands_for_where_it_is(place: Place, i: int)
    ensures
        place@.cwd == place.cwd@,
        place@.style == place.style,
        place.home matches Some(home) ==> place@.home == Some(home@),
        place.home is None ==> place@.home is None,
        place@.components.len() == place.components@.len(),
        0 <= i < place.components@.len() ==> match place.components@[i] {
            Component::Prefix(name) => place@.components[i] == Component::Prefix(name@),
            Component::RootDir => place@.components[i] is RootDir,
            Component::CurDir => place@.components[i] is CurDir,
            Component::ParentDir => place@.components[i] is ParentDir,
            Component::Normal(name) => place@.components[i] == Component::Normal(name@),
        },
{
}

// ---------------------------------------------------------------------------
// the backend
// ---------------------------------------------------------------------------
/// What the backend gave is what it gave when it was called for just what was
/// requested, each value in its own place; and only requests to 1Password go to
/// it.
pub proof fn the_backend_is_called_for_what_was_requested<O: OpBackend>(
    op: &O,
    request: RequestView,
    reply: Reply,
)
    requires
        session::given_by(op, request, reply),
    ensures
        session::is_for_backend(request),
        match request {
            Request::IsSignedIn => reply matches Reply::Flag(r) && call_ensures(
                O::is_signed_in,
                (op,),
                r,
            ),
            Request::SignIn => reply matches Reply::Ended(r) && call_ensures(O::sign_in, (op,), r),
            Request::FindVault { name } => reply matches Reply::Vault(r) && exists|n: &str|
                n@ == name && #[trigger] call_ensures(O::find_vault, (op, n), r),
            Request::VaultName { id } => reply matches Reply::Vault(r) && exists|i: &str|
                i@ == id && #[trigger] call_ensures(O::vault_name, (op, i), r),
            Request::CreateVault { name, description } => reply matches Reply::Created(r)
                && exists|n: &str, d: &str|
                n@ == name && d@ == description && #[trigger] call_ensures(
                    O::create_vault,
                    (op, n, d),
                    r,
                ),
            Request::CreateDocument { vault, title, file_name, content } => reply
                matches Reply::Created(r) && exists|v: &str, t: &str, f: &str, c: &[u8]|
                v@ == vault && t@ == title && f@ == file_name && c@ == content
                    && #[trigger] call_ensures(O::create_document, (op, v, t, f, c), r),
            Request::EditDocument { vault, id, title, file_name, content } => reply
                matches Reply::Ended(r) && exists|v: &str, i: &str, t: &str, f: &str, c: &[u8]|
                v@ == vault && i@ == id && t@ == title && f@ == file_name && c@ == content
                    && #[trigger] call_ensures(O::edit_document, (op, v, i, t, f, c), r),
            Request::GetDocument { vault, id } => reply matches Reply::Document(r) && exists|
                v: &str,
                i: &str,
            | v@ == vault && i@ == id && #[trigger] call_ensures(O::get_document, (op, v, i), r),
            _ => false,
        },
{
}

/// Requests about the disk, `.prot` and the user are none for the backend.
pub proof fn only_requests_to_the_vault_go_to_the_backend(request: RequestView)
    ensures
        session::is_for_backend(request) <==> {
            ||| request is IsSignedIn
            ||| request is SignIn
            ||| request is FindVault
            ||| request is VaultName
            ||| request is CreateVault
            ||| request is CreateDocument
            ||| request is EditDocument
            ||| request is GetDocument
        },
{
}

} // verus!
