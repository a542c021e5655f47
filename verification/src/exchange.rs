//! What a command asks of the world around it, and what it is told.

use crate::failure;
use crate::failure::Error;
use crate::failure::Failure;
use crate::prot;
use crate::prot::ProtData;
use crate::prot::ProtView;
use crate::prot::Reading;
use vstd::prelude::*;

verus! {

/// A line for the user.
#[verifier::ext_equal]
#[derive(Debug)]
pub enum Line<T = String> {
    /// To standard output.
    Out(T),
    /// To standard error.
    Warn(T),
}

impl View for Line<String> {
    type V = Line<Seq<char>>;

    open spec fn view(&self) -> Line<Seq<char>> {
        match self {
            Line::Out(t) => Line::Out(t@),
            Line::Warn(t) => Line::Warn(t@),
        }
    }
}

/// The views of a list of lines.
pub open spec fn line_views(list: Seq<Line<String>>) -> Seq<Line<Seq<char>>> {
    list.map_values(|line: Line<String>| line@)
}

/// What a pattern matched on disk.
#[verifier::ext_equal]
#[derive(Debug)]
pub enum Entry<T = String> {
    /// Something that could not be read, by the path that tells it.
    Unreadable { shown: T },
    /// A path that exists: how it is told, whether it is a file, and the path
    /// that is left when the working directory is taken off its front, where
    /// it begins with that.
    Found { shown: T, is_file: bool, relative: Option<T> },
}

impl View for Entry<String> {
    type V = Entry<Seq<char>>;

    open spec fn view(&self) -> Entry<Seq<char>> {
        match self {
            Entry::Unreadable { shown } => Entry::Unreadable { shown: shown@ },
            Entry::Found { shown, is_file, relative } => Entry::Found {
                shown: shown@,
                is_file: *is_file,
                relative: prot::maybe(*relative),
            },
        }
    }
}

/// The views of a list of matches.
pub open spec fn entry_views(list: Seq<Entry<String>>) -> Seq<Entry<Seq<char>>> {
    list.map_values(|entry: Entry<String>| entry@)
}

/// What came of restoring a file.
#[verifier::ext_equal]
#[derive(Debug)]
pub enum Restoring<T = String> {
    /// It was created and written.
    Written,
    /// It could not be created.
    Refused { cause: T },
    /// It was created but not written.
    Failed { message: T },
}

impl View for Restoring<String> {
    type V = Restoring<Seq<char>>;

    open spec fn view(&self) -> Restoring<Seq<char>> {
        match self {
            Restoring::Written => Restoring::Written,
            Restoring::Refused { cause } => Restoring::Refused { cause: cause@ },
            Restoring::Failed { message } => Restoring::Failed { message: message@ },
        }
    }
}

/// What a command asks for next. Files are named by paths below the working
/// directory, except that a backup has the path it is written to.
#[verifier::ext_equal]
#[derive(Debug)]
pub enum Request<T = String, B = Vec<u8>, D = ProtData> {
    /// Whether anyone is signed in to 1Password.
    IsSignedIn,
    /// Ask the user a question that is answered with yes or no.
    Confirm { question: T },
    /// Let the user sign in.
    SignIn,
    /// The ID of the vault with this name.
    FindVault { name: T },
    /// The name of the vault with this ID.
    VaultName { id: T },
    /// Create a vault.
    CreateVault { name: T, description: T },
    /// Store a new document in a vault.
    CreateDocument { vault: T, title: T, file_name: T, content: B },
    /// Replace the contents and the title of a document.
    EditDocument { vault: T, id: T, title: T, file_name: T, content: B },
    /// The contents of a document.
    GetDocument { vault: T, id: T },
    /// Read the `.prot` of the working directory.
    ReadProt,
    /// Write the `.prot` of the working directory.
    WriteProt { data: D },
    /// Write the backup of `.prot`, creating the directory it stands in.
    SaveBackup { dir: T, file: T, data: D },
    /// Find what a glob pattern matches.
    Glob { pattern: T },
    /// The contents of a file.
    ReadFile { file: T },
    /// Delete a file.
    RemoveFile { file: T },
    /// Whether there is anything at a path.
    Exists { file: T },
    /// Whether the directory at a path is a symbolic link. Where nothing is
    /// there, it is none.
    IsLink { dir: T },
    /// Create a file with these permissions and contents, where nothing stands
    /// in its place, not even a link.
    WriteNew { file: T, content: B, mode: u32 },
}

/// What a command asks for, as mathematical values.
pub type RequestView = Request<Seq<char>, Seq<u8>, ProtView>;

impl View for Request<String, Vec<u8>, ProtData> {
    type V = RequestView;

    open spec fn view(&self) -> RequestView {
        match self {
            Request::IsSignedIn => Request::IsSignedIn,
            Request::Confirm { question } => Request::Confirm { question: question@ },
            Request::SignIn => Request::SignIn,
            Request::FindVault { name } => Request::FindVault { name: name@ },
            Request::VaultName { id } => Request::VaultName { id: id@ },
            Request::CreateVault { name, description } => Request::CreateVault {
                name: name@,
                description: description@,
            },
            Request::CreateDocument { vault, title, file_name, content } => {
                Request::CreateDocument {
                    vault: vault@,
                    title: title@,
                    file_name: file_name@,
                    content: content@,
                }
            },
            Request::EditDocument { vault, id, title, file_name, content } => {
                Request::EditDocument {
                    vault: vault@,
                    id: id@,
                    title: title@,
                    file_name: file_name@,
                    content: content@,
                }
            },
            Request::GetDocument { vault, id } => Request::GetDocument { vault: vault@, id: id@ },
            Request::ReadProt => Request::ReadProt,
            Request::WriteProt { data } => Request::WriteProt { data: data@ },
            Request::SaveBackup { dir, file, data } => Request::SaveBackup {
                dir: dir@,
                file: file@,
                data: data@,
            },
            Request::Glob { pattern } => Request::Glob { pattern: pattern@ },
            Request::ReadFile { file } => Request::ReadFile { file: file@ },
            Request::RemoveFile { file } => Request::RemoveFile { file: file@ },
            Request::Exists { file } => Request::Exists { file: file@ },
            Request::IsLink { dir } => Request::IsLink { dir: dir@ },
            Request::WriteNew { file, content, mode } => Request::WriteNew {
                file: file@,
                content: content@,
                mode: *mode,
            },
        }
    }
}

/// The view of what was found of a vault.
pub open spec fn vault_view(r: Result<Option<String>, Error>) -> Result<
    Option<Seq<char>>,
    Failure<Seq<char>>,
> {
    match r {
        Ok(found) => Ok(prot::maybe(found)),
        Err(e) => Err(e@),
    }
}

/// The view of a new ID.
pub open spec fn created_view(r: Result<String, Error>) -> Result<Seq<char>, Failure<Seq<char>>> {
    match r {
        Ok(id) => Ok(id@),
        Err(e) => Err(e@),
    }
}

/// The view of a document.
pub open spec fn document_view(r: Result<Vec<u8>, Error>) -> Result<Seq<u8>, Failure<Seq<char>>> {
    match r {
        Ok(bytes) => Ok(bytes@),
        Err(e) => Err(e@),
    }
}

/// The view of the matches of a pattern.
pub open spec fn matches_view(r: Result<Vec<Entry<String>>, String>) -> Result<
    Seq<Entry<Seq<char>>>,
    Seq<char>,
> {
    match r {
        Ok(list) => Ok(entry_views(list@)),
        Err(message) => Err(message@),
    }
}

/// The view of a file's contents.
pub open spec fn content_view(r: Result<Vec<u8>, String>) -> Result<Seq<u8>, Seq<char>> {
    match r {
        Ok(bytes) => Ok(bytes@),
        Err(message) => Err(message@),
    }
}

/// The view of a deletion.
pub open spec fn removed_view(r: Result<(), String>) -> Result<(), Seq<char>> {
    match r {
        Ok(_) => Ok(()),
        Err(message) => Err(message@),
    }
}

/// What a command is told in reply.
#[verifier::ext_equal]
#[derive(Debug)]
pub enum Reply<T = String, B = Vec<u8>, L = Vec<Entry<String>>> {
    /// To `IsSignedIn` and `Confirm`.
    Flag(Result<bool, Failure<T>>),
    /// To `SignIn`, `EditDocument`, `WriteProt` and `SaveBackup`.
    Ended(Result<(), Failure<T>>),
    /// To `FindVault` and `VaultName`: what was asked for, where there is such
    /// a vault.
    Vault(Result<Option<T>, Failure<T>>),
    /// To `CreateVault` and `CreateDocument`: the new ID.
    Created(Result<T, Failure<T>>),
    /// To `GetDocument`.
    Document(Result<B, Failure<T>>),
    /// To `ReadProt`.
    Prot(Reading<T>),
    /// To `Glob`: the matches, or what is wrong with the pattern.
    Matches(Result<L, T>),
    /// To `ReadFile`: the contents, or the error of the operating system.
    Content(Result<B, T>),
    /// To `RemoveFile`.
    Removed(Result<(), T>),
    /// To `Exists`; nothing where it could not be found out.
    Presence(Option<bool>),
    /// To `IsLink`; nothing where it could not be found out.
    Link(Option<bool>),
    /// To `WriteNew`.
    Restored(Restoring<T>),
}

/// What a command is told, as mathematical values.
pub type ReplyView = Reply<Seq<char>, Seq<u8>, Seq<Entry<Seq<char>>>>;

impl View for Reply<String, Vec<u8>, Vec<Entry<String>>> {
    type V = ReplyView;

    open spec fn view(&self) -> ReplyView {
        match self {
            Reply::Flag(r) => Reply::Flag(failure::outcome_of(*r)),
            Reply::Ended(r) => Reply::Ended(failure::outcome_of(*r)),
            Reply::Vault(r) => Reply::Vault(vault_view(*r)),
            Reply::Created(r) => Reply::Created(created_view(*r)),
            Reply::Document(r) => Reply::Document(document_view(*r)),
            Reply::Prot(reading) => Reply::Prot(reading@),
            Reply::Matches(r) => Reply::Matches(matches_view(*r)),
            Reply::Content(r) => Reply::Content(content_view(*r)),
            Reply::Removed(r) => Reply::Removed(removed_view(*r)),
            Reply::Presence(there) => Reply::Presence(*there),
            Reply::Link(link) => Reply::Link(*link),
            Reply::Restored(outcome) => Reply::Restored(outcome@),
        }
    }
}

} // verus!
