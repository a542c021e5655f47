//! What can go wrong, and how it is told.

use vstd::prelude::*;

verus! {

/// A failure of the `op` program, with what it printed on standard error.
#[verifier::ext_equal]
#[derive(Debug)]
pub struct OpFailure<T = String> {
    pub stderr: T,
}

/// Every failure of a command. `T` is `String` at run time and `Seq<char>` in
/// contracts.
#[verifier::ext_equal]
#[derive(Debug)]
pub enum Failure<T> {
    /// Nobody is signed in, and the user did not ask to sign in.
    NotSignedIn,
    /// `op signin` ended well, yet the session is not usable.
    StillNotSignedIn,
    /// The recorded vault bears another name than `.prot`.
    WrongVault { id: T, name: T },
    /// The recorded vault does not exist.
    VaultGone { id: T },
    /// There is no vault named `.prot` to restore from.
    VaultMissing,
    /// No file on disk matches the patterns.
    NothingMatches { patterns: T },
    /// The document read back differs from what was uploaded.
    VerificationFailed { file: T },
    /// The file changed between its upload and its deletion.
    ChangedOnDisk { file: T },
    /// The file could not be read again before its deletion.
    Reread { file: T, cause: T },
    /// There is no `.prot` file to unlock from.
    NoProt { dir: T },
    /// `.prot` records no documents.
    NothingLocked,
    /// A recorded path could leave the working directory.
    RefusedPath { file: T },
    /// Some recorded files are on disk and others are not.
    MixedState { present: T, missing: T },
    /// Something stands where a file is to be restored.
    RestoreRefused { path: T, cause: T },
    /// A directory on the way to a file that is to be restored is a link, or
    /// could not be looked at.
    LinkedDirectory { path: T, dir: T },
    /// `.prot` could not be read.
    ReadFailed { path: T, cause: T },
    /// `.prot` is a symbolic link.
    Symlinked { path: T },
    /// `.prot` is write-protected.
    ReadOnly { path: T },
    /// The temporary file next to `.prot` could not be created.
    TempFailed { path: T, cause: T },
    /// `.prot` could not be written or moved into place.
    WriteFailed { path: T, cause: T },
    /// The permissions of `.prot` could not be carried over.
    ModeFailed { path: T, cause: T },
    /// The new `.prot` could not be flushed to disk.
    FlushFailed { path: T, cause: T },
    /// The directory of a backup could not be created.
    BackupDir { path: T, cause: T },
    /// The `op` program is not installed.
    OpMissing,
    /// The `op` program could not be started.
    OpNotRun { reason: T },
    /// `op signin` could not be started.
    SigninNotRun { reason: T },
    /// `op signin` ended with a failure.
    SigninIncomplete,
    /// `op` ended with a failure of its own.
    Op(OpFailure<T>),
    /// What `op` printed is not the JSON that was expected.
    BadJson { text: T, cause: T },
    /// What `op` printed holds neither an id nor a uuid.
    NoId { text: T },
    /// What `op` printed of a vault holds no name.
    NoName { id: T },
    /// The directory for a document on its way to `op` could not be created.
    StageDir { cause: T },
    /// The file for a document on its way to `op` could not be opened.
    StageOpen { cause: T },
    /// A document on its way to `op` could not be written.
    StageWrite { cause: T },
    /// An error of the operating system or of a pattern, told as it came.
    Outside { message: T },
    /// A reply does not answer the request that is pending.
    UnexpectedReply,
}

/// A failure as commands return it.
pub type Error = Failure<String>;

impl View for Failure<String> {
    type V = Failure<Seq<char>>;

    open spec fn view(&self) -> Failure<Seq<char>> {
        match self {
            Failure::NotSignedIn => Failure::NotSignedIn,
            Failure::StillNotSignedIn => Failure::StillNotSignedIn,
            Failure::WrongVault { id, name } => Failure::WrongVault { id: id@, name: name@ },
            Failure::VaultGone { id } => Failure::VaultGone { id: id@ },
            Failure::VaultMissing => Failure::VaultMissing,
            Failure::NothingMatches { patterns } => Failure::NothingMatches { patterns: patterns@ },
            Failure::VerificationFailed { file } => Failure::VerificationFailed { file: file@ },
            Failure::ChangedOnDisk { file } => Failure::ChangedOnDisk { file: file@ },
            Failure::Reread { file, cause } => Failure::Reread { file: file@, cause: cause@ },
            Failure::NoProt { dir } => Failure::NoProt { dir: dir@ },
            Failure::NothingLocked => Failure::NothingLocked,
            Failure::RefusedPath { file } => Failure::RefusedPath { file: file@ },
            Failure::MixedState { present, missing } => Failure::MixedState { present: present@, missing: missing@ },
            Failure::RestoreRefused { path, cause } => Failure::RestoreRefused { path: path@, cause: cause@ },
            Failure::LinkedDirectory { path, dir } => Failure::LinkedDirectory { path: path@, dir: dir@ },
            Failure::ReadFailed { path, cause } => Failure::ReadFailed { path: path@, cause: cause@ },
            Failure::Symlinked { path } => Failure::Symlinked { path: path@ },
            Failure::ReadOnly { path } => Failure::ReadOnly { path: path@ },
            Failure::TempFailed { path, cause } => Failure::TempFailed { path: path@, cause: cause@ },
            Failure::WriteFailed { path, cause } => Failure::WriteFailed { path: path@, cause: cause@ },
            Failure::ModeFailed { path, cause } => Failure::ModeFailed { path: path@, cause: cause@ },
            Failure::FlushFailed { path, cause } => Failure::FlushFailed { path: path@, cause: cause@ },
            Failure::BackupDir { path, cause } => Failure::BackupDir { path: path@, cause: cause@ },
            Failure::OpMissing => Failure::OpMissing,
            Failure::OpNotRun { reason } => Failure::OpNotRun { reason: reason@ },
            Failure::SigninNotRun { reason } => Failure::SigninNotRun { reason: reason@ },
            Failure::SigninIncomplete => Failure::SigninIncomplete,
            Failure::Op(f) => Failure::Op(OpFailure { stderr: f.stderr@ }),
            Failure::BadJson { text, cause } => Failure::BadJson { text: text@, cause: cause@ },
            Failure::NoId { text } => Failure::NoId { text: text@ },
            Failure::NoName { id } => Failure::NoName { id: id@ },
            Failure::StageDir { cause } => Failure::StageDir { cause: cause@ },
            Failure::StageOpen { cause } => Failure::StageOpen { cause: cause@ },
            Failure::StageWrite { cause } => Failure::StageWrite { cause: cause@ },
            Failure::Outside { message } => Failure::Outside { message: message@ },
            Failure::UnexpectedReply => Failure::UnexpectedReply,
        }
    }
}

/// The message that tells a failure.
pub open spec fn message_of(failure: Failure<Seq<char>>) -> Seq<char> {
    match failure {
        Failure::NotSignedIn => "You are not signed in to 1Password. Run `op signin` first."@,
        Failure::StillNotSignedIn => "Still not signed in to 1Password after `op signin`. Aborting."@,
        Failure::WrongVault { id, name } => "The vault recorded in .prot ("@ + id + ") is named \""@ + name + "\", not \".prot\". Refusing to touch it. If that vault was renamed, rename it back; if the ID is stale, remove the `vault:` line from .prot and rerun."@,
        Failure::VaultGone { id } => "The vault recorded in .prot ("@ + id + ") was not found in your 1Password account. If it was deleted, remove the `vault:` line from .prot and rerun."@,
        Failure::VaultMissing => "No \".prot\" vault found in your 1Password account, but .prot has documents recorded. Nothing to restore from."@,
        Failure::NothingMatches { patterns } => "No files match the patterns in .prot ("@ + patterns + ").\nEither the files are already locked, or no matching files exist."@,
        Failure::VerificationFailed { file } => "Verification failed for "@ + file + ": the copy in 1Password does not match the file on disk. Left "@ + file + " in place; nothing deleted."@,
        Failure::ChangedOnDisk { file } => file + " changed on disk while it was being uploaded, so the copy in 1Password is already stale. Left "@ + file + " in place — run `dotprot lock` again to store the new contents."@,
        Failure::Reread { file, .. } => "re-reading "@ + file + " before delete"@,
        Failure::NoProt { dir } => "No .prot found in "@ + dir + ". Nothing to unlock."@,
        Failure::NothingLocked => ".prot has no locked documents recorded. Nothing to unlock."@,
        Failure::RefusedPath { file } => "Refusing to restore \""@ + file + "\": .prot entries must be plain relative paths inside this directory (no absolute or rooted paths, no `..`)."@,
        Failure::MixedState { present, missing } => "Mixed state: some recorded files are present on disk and others are missing, so it's unclear whether you mean to lock or unlock.\n  present: "@ + present + "\n  missing: "@ + missing + "\nUse `dotprot lock` or `dotprot unlock` explicitly to resolve the ambiguity."@,
        Failure::RestoreRefused { path, .. } => "refusing to write "@ + path + " — something already exists at that path (possibly a symlink); remove it and run `dotprot unlock` again"@,
        Failure::LinkedDirectory { path, dir } => "refusing to write "@ + path + " — "@ + dir + " on the way to it is not a plain directory (possibly a symlink); remove it and run `dotprot unlock` again"@,
        Failure::ReadFailed { path, .. } => "reading "@ + path,
        Failure::Symlinked { path } => path + " is a symlink; dotprot writes it atomically by rename and will not follow or replace the link. Make it a regular file and rerun."@,
        Failure::ReadOnly { path } => path + " is read-only; refusing to rewrite it. Restore write permission and rerun."@,
        Failure::TempFailed { path, .. } => "creating temp file for "@ + path,
        Failure::WriteFailed { path, .. } => "writing "@ + path,
        Failure::ModeFailed { path, .. } => "setting permissions on "@ + path,
        Failure::FlushFailed { path, .. } => "flushing "@ + path,
        Failure::BackupDir { path, .. } => "creating backup directory "@ + path,
        Failure::OpMissing => "The 1Password CLI (`op`) was not found on your PATH.\nInstall it: https://developer.1password.com/docs/cli/get-started/"@,
        Failure::OpNotRun { reason } => "failed to run op: "@ + reason,
        Failure::SigninNotRun { reason } => "failed to run op signin: "@ + reason,
        Failure::SigninIncomplete => "`op signin` did not complete successfully. Not signed in."@,
        Failure::Op(f) => f.stderr,
        Failure::BadJson { text, .. } => "could not parse op JSON response: "@ + text,
        Failure::NoId { text } => "could not find an id/uuid in op's response: "@ + text,
        Failure::NoName { id } => "op's response for vault "@ + id + " did not include a name"@,
        Failure::StageDir { .. } => "creating temp dir for op document"@,
        Failure::StageOpen { .. } => "opening temp file"@,
        Failure::StageWrite { .. } => "writing secret to temp file"@,
        Failure::Outside { message } => message,
        Failure::UnexpectedReply => "internal error: the reply does not answer the pending request"@,
    }
}

/// What lies beneath a failure, where its message is only the context.
pub open spec fn cause_of(failure: Failure<Seq<char>>) -> Option<Seq<char>> {
    match failure {
        Failure::Reread { cause, .. } => Some(cause),
        Failure::RestoreRefused { cause, .. } => Some(cause),
        Failure::ReadFailed { cause, .. } => Some(cause),
        Failure::TempFailed { cause, .. } => Some(cause),
        Failure::WriteFailed { cause, .. } => Some(cause),
        Failure::ModeFailed { cause, .. } => Some(cause),
        Failure::FlushFailed { cause, .. } => Some(cause),
        Failure::BackupDir { cause, .. } => Some(cause),
        Failure::BadJson { cause, .. } => Some(cause),
        Failure::StageDir { cause } => Some(cause),
        Failure::StageOpen { cause } => Some(cause),
        Failure::StageWrite { cause } => Some(cause),
        _ => None,
    }
}

impl Failure<String> {
    /// The message that tells this failure.
    pub fn message(&self) -> (r: String)
        ensures
            r@ == message_of(self@),
    {
        match self {
            Failure::NotSignedIn => "You are not signed in to 1Password. Run `op signin` first.".to_owned(),
            Failure::StillNotSignedIn => "Still not signed in to 1Password after `op signin`. Aborting.".to_owned(),
            Failure::WrongVault { id, name } => "The vault recorded in .prot (".to_owned().concat(id.as_str()).concat(") is named \"").concat(name.as_str()).concat("\", not \".prot\". Refusing to touch it. If that vault was renamed, rename it back; if the ID is stale, remove the `vault:` line from .prot and rerun."),
            Failure::VaultGone { id } => "The vault recorded in .prot (".to_owned().concat(id.as_str()).concat(") was not found in your 1Password account. If it was deleted, remove the `vault:` line from .prot and rerun."),
            Failure::VaultMissing => "No \".prot\" vault found in your 1Password account, but .prot has documents recorded. Nothing to restore from.".to_owned(),
            Failure::NothingMatches { patterns } => "No files match the patterns in .prot (".to_owned().concat(patterns.as_str()).concat(").\nEither the files are already locked, or no matching files exist."),
            Failure::VerificationFailed { file } => "Verification failed for ".to_owned().concat(file.as_str()).concat(": the copy in 1Password does not match the file on disk. Left ").concat(file.as_str()).concat(" in place; nothing deleted."),
            Failure::ChangedOnDisk { file } => file.clone().concat(" changed on disk while it was being uploaded, so the copy in 1Password is already stale. Left ").concat(file.as_str()).concat(" in place — run `dotprot lock` again to store the new contents."),
            Failure::Reread { file, .. } => "re-reading ".to_owned().concat(file.as_str()).concat(" before delete"),
            Failure::NoProt { dir } => "No .prot found in ".to_owned().concat(dir.as_str()).concat(". Nothing to unlock."),
            Failure::NothingLocked => ".prot has no locked documents recorded. Nothing to unlock.".to_owned(),
            Failure::RefusedPath { file } => "Refusing to restore \"".to_owned().concat(file.as_str()).concat("\": .prot entries must be plain relative paths inside this directory (no absolute or rooted paths, no `..`)."),
            Failure::MixedState { present, missing } => "Mixed state: some recorded files are present on disk and others are missing, so it's unclear whether you mean to lock or unlock.\n  present: ".to_owned().concat(present.as_str()).concat("\n  missing: ").concat(missing.as_str()).concat("\nUse `dotprot lock` or `dotprot unlock` explicitly to resolve the ambiguity."),
            Failure::RestoreRefused { path, .. } => "refusing to write ".to_owned().concat(path.as_str()).concat(" — something already exists at that path (possibly a symlink); remove it and run `dotprot unlock` again"),
            Failure::LinkedDirectory { path, dir } => "refusing to write ".to_owned().concat(path.as_str()).concat(" — ").concat(dir.as_str()).concat(" on the way to it is not a plain directory (possibly a symlink); remove it and run `dotprot unlock` again"),
            Failure::ReadFailed { path, .. } => "reading ".to_owned().concat(path.as_str()),
            Failure::Symlinked { path } => path.clone().concat(" is a symlink; dotprot writes it atomically by rename and will not follow or replace the link. Make it a regular file and rerun."),
            Failure::ReadOnly { path } => path.clone().concat(" is read-only; refusing to rewrite it. Restore write permission and rerun."),
            Failure::TempFailed { path, .. } => "creating temp file for ".to_owned().concat(path.as_str()),
            Failure::WriteFailed { path, .. } => "writing ".to_owned().concat(path.as_str()),
            Failure::ModeFailed { path, .. } => "setting permissions on ".to_owned().concat(path.as_str()),
            Failure::FlushFailed { path, .. } => "flushing ".to_owned().concat(path.as_str()),
            Failure::BackupDir { path, .. } => "creating backup directory ".to_owned().concat(path.as_str()),
            Failure::OpMissing => "The 1Password CLI (`op`) was not found on your PATH.\nInstall it: https://developer.1password.com/docs/cli/get-started/".to_owned(),
            Failure::OpNotRun { reason } => "failed to run op: ".to_owned().concat(reason.as_str()),
            Failure::SigninNotRun { reason } => "failed to run op signin: ".to_owned().concat(reason.as_str()),
            Failure::SigninIncomplete => "`op signin` did not complete successfully. Not signed in.".to_owned(),
            Failure::Op(f) => f.stderr.clone(),
            Failure::BadJson { text, .. } => "could not parse op JSON response: ".to_owned().concat(text.as_str()),
            Failure::NoId { text } => "could not find an id/uuid in op's response: ".to_owned().concat(text.as_str()),
            Failure::NoName { id } => "op's response for vault ".to_owned().concat(id.as_str()).concat(" did not include a name"),
            Failure::StageDir { .. } => "creating temp dir for op document".to_owned(),
            Failure::StageOpen { .. } => "opening temp file".to_owned(),
            Failure::StageWrite { .. } => "writing secret to temp file".to_owned(),
            Failure::Outside { message } => message.clone(),
            Failure::UnexpectedReply => "internal error: the reply does not answer the pending request".to_owned(),
        }
    }

    /// What lies beneath this failure, where its message is only the context.
    pub fn cause(&self) -> (r: Option<String>)
        ensures
            match r {
                Some(text) => cause_of(self@) == Some(text@),
                None => cause_of(self@) is None,
            },
    {
        match self {
            Failure::Reread { cause, .. } => Some(cause.clone()),
            Failure::RestoreRefused { cause, .. } => Some(cause.clone()),
            Failure::ReadFailed { cause, .. } => Some(cause.clone()),
            Failure::TempFailed { cause, .. } => Some(cause.clone()),
            Failure::WriteFailed { cause, .. } => Some(cause.clone()),
            Failure::ModeFailed { cause, .. } => Some(cause.clone()),
            Failure::FlushFailed { cause, .. } => Some(cause.clone()),
            Failure::BackupDir { cause, .. } => Some(cause.clone()),
            Failure::BadJson { cause, .. } => Some(cause.clone()),
            Failure::StageDir { cause } => Some(cause.clone()),
            Failure::StageOpen { cause } => Some(cause.clone()),
            Failure::StageWrite { cause } => Some(cause.clone()),
            _ => None,
        }
    }
}

/// The views of what an operation gave.
pub open spec fn outcome_of<A>(r: Result<A, Error>) -> Result<A, Failure<Seq<char>>> {
    match r {
        Ok(a) => Ok(a),
        Err(e) => Err(e@),
    }
}

} // verus!
