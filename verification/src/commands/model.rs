//! What a command does, as a mathematical machine: in each phase it asks for
//! one thing, and the reply decides on the next phase and on what is told the
//! user meanwhile.

use super::OWNER_ONLY;
use super::SIGN_IN_QUESTION;
use super::VAULT_DESCRIPTION;
use super::VAULT_NAME;
use crate::backup;
use crate::exchange::Entry;
use crate::exchange::Line;
use crate::exchange::Reply;
use crate::exchange::ReplyView;
use crate::exchange::Request;
use crate::exchange::RequestView;
use crate::exchange::Restoring;
use crate::expand;
use crate::failure::Failure;
use crate::failure;
use crate::paths;
use crate::paths::PlaceView;
use crate::paths::Style;
use crate::prot;
use crate::prot::ProtView;
use crate::text;
use vstd::prelude::*;

verus! {

/// What a run is to do once someone is signed in.
#[derive(Debug, Clone, Copy, PartialEq, Eq, Structural)]
pub enum Command {
    /// Create the vault.
    Setup,
    /// Store the files and delete them.
    Lock,
    /// Restore the files.
    Unlock,
}

/// The way files go.
#[derive(Debug, Clone, Copy, PartialEq, Eq, Structural)]
pub enum Way {
    /// Into the vault.
    Lock,
    /// Back to disk.
    Unlock,
}

/// How far signing in has come.
#[derive(Debug, Clone, Copy, PartialEq, Eq, Structural)]
pub enum SignIn {
    /// Is anyone signed in?
    Check,
    /// Does the user want to sign in?
    Ask,
    /// The user is signing in.
    Enter,
    /// Is the session usable now?
    Recheck,
}

/// Files on their way into the vault, the one at hand first.
#[verifier::ext_equal]
pub struct BatchView {
    pub prot: ProtView,
    pub vault: Seq<char>,
    pub files: Seq<Seq<char>>,
    pub locked: nat,
}

/// Documents on their way back to disk, the one at hand first.
#[verifier::ext_equal]
pub struct RecoveryView {
    pub vault: Seq<char>,
    pub documents: Seq<(Seq<char>, Seq<char>)>,
    pub unlocked: nat,
}

/// Where a run stands.
#[verifier::ext_equal]
pub enum PhaseView {
    /// Reading `.prot` to tell whether to lock or to unlock.
    Inspect,
    /// Finding out which of the recorded files are on disk.
    Survey {
        unseen: Seq<(Seq<char>, Seq<char>)>,
        present: Seq<Seq<char>>,
        missing: Seq<Seq<char>>,
    },
    /// Making sure that someone is signed in.
    SigningIn { stage: SignIn, command: Command },
    /// Looking for the vault that is to be set up.
    FindToSetUp,
    /// Creating the vault that is to be set up.
    CreateToSetUp,
    /// Reading `.prot` to lock.
    ReadToLock,
    /// Writing the first `.prot`.
    WriteFresh { prot: ProtView },
    /// Backing up the first `.prot`.
    SaveFresh { prot: ProtView },
    /// Confirming that the recorded vault is the right one.
    ConfirmVault { way: Way, prot: ProtView, id: Seq<char> },
    /// Looking for the vault.
    FindVault { way: Way, prot: ProtView },
    /// Creating the vault.
    CreateVault { prot: ProtView },
    /// Looking for the files of a pattern.
    Expand { prot: ProtView, vault: Seq<char>, left: Seq<Seq<char>>, found: Seq<Seq<char>> },
    /// Reading the file at hand.
    ReadFile { batch: BatchView },
    /// Storing it.
    Upload { batch: BatchView, content: Seq<u8> },
    /// Reading the document back.
    Verify { batch: BatchView, content: Seq<u8>, id: Seq<char> },
    /// Recording the document in `.prot`.
    Record { batch: BatchView, content: Seq<u8> },
    /// Backing up `.prot`.
    Save { batch: BatchView, content: Seq<u8> },
    /// Reading the file again.
    Reread { batch: BatchView, content: Seq<u8> },
    /// Deleting the file.
    Remove { batch: BatchView },
    /// Reading `.prot` to unlock.
    ReadToUnlock,
    /// Finding out whether the file at hand is on disk.
    Probe { recovery: RecoveryView },
    /// Fetching its document.
    Fetch { recovery: RecoveryView },
    /// Finding out whether a directory on the way to its file is a link.
    Guard { recovery: RecoveryView, content: Seq<u8>, dirs: Seq<Seq<char>> },
    /// Writing it.
    Restore { recovery: RecoveryView, content: Seq<u8> },
    /// Nothing is left to do.
    Finished { outcome: Result<(), Failure<Seq<char>>> },
}

/// A run of a command.
#[verifier::ext_equal]
pub struct RunView {
    pub place: PlaceView,
    pub keep: bool,
    pub phase: PhaseView,
}

/// What a reply leads to: the next phase and what the user is told.
pub type Move = (PhaseView, Seq<Line<Seq<char>>>);

/// The run ends with a failure.
pub open spec fn failing(e: Failure<Seq<char>>) -> Move {
    (PhaseView::Finished { outcome: Err(e) }, seq![])
}

/// The run goes on without a word.
pub open spec fn quietly(phase: PhaseView) -> Move {
    (phase, seq![])
}

/// Something is told first.
pub open spec fn after_saying(lines: Seq<Line<Seq<char>>>, next: Move) -> Move {
    (next.0, lines + next.1)
}

/// A line to standard output.
pub open spec fn say(t: Seq<char>) -> Seq<Line<Seq<char>>> {
    seq![Line::Out(t)]
}

// ---------------------------------------------------------------------------
// signing in
// ---------------------------------------------------------------------------
/// What is asked for while signing in.
pub open spec fn sign_in_request(stage: SignIn) -> RequestView {
    match stage {
        SignIn::Check => Request::IsSignedIn,
        SignIn::Ask => Request::Confirm { question: SIGN_IN_QUESTION@ },
        SignIn::Enter => Request::SignIn,
        SignIn::Recheck => Request::IsSignedIn,
    }
}

/// What signing in has come to.
#[verifier::ext_equal]
#[derive(Debug)]
pub enum Progress<F> {
    /// It goes on.
    More { stage: SignIn },
    /// It is over.
    Over { outcome: Result<(), F> },
}

/// What a reply makes of signing in: nobody is asked who is signed in already,
/// nobody signs in who did not say yes, and the session is checked afterwards.
pub open spec fn sign_in_step(stage: SignIn, reply: ReplyView) -> Progress<Failure<Seq<char>>> {
    match (stage, reply) {
        (SignIn::Check, Reply::Flag(Ok(true))) => Progress::Over { outcome: Ok(()) },
        (SignIn::Check, Reply::Flag(Ok(false))) => Progress::More { stage: SignIn::Ask },
        (SignIn::Ask, Reply::Flag(Ok(true))) => Progress::More { stage: SignIn::Enter },
        (SignIn::Ask, Reply::Flag(Ok(false))) => Progress::Over {
            outcome: Err(Failure::NotSignedIn),
        },
        (SignIn::Enter, Reply::Ended(Ok(_))) => Progress::More { stage: SignIn::Recheck },
        (SignIn::Enter, Reply::Ended(Err(e))) => Progress::Over { outcome: Err(e) },
        (SignIn::Recheck, Reply::Flag(Ok(true))) => Progress::Over { outcome: Ok(()) },
        (SignIn::Recheck, Reply::Flag(Ok(false))) => Progress::Over {
            outcome: Err(Failure::StillNotSignedIn),
        },
        (SignIn::Enter, _) => Progress::Over { outcome: Err(Failure::UnexpectedReply) },
        (_, Reply::Flag(Err(e))) => Progress::Over { outcome: Err(e) },
        (_, _) => Progress::Over { outcome: Err(Failure::UnexpectedReply) },
    }
}

/// What comes once someone is signed in.
pub open spec fn once_signed_in(command: Command) -> PhaseView {
    match command {
        Command::Setup => PhaseView::FindToSetUp,
        Command::Lock => PhaseView::ReadToLock,
        Command::Unlock => PhaseView::ReadToUnlock,
    }
}

/// How a command begins.
pub open spec fn beginning(command: Command) -> PhaseView {
    PhaseView::SigningIn { stage: SignIn::Check, command }
}

// ---------------------------------------------------------------------------
// the vault
// ---------------------------------------------------------------------------
/// The vault is to be settled: a recorded one is confirmed, else it is looked
/// for by name.
pub open spec fn resolving(way: Way, prot: ProtView) -> PhaseView {
    match prot.vault {
        Some(id) => PhaseView::ConfirmVault { way, prot, id },
        None => PhaseView::FindVault { way, prot },
    }
}

/// The vault is settled.
pub open spec fn with_vault(
    keep: bool,
    way: Way,
    prot: ProtView,
    vault: Seq<char>,
) -> Move {
    match way {
        Way::Lock => expanding(keep, prot, vault, prot.patterns, seq![]),
        Way::Unlock => recovering(
            RecoveryView { vault, documents: prot.documents, unlocked: 0 },
        ),
    }
}

/// `.prot` with the vault recorded.
pub open spec fn naming_vault(prot: ProtView, id: Seq<char>) -> ProtView {
    ProtView { vault: Some(id), ..prot }
}

/// What the recorded vault turns out to be.
pub open spec fn vault_confirmed(
    keep: bool,
    way: Way,
    prot: ProtView,
    id: Seq<char>,
    reply: Result<Option<Seq<char>>, Failure<Seq<char>>>,
) -> Move {
    match reply {
        Ok(Some(name)) => if name == VAULT_NAME@ {
            with_vault(keep, way, prot, id)
        } else {
            failing(Failure::WrongVault { id, name })
        },
        Ok(None) => failing(Failure::VaultGone { id }),
        Err(e) => failing(e),
    }
}

/// What looking for the vault gave. Only locking creates one that is missing.
pub open spec fn vault_sought(
    keep: bool,
    way: Way,
    prot: ProtView,
    reply: Result<Option<Seq<char>>, Failure<Seq<char>>>,
) -> Move {
    match reply {
        Ok(Some(id)) => with_vault(keep, way, naming_vault(prot, id), id),
        Ok(None) => match way {
            Way::Lock => quietly(PhaseView::CreateVault { prot }),
            Way::Unlock => failing(Failure::VaultMissing),
        },
        Err(e) => failing(e),
    }
}

/// What creating the vault gave.
pub open spec fn vault_created(
    keep: bool,
    prot: ProtView,
    reply: Result<Seq<char>, Failure<Seq<char>>>,
) -> Move {
    match reply {
        Ok(id) => after_saying(
            seq![
                Line::Out("Created 1Password vault \".prot\" ("@ + id + ")."@),
                Line::Out("(one-time setup — future runs reuse it)"@),
            ],
            with_vault(keep, Way::Lock, naming_vault(prot, id), id),
        ),
        Err(e) => failing(e),
    }
}

// ---------------------------------------------------------------------------
// setting up
// ---------------------------------------------------------------------------
/// What looking for the vault that is to be set up gave.
pub open spec fn setup_sought(reply: Result<Option<Seq<char>>, Failure<Seq<char>>>) -> Move {
    match reply {
        Ok(Some(id)) => (
            PhaseView::Finished { outcome: Ok(()) },
            say("Vault \".prot\" already exists ("@ + id + ")."@),
        ),
        Ok(None) => quietly(PhaseView::CreateToSetUp),
        Err(e) => failing(e),
    }
}

/// What creating the vault that is to be set up gave.
pub open spec fn setup_created(reply: Result<Seq<char>, Failure<Seq<char>>>) -> Move {
    match reply {
        Ok(id) => (
            PhaseView::Finished { outcome: Ok(()) },
            say("Created vault \".prot\" ("@ + id + ")."@),
        ),
        Err(e) => failing(e),
    }
}

// ---------------------------------------------------------------------------
// locking
// ---------------------------------------------------------------------------
/// What reading `.prot` to lock gave. Where there is none, one is created.
pub open spec fn read_to_lock(
    reading: Result<Option<ProtView>, Failure<Seq<char>>>,
) -> Move {
    match reading {
        Ok(Some(prot)) => quietly(resolving(Way::Lock, prot)),
        Ok(None) => quietly(PhaseView::WriteFresh { prot: prot::fresh() }),
        Err(e) => failing(e),
    }
}

/// What writing the first `.prot` gave.
pub open spec fn fresh_written(
    place: PlaceView,
    prot: ProtView,
    reply: Result<(), Failure<Seq<char>>>,
) -> Move {
    match reply {
        Ok(_) => (
            if place.home is Some {
                PhaseView::SaveFresh { prot }
            } else {
                resolving(Way::Lock, prot)
            },
            say("Created .prot (protecting: "@ + text::joined(prot.patterns, ", "@) + ")."@),
        ),
        Err(e) => failing(e),
    }
}

/// What is told of a backup: nothing where it was made. One that was not is no
/// reason to stop.
pub open spec fn backup_notice(
    reply: Result<(), Failure<Seq<char>>>,
) -> Seq<Line<Seq<char>>> {
    match reply {
        Ok(_) => seq![],
        Err(e) => seq![
            Line::Warn("  warning: could not back up .prot: "@ + failure::message_of(e)),
        ],
    }
}

/// The patterns that are left are to be expanded; then the files found are
/// locked, of which there must be some.
pub open spec fn expanding(
    keep: bool,
    prot: ProtView,
    vault: Seq<char>,
    left: Seq<Seq<char>>,
    found: Seq<Seq<char>>,
) -> Move {
    if left.len() > 0 {
        quietly(PhaseView::Expand { prot, vault, left, found })
    } else if found.len() == 0 {
        failing(Failure::NothingMatches { patterns: text::joined(prot.patterns, ", "@) })
    } else {
        locking(keep, BatchView { prot, vault, files: found, locked: 0 })
    }
}

/// What looking for the files of a pattern gave.
pub open spec fn pattern_expanded(
    place: PlaceView,
    keep: bool,
    prot: ProtView,
    vault: Seq<char>,
    left: Seq<Seq<char>>,
    found: Seq<Seq<char>>,
    reply: Result<Seq<Entry<Seq<char>>>, Seq<char>>,
) -> Move {
    match reply {
        Ok(entries) => {
            let taken = expand::with_entries(place.cwd, place.style, found, entries);
            after_saying(taken.1, expanding(keep, prot, vault, left.skip(1), taken.0))
        },
        Err(message) => failing(Failure::Outside { message }),
    }
}

/// What is told when all files are dealt with.
pub open spec fn lock_summary(keep: bool, locked: nat) -> Seq<char> {
    if keep {
        "Uploaded "@ + text::decimal(locked)
            + " file(s) to vault \".prot\". Originals kept on disk (--keep); run `dotprot lock` to remove them."@
    } else {
        "Locked "@ + text::decimal(locked) + " file(s) into vault \".prot\"."@
    }
}

/// The files that are left are to be locked.
pub open spec fn locking(keep: bool, batch: BatchView) -> Move {
    if batch.files.len() > 0 {
        quietly(PhaseView::ReadFile { batch })
    } else {
        (PhaseView::Finished { outcome: Ok(()) }, say(lock_summary(keep, batch.locked)))
    }
}

/// The file at hand is passed over.
pub open spec fn without_file(batch: BatchView) -> BatchView {
    BatchView { files: batch.files.skip(1), ..batch }
}

/// The file at hand is dealt with.
pub open spec fn file_done(batch: BatchView) -> BatchView {
    BatchView { files: batch.files.skip(1), locked: batch.locked + 1, ..batch }
}

/// What reading the file at hand gave. An empty file cannot be stored.
pub open spec fn file_read(keep: bool, batch: BatchView, reply: Result<Seq<u8>, Seq<char>>) -> Move {
    match reply {
        Ok(content) => if content.len() == 0 {
            after_saying(
                say("  skip "@ + batch.files[0] + " (empty file — nothing to protect)"@),
                locking(keep, without_file(batch)),
            )
        } else {
            quietly(PhaseView::Upload { batch, content })
        },
        Err(message) => failing(Failure::Outside { message }),
    }
}

/// The document that is recorded for the file at hand.
pub open spec fn existing(batch: BatchView) -> Option<Seq<char>> {
    prot::recorded_id(batch.prot.documents, batch.files[0])
}

/// The file at hand is stored: in its recorded document, else in a new one.
pub open spec fn upload_request(
    place: PlaceView,
    batch: BatchView,
    content: Seq<u8>,
) -> RequestView {
    let title = paths::taken_from(place, batch.files[0]);
    let file_name = paths::name_of(place.style, batch.files[0]);
    match existing(batch) {
        Some(id) => Request::EditDocument { vault: batch.vault, id, title, file_name, content },
        None => Request::CreateDocument { vault: batch.vault, title, file_name, content },
    }
}

/// What storing the file at hand gave.
pub open spec fn uploaded(batch: BatchView, content: Seq<u8>, reply: ReplyView) -> Move {
    match (existing(batch), reply) {
        (Some(id), Reply::Ended(Ok(_))) => quietly(PhaseView::Verify { batch, content, id }),
        (Some(_), Reply::Ended(Err(e))) => failing(e),
        (None, Reply::Created(Ok(id))) => quietly(PhaseView::Verify { batch, content, id }),
        (None, Reply::Created(Err(e))) => failing(e),
        (_, _) => failing(Failure::UnexpectedReply),
    }
}

/// `.prot` with a document recorded for the file at hand.
pub open spec fn recording(batch: BatchView, id: Seq<char>) -> BatchView {
    BatchView {
        prot: ProtView {
            documents: prot::with_document(batch.prot.documents, batch.files[0], id),
            ..batch.prot
        },
        ..batch
    }
}

/// What reading the document back gave. It must be what was stored, byte for
/// byte.
pub open spec fn verified(
    batch: BatchView,
    content: Seq<u8>,
    id: Seq<char>,
    reply: Result<Seq<u8>, Failure<Seq<char>>>,
) -> Move {
    match reply {
        Ok(bytes) => if bytes == content {
            quietly(PhaseView::Record { batch: recording(batch, id), content })
        } else {
            failing(Failure::VerificationFailed { file: batch.files[0] })
        },
        Err(e) => failing(e),
    }
}

/// What recording the document gave.
pub open spec fn recorded(
    place: PlaceView,
    keep: bool,
    batch: BatchView,
    content: Seq<u8>,
    reply: Result<(), Failure<Seq<char>>>,
) -> Move {
    match reply {
        Ok(_) => if place.home is Some {
            quietly(PhaseView::Save { batch, content })
        } else {
            stored(keep, batch, content)
        },
        Err(e) => failing(e),
    }
}

/// The file at hand is stored and recorded: it is kept, or read again before it
/// is deleted.
pub open spec fn stored(keep: bool, batch: BatchView, content: Seq<u8>) -> Move {
    if keep {
        after_saying(
            say("  uploaded "@ + batch.files[0] + " -> 1Password (kept on disk)"@),
            locking(keep, file_done(batch)),
        )
    } else {
        quietly(PhaseView::Reread { batch, content })
    }
}

/// What reading the file again gave. It must still be what was stored.
pub open spec fn reread(
    batch: BatchView,
    content: Seq<u8>,
    reply: Result<Seq<u8>, Seq<char>>,
) -> Move {
    match reply {
        Ok(bytes) => if bytes == content {
            quietly(PhaseView::Remove { batch })
        } else {
            failing(Failure::ChangedOnDisk { file: batch.files[0] })
        },
        Err(cause) => failing(Failure::Reread { file: batch.files[0], cause }),
    }
}

/// What deleting the file gave.
pub open spec fn removed(keep: bool, batch: BatchView, reply: Result<(), Seq<char>>) -> Move {
    match reply {
        Ok(_) => after_saying(
            say("  locked "@ + batch.files[0] + " -> 1Password"@),
            locking(keep, file_done(batch)),
        ),
        Err(message) => failing(Failure::Outside { message }),
    }
}

// ---------------------------------------------------------------------------
// unlocking
// ---------------------------------------------------------------------------
/// The first recorded path that could leave the working directory.
pub open spec fn first_refused(
    style: Style,
    documents: Seq<(Seq<char>, Seq<char>)>,
) -> Option<Seq<char>>
    decreases documents.len(),
{
    if documents.len() == 0 {
        None
    } else if !paths::is_plain(style, documents[0].0) {
        Some(documents[0].0)
    } else {
        first_refused(style, documents.skip(1))
    }
}

/// What reading `.prot` to unlock gave. Every recorded path is looked at before
/// anything is restored.
pub open spec fn read_to_unlock(
    place: PlaceView,
    reading: Result<Option<ProtView>, Failure<Seq<char>>>,
) -> Move {
    match reading {
        Ok(Some(prot)) => if prot.documents.len() == 0 {
            failing(Failure::NothingLocked)
        } else {
            match first_refused(place.style, prot.documents) {
                Some(file) => failing(Failure::RefusedPath { file }),
                None => quietly(resolving(Way::Unlock, prot)),
            }
        },
        Ok(None) => failing(Failure::NoProt { dir: place.cwd }),
        Err(e) => failing(e),
    }
}

/// The documents that are left are to be restored.
pub open spec fn recovering(recovery: RecoveryView) -> Move {
    if recovery.documents.len() > 0 {
        quietly(PhaseView::Probe { recovery })
    } else {
        (
            PhaseView::Finished { outcome: Ok(()) },
            say(
                "Unlocked "@ + text::decimal(recovery.unlocked)
                    + " file(s) from vault \".prot\"."@,
            ),
        )
    }
}

/// Whether a file counts as being on disk. One of which it could not be found
/// out does.
pub open spec fn counts_as_present(there: Option<bool>) -> bool {
    match there {
        Some(b) => b,
        None => true,
    }
}

/// What finding out about the file at hand gave.
pub open spec fn probed(recovery: RecoveryView, there: Option<bool>) -> Move {
    if counts_as_present(there) {
        after_saying(
            say("  skip "@ + recovery.documents[0].0 + " (already present on disk)"@),
            recovering(RecoveryView { documents: recovery.documents.skip(1), ..recovery }),
        )
    } else {
        quietly(PhaseView::Fetch { recovery })
    }
}

/// What fetching the document gave.
pub open spec fn fetched(
    style: Style,
    recovery: RecoveryView,
    reply: Result<Seq<u8>, Failure<Seq<char>>>,
) -> Move {
    match reply {
        Ok(content) => quietly(
            guarding(
                recovery,
                content,
                paths::directories_to(style, recovery.documents[0].0),
            ),
        ),
        Err(e) => failing(e),
    }
}

/// The directories that are left on the way to the file are to be looked at;
/// then it is restored.
pub open spec fn guarding(
    recovery: RecoveryView,
    content: Seq<u8>,
    dirs: Seq<Seq<char>>,
) -> PhaseView {
    if dirs.len() > 0 {
        PhaseView::Guard { recovery, content, dirs }
    } else {
        PhaseView::Restore { recovery, content }
    }
}

/// What looking at a directory on the way gave. Nothing is restored through a
/// link, nor through what could not be looked at.
pub open spec fn guarded(
    place: PlaceView,
    recovery: RecoveryView,
    content: Seq<u8>,
    dirs: Seq<Seq<char>>,
    link: Option<bool>,
) -> Move {
    if link == Some(false) {
        quietly(guarding(recovery, content, dirs.skip(1)))
    } else {
        failing(
            Failure::LinkedDirectory {
                path: paths::taken_from(place, recovery.documents[0].0),
                dir: dirs[0],
            },
        )
    }
}

/// What restoring the file gave.
pub open spec fn restored(
    place: PlaceView,
    recovery: RecoveryView,
    reply: Restoring<Seq<char>>,
) -> Move {
    match reply {
        Restoring::Written => after_saying(
            say("  unlocked "@ + recovery.documents[0].0 + " <- 1Password"@),
            recovering(
                RecoveryView {
                    documents: recovery.documents.skip(1),
                    unlocked: recovery.unlocked + 1,
                    ..recovery
                },
            ),
        ),
        Restoring::Refused { cause } => failing(
            Failure::RestoreRefused {
                path: paths::taken_from(place, recovery.documents[0].0),
                cause,
            },
        ),
        Restoring::Failed { message } => failing(Failure::Outside { message }),
    }
}

// ---------------------------------------------------------------------------
// lock or unlock
// ---------------------------------------------------------------------------
/// What reading `.prot` to choose gave. Where nothing is recorded, files are
/// locked.
pub open spec fn inspected(
    style: Style,
    reading: Result<Option<ProtView>, Failure<Seq<char>>>,
) -> Move {
    match reading {
        Ok(Some(prot)) => if prot.documents.len() == 0 {
            quietly(beginning(Command::Lock))
        } else {
            match first_refused(style, prot.documents) {
                Some(file) => failing(Failure::RefusedPath { file }),
                None => quietly(
                    PhaseView::Survey { unseen: prot.documents, present: seq![], missing: seq![] },
                ),
            }
        },
        Ok(None) => quietly(beginning(Command::Lock)),
        Err(e) => failing(e),
    }
}

/// The choice: where every recorded file is on disk they are locked, where none
/// is they are unlocked, and otherwise it is left to the user.
pub open spec fn choice(present: Seq<Seq<char>>, missing: Seq<Seq<char>>) -> Move {
    if present.len() > 0 && missing.len() > 0 {
        failing(
            Failure::MixedState {
                present: text::joined(present, ", "@),
                missing: text::joined(missing, ", "@),
            },
        )
    } else if missing.len() > 0 {
        quietly(beginning(Command::Unlock))
    } else {
        quietly(beginning(Command::Lock))
    }
}

/// What finding out about a recorded file gave.
pub open spec fn surveyed(
    unseen: Seq<(Seq<char>, Seq<char>)>,
    present: Seq<Seq<char>>,
    missing: Seq<Seq<char>>,
    there: Option<bool>,
) -> Move {
    let (now_present, now_missing) = if counts_as_present(there) {
        (present.push(unseen[0].0), missing)
    } else {
        (present, missing.push(unseen[0].0))
    };
    if unseen.len() > 1 {
        quietly(
            PhaseView::Survey {
                unseen: unseen.skip(1),
                present: now_present,
                missing: now_missing,
            },
        )
    } else {
        choice(now_present, now_missing)
    }
}

// ---------------------------------------------------------------------------
// the machine
// ---------------------------------------------------------------------------
/// The backup of `.prot` that is to be made.
pub open spec fn backup_request(place: PlaceView, data: ProtView) -> RequestView {
    let home = place.home->0;
    Request::SaveBackup {
        dir: backup::backup_dir(place.style, home, place.components),
        file: backup::backup_path(place.style, home, place.components),
        data,
    }
}

/// What a run asks for in a phase; nothing once it is finished.
pub open spec fn request_in(place: PlaceView, phase: PhaseView) -> Option<RequestView> {
    match phase {
        PhaseView::Inspect => Some(Request::ReadProt),
        PhaseView::Survey { unseen, .. } => Some(Request::Exists { file: unseen[0].0 }),
        PhaseView::SigningIn { stage, .. } => Some(sign_in_request(stage)),
        PhaseView::FindToSetUp => Some(Request::FindVault { name: VAULT_NAME@ }),
        PhaseView::CreateToSetUp => Some(
            Request::CreateVault { name: VAULT_NAME@, description: VAULT_DESCRIPTION@ },
        ),
        PhaseView::ReadToLock => Some(Request::ReadProt),
        PhaseView::WriteFresh { prot } => Some(Request::WriteProt { data: prot }),
        PhaseView::SaveFresh { prot } => Some(backup_request(place, prot)),
        PhaseView::ConfirmVault { id, .. } => Some(Request::VaultName { id }),
        PhaseView::FindVault { .. } => Some(Request::FindVault { name: VAULT_NAME@ }),
        PhaseView::CreateVault { .. } => Some(
            Request::CreateVault { name: VAULT_NAME@, description: VAULT_DESCRIPTION@ },
        ),
        PhaseView::Expand { left, .. } => Some(
            Request::Glob { pattern: expand::search_for(place, left[0]) },
        ),
        PhaseView::ReadFile { batch } => Some(Request::ReadFile { file: batch.files[0] }),
        PhaseView::Upload { batch, content } => Some(upload_request(place, batch, content)),
        PhaseView::Verify { batch, id, .. } => Some(
            Request::GetDocument { vault: batch.vault, id },
        ),
        PhaseView::Record { batch, .. } => Some(Request::WriteProt { data: batch.prot }),
        PhaseView::Save { batch, .. } => Some(backup_request(place, batch.prot)),
        PhaseView::Reread { batch, .. } => Some(Request::ReadFile { file: batch.files[0] }),
        PhaseView::Remove { batch } => Some(Request::RemoveFile { file: batch.files[0] }),
        PhaseView::ReadToUnlock => Some(Request::ReadProt),
        PhaseView::Probe { recovery } => Some(
            Request::Exists { file: recovery.documents[0].0 },
        ),
        PhaseView::Fetch { recovery } => Some(
            Request::GetDocument { vault: recovery.vault, id: recovery.documents[0].1 },
        ),
        PhaseView::Guard { dirs, .. } => Some(Request::IsLink { dir: dirs[0] }),
        PhaseView::Restore { recovery, content } => Some(
            Request::WriteNew { file: recovery.documents[0].0, content, mode: OWNER_ONLY },
        ),
        PhaseView::Finished { .. } => None,
    }
}

/// What a reply leads to in a phase. One that does not answer what was asked
/// for ends the run; a finished run stays as it is.
pub open spec fn moved(
    place: PlaceView,
    keep: bool,
    phase: PhaseView,
    reply: ReplyView,
) -> Move {
    match (phase, reply) {
        (PhaseView::Inspect, Reply::Prot(reading)) => inspected(
            place.style,
            prot::read_as(paths::taken_from(place, prot::PROT_FILE@), reading),
        ),
        (PhaseView::Survey { unseen, present, missing }, Reply::Presence(there)) => surveyed(
            unseen,
            present,
            missing,
            there,
        ),
        (PhaseView::SigningIn { stage, command }, _) => match sign_in_step(stage, reply) {
            Progress::More { stage } => quietly(PhaseView::SigningIn { stage, command }),
            Progress::Over { outcome: Ok(_) } => quietly(once_signed_in(command)),
            Progress::Over { outcome: Err(e) } => failing(e),
        },
        (PhaseView::FindToSetUp, Reply::Vault(r)) => setup_sought(r),
        (PhaseView::CreateToSetUp, Reply::Created(r)) => setup_created(r),
        (PhaseView::ReadToLock, Reply::Prot(reading)) => read_to_lock(
            prot::read_as(paths::taken_from(place, prot::PROT_FILE@), reading),
        ),
        (PhaseView::WriteFresh { prot }, Reply::Ended(r)) => fresh_written(place, prot, r),
        (PhaseView::SaveFresh { prot }, Reply::Ended(r)) => after_saying(
            backup_notice(r),
            quietly(resolving(Way::Lock, prot)),
        ),
        (PhaseView::ConfirmVault { way, prot, id }, Reply::Vault(r)) => vault_confirmed(
            keep,
            way,
            prot,
            id,
            r,
        ),
        (PhaseView::FindVault { way, prot }, Reply::Vault(r)) => vault_sought(
            keep,
            way,
            prot,
            r,
        ),
        (PhaseView::CreateVault { prot }, Reply::Created(r)) => vault_created(
            keep,
            prot,
            r,
        ),
        (PhaseView::Expand { prot, vault, left, found }, Reply::Matches(r)) => pattern_expanded(
            place,
            keep,
            prot,
            vault,
            left,
            found,
            r,
        ),
        (PhaseView::ReadFile { batch }, Reply::Content(r)) => file_read(keep, batch, r),
        (PhaseView::Upload { batch, content }, _) => uploaded(batch, content, reply),
        (PhaseView::Verify { batch, content, id }, Reply::Document(r)) => verified(
            batch,
            content,
            id,
            r,
        ),
        (PhaseView::Record { batch, content }, Reply::Ended(r)) => recorded(
            place,
            keep,
            batch,
            content,
            r,
        ),
        (PhaseView::Save { batch, content }, Reply::Ended(r)) => after_saying(
            backup_notice(r),
            stored(keep, batch, content),
        ),
        (PhaseView::Reread { batch, content }, Reply::Content(r)) => reread(batch, content, r),
        (PhaseView::Remove { batch }, Reply::Removed(r)) => removed(keep, batch, r),
        (PhaseView::ReadToUnlock, Reply::Prot(reading)) => read_to_unlock(
            place,
            prot::read_as(paths::taken_from(place, prot::PROT_FILE@), reading),
        ),
        (PhaseView::Probe { recovery }, Reply::Presence(there)) => probed(recovery, there),
        (PhaseView::Fetch { recovery }, Reply::Document(r)) => fetched(
            place.style,
            recovery,
            r,
        ),
        (PhaseView::Guard { recovery, content, dirs }, Reply::Link(link)) => guarded(
            place,
            recovery,
            content,
            dirs,
            link,
        ),
        (PhaseView::Restore { recovery, .. }, Reply::Restored(r)) => restored(place, recovery, r),
        (PhaseView::Finished { .. }, _) => quietly(phase),
        (_, _) => failing(Failure::UnexpectedReply),
    }
}

/// What a run asks for next.
pub open spec fn request_of(run: RunView) -> Option<RequestView> {
    request_in(run.place, run.phase)
}

/// The run after a reply.
pub open spec fn step(run: RunView, reply: ReplyView) -> RunView {
    RunView { phase: moved(run.place, run.keep, run.phase, reply).0, ..run }
}

/// What the user is told after a reply.
pub open spec fn said(run: RunView, reply: ReplyView) -> Seq<Line<Seq<char>>> {
    moved(run.place, run.keep, run.phase, reply).1
}

/// Whether a phase makes a backup.
pub open spec fn saves(phase: PhaseView) -> bool {
    phase is SaveFresh || phase is Save
}

/// A backup is made only where there is a home directory.
pub proof fn lemma_saves(place: PlaceView, keep: bool, phase: PhaseView, reply: ReplyView)
    requires
        saves(phase) ==> place.home is Some,
    ensures
        saves(moved(place, keep, phase, reply).0) ==> place.home is Some,
{
}

} // verus!
