//! The commands: set up, lock, unlock, and the choice between the two.
//!
//! A command is a [`Run`]. It does nothing itself: it asks for one thing after
//! the other, and goes on with the reply it is given.

pub mod model;

use self::model::BatchView;
use self::model::Command;
use self::model::Move;
use self::model::PhaseView;
use self::model::Progress;
use self::model::RecoveryView;
use self::model::RunView;
use self::model::SignIn;
use self::model::Way;
use crate::backup;
use crate::bytes;
use crate::exchange;
use crate::exchange::Entry;
use crate::exchange::Line;
use crate::exchange::Reply;
use crate::exchange::Request;
use crate::exchange::Restoring;
use crate::expand;
use crate::failure;
use crate::failure::Error;
use crate::failure::Failure;
use crate::paths;
use crate::paths::Place;
use crate::paths::Style;
use crate::prot;
use crate::prot::ProtData;
use crate::text;
use vstd::prelude::*;

verus! {

/// The name of the vault that holds the documents.
pub const VAULT_NAME: &'static str = ".prot";

/// What the vault says of itself.
pub const VAULT_DESCRIPTION: &'static str = "Managed by dotprot — protected .env and config files.";

/// What the user is asked who is not signed in.
pub const SIGN_IN_QUESTION: &'static str = "You are not signed in to 1Password. Sign in now?";

/// The permissions of a file that only its owner may read and write.
pub const OWNER_ONLY: u32 = 0o600;

// ---------------------------------------------------------------------------
// where a run stands
// ---------------------------------------------------------------------------
/// Files on their way into the vault; `next` is at hand.
#[derive(Debug)]
struct Batch {
    prot: ProtData,
    vault: String,
    files: Vec<String>,
    next: usize,
    locked: usize,
}

impl Batch {
    closed spec fn view(&self) -> BatchView {
        BatchView {
            prot: self.prot@,
            vault: self.vault@,
            files: text::texts(self.files@).skip(self.next as int),
            locked: self.locked as nat,
        }
    }

    /// No more files are counted than were gone through.
    closed spec fn counts(&self) -> bool {
        self.locked <= self.next <= self.files@.len()
    }

    /// A file is at hand.
    closed spec fn at_file(&self) -> bool {
        self.locked <= self.next < self.files@.len()
    }

    /// The file at hand.
    fn file(&self) -> (r: &str)
        requires
            self.at_file(),
        ensures
            r@ == self.view().files[0],
    {
        self.files[self.next].as_str()
    }

    /// Passes over the file at hand.
    fn pass(self) -> (r: Batch)
        requires
            self.at_file(),
        ensures
            r.counts(),
            r.view() == model::without_file(self.view()),
    {
        assert(self.next < self.files.len());
        let r = Batch { next: self.next + 1, ..self };
        assert(r.view().files =~= self.view().files.skip(1));
        r
    }

    /// Counts the file at hand and goes on to the next.
    fn done(self) -> (r: Batch)
        requires
            self.at_file(),
        ensures
            r.counts(),
            r.view() == model::file_done(self.view()),
    {
        assert(self.next < self.files.len());
        let r = Batch { next: self.next + 1, locked: self.locked + 1, ..self };
        assert(r.view().files =~= self.view().files.skip(1));
        r
    }

    /// Records a document for the file at hand.
    fn record(self, id: &str) -> (r: Batch)
        requires
            self.at_file(),
        ensures
            r.at_file(),
            r.view() == model::recording(self.view(), id@),
    {
        let mut prot = self.prot;
        prot.set_document(self.files[self.next].as_str(), id);
        Batch { prot, vault: self.vault, files: self.files, next: self.next, locked: self.locked }
    }
}

/// Documents on their way back to disk; `next` is at hand.
#[derive(Debug)]
struct Recovery {
    vault: String,
    documents: Vec<(String, String)>,
    next: usize,
    unlocked: usize,
}

impl Recovery {
    closed spec fn view(&self) -> RecoveryView {
        RecoveryView {
            vault: self.vault@,
            documents: prot::entries(self.documents@).skip(self.next as int),
            unlocked: self.unlocked as nat,
        }
    }

    /// No more documents are counted than were gone through.
    closed spec fn counts(&self) -> bool {
        self.unlocked <= self.next <= self.documents@.len()
    }

    /// A document is at hand.
    closed spec fn at_document(&self) -> bool {
        self.unlocked <= self.next < self.documents@.len()
    }

    /// The file of the document at hand.
    fn file(&self) -> (r: &str)
        requires
            self.at_document(),
        ensures
            r@ == self.view().documents[0].0,
    {
        self.documents[self.next].0.as_str()
    }

    /// Passes over the document at hand.
    fn pass(self) -> (r: Recovery)
        requires
            self.at_document(),
        ensures
            r.counts(),
            r.view() == (RecoveryView {
                documents: self.view().documents.skip(1),
                ..self.view()
            }),
    {
        assert(self.next < self.documents.len());
        let r = Recovery { next: self.next + 1, ..self };
        assert(r.view().documents =~= self.view().documents.skip(1));
        r
    }

    /// Counts the document at hand and goes on to the next.
    fn done(self) -> (r: Recovery)
        requires
            self.at_document(),
        ensures
            r.counts(),
            r.view() == (RecoveryView {
                documents: self.view().documents.skip(1),
                unlocked: self.view().unlocked + 1,
                ..self.view()
            }),
    {
        assert(self.next < self.documents.len());
        let r = Recovery { next: self.next + 1, unlocked: self.unlocked + 1, ..self };
        assert(r.view().documents =~= self.view().documents.skip(1));
        r
    }
}

/// Where a run stands.
#[derive(Debug)]
enum Phase {
    Inspect,
    Survey {
        documents: Vec<(String, String)>,
        next: usize,
        present: Vec<String>,
        missing: Vec<String>,
    },
    SigningIn { stage: SignIn, command: Command },
    FindToSetUp,
    CreateToSetUp,
    ReadToLock,
    WriteFresh { prot: ProtData },
    SaveFresh { prot: ProtData },
    ConfirmVault { way: Way, prot: ProtData, id: String },
    FindVault { way: Way, prot: ProtData },
    CreateVault { prot: ProtData },
    Expand { prot: ProtData, vault: String, next: usize, found: Vec<String> },
    ReadFile { batch: Batch },
    Upload { batch: Batch, content: Vec<u8> },
    Verify { batch: Batch, content: Vec<u8>, id: String },
    Record { batch: Batch, content: Vec<u8> },
    Save { batch: Batch, content: Vec<u8> },
    Reread { batch: Batch, content: Vec<u8> },
    Remove { batch: Batch },
    ReadToUnlock,
    Probe { recovery: Recovery },
    Fetch { recovery: Recovery },
    Guard { recovery: Recovery, content: Vec<u8>, dirs: Vec<String>, next: usize },
    Restore { recovery: Recovery, content: Vec<u8> },
    Finished { outcome: Result<(), Error> },
}

impl Phase {
    closed spec fn view(&self) -> PhaseView {
        match self {
            Phase::Inspect => PhaseView::Inspect,
            Phase::Survey { documents, next, present, missing } => PhaseView::Survey {
                unseen: prot::entries(documents@).skip(*next as int),
                present: text::texts(present@),
                missing: text::texts(missing@),
            },
            Phase::SigningIn { stage, command } => PhaseView::SigningIn {
                stage: *stage,
                command: *command,
            },
            Phase::FindToSetUp => PhaseView::FindToSetUp,
            Phase::CreateToSetUp => PhaseView::CreateToSetUp,
            Phase::ReadToLock => PhaseView::ReadToLock,
            Phase::WriteFresh { prot } => PhaseView::WriteFresh { prot: prot@ },
            Phase::SaveFresh { prot } => PhaseView::SaveFresh { prot: prot@ },
            Phase::ConfirmVault { way, prot, id } => PhaseView::ConfirmVault {
                way: *way,
                prot: prot@,
                id: id@,
            },
            Phase::FindVault { way, prot } => PhaseView::FindVault { way: *way, prot: prot@ },
            Phase::CreateVault { prot } => PhaseView::CreateVault { prot: prot@ },
            Phase::Expand { prot, vault, next, found } => PhaseView::Expand {
                prot: prot@,
                vault: vault@,
                left: prot@.patterns.skip(*next as int),
                found: text::texts(found@),
            },
            Phase::ReadFile { batch } => PhaseView::ReadFile { batch: batch.view() },
            Phase::Upload { batch, content } => PhaseView::Upload {
                batch: batch.view(),
                content: content@,
            },
            Phase::Verify { batch, content, id } => PhaseView::Verify {
                batch: batch.view(),
                content: content@,
                id: id@,
            },
            Phase::Record { batch, content } => PhaseView::Record {
                batch: batch.view(),
                content: content@,
            },
            Phase::Save { batch, content } => PhaseView::Save {
                batch: batch.view(),
                content: content@,
            },
            Phase::Reread { batch, content } => PhaseView::Reread {
                batch: batch.view(),
                content: content@,
            },
            Phase::Remove { batch } => PhaseView::Remove { batch: batch.view() },
            Phase::ReadToUnlock => PhaseView::ReadToUnlock,
            Phase::Probe { recovery } => PhaseView::Probe { recovery: recovery.view() },
            Phase::Fetch { recovery } => PhaseView::Fetch { recovery: recovery.view() },
            Phase::Guard { recovery, content, dirs, next } => PhaseView::Guard {
                recovery: recovery.view(),
                content: content@,
                dirs: text::texts(dirs@).skip(*next as int),
            },
            Phase::Restore { recovery, content } => PhaseView::Restore {
                recovery: recovery.view(),
                content: content@,
            },
            Phase::Finished { outcome } => PhaseView::Finished {
                outcome: failure::outcome_of(*outcome),
            },
        }
    }

    /// Whatever a phase deals with one by one, something is at hand.
    closed spec fn inv(&self) -> bool {
        match self {
            Phase::Survey { documents, next, .. } => *next < documents@.len(),
            Phase::Expand { prot, next, .. } => *next < prot.patterns@.len(),
            Phase::ReadFile { batch } => batch.at_file(),
            Phase::Upload { batch, .. } => batch.at_file(),
            Phase::Verify { batch, .. } => batch.at_file(),
            Phase::Record { batch, .. } => batch.at_file(),
            Phase::Save { batch, .. } => batch.at_file(),
            Phase::Reread { batch, .. } => batch.at_file(),
            Phase::Remove { batch } => batch.at_file(),
            Phase::Probe { recovery } => recovery.at_document(),
            Phase::Fetch { recovery } => recovery.at_document(),
            Phase::Guard { recovery, dirs, next, .. } => recovery.at_document() && *next
                < dirs@.len(),
            Phase::Restore { recovery, .. } => recovery.at_document(),
            _ => true,
        }
    }
}

/// A phase and what is told the user on the way to it.
struct Turn {
    phase: Phase,
    lines: Vec<Line>,
}

impl Turn {
    closed spec fn view(&self) -> Move {
        (self.phase.view(), exchange::line_views(self.lines@))
    }

    /// The run ends with a failure.
    fn failing(e: Error) -> (r: Turn)
        ensures
            r.phase.inv(),
            r.view() == model::failing(e@),
    {
        Turn::quietly(Phase::Finished { outcome: Err(e) })
    }

    /// The run goes on without a word.
    fn quietly(phase: Phase) -> (r: Turn)
        requires
            phase.inv(),
        ensures
            r.phase.inv(),
            r.view() == model::quietly(phase.view()),
    {
        let r = Turn { phase, lines: Vec::new() };
        assert(exchange::line_views(r.lines@) =~= seq![]);
        r
    }

    /// The run goes on, and a line is told.
    fn saying(phase: Phase, t: String) -> (r: Turn)
        requires
            phase.inv(),
        ensures
            r.phase.inv(),
            r.view() == (phase.view(), model::say(t@)),
    {
        let ghost shown = t@;
        let mut lines: Vec<Line> = Vec::new();
        lines.push(Line::Out(t));
        assert(exchange::line_views(lines@) =~= model::say(shown));
        Turn { phase, lines }
    }

    /// Something is told first.
    fn after(self, lines: Vec<Line>) -> (r: Turn)
        requires
            self.phase.inv(),
        ensures
            r.phase.inv(),
            r.view() == model::after_saying(exchange::line_views(lines@), self.view()),
    {
        let ghost first = lines@;
        let mut lines = lines;
        let mut then = self.lines;
        lines.append(&mut then);
        assert(exchange::line_views(lines@) =~= exchange::line_views(first)
            + exchange::line_views(self.lines@));
        Turn { phase: self.phase, lines }
    }

    /// A line is told first.
    fn after_line(self, t: String) -> (r: Turn)
        requires
            self.phase.inv(),
        ensures
            r.phase.inv(),
            r.view() == model::after_saying(model::say(t@), self.view()),
    {
        let ghost shown = t@;
        let mut lines: Vec<Line> = Vec::new();
        lines.push(Line::Out(t));
        assert(exchange::line_views(lines@) =~= model::say(shown));
        self.after(lines)
    }
}

// ---------------------------------------------------------------------------
// signing in
// ---------------------------------------------------------------------------
/// The view of what signing in has come to.
pub open spec fn progress_view(progress: Progress<Error>) -> Progress<Failure<Seq<char>>> {
    match progress {
        Progress::More { stage } => Progress::More { stage },
        Progress::Over { outcome } => Progress::Over { outcome: failure::outcome_of(outcome) },
    }
}

/// What is asked for while signing in.
pub fn sign_in_request(stage: SignIn) -> (r: Request)
    ensures
        r@ == model::sign_in_request(stage),
{
    match stage {
        SignIn::Check => Request::IsSignedIn,
        SignIn::Ask => Request::Confirm { question: SIGN_IN_QUESTION.to_owned() },
        SignIn::Enter => Request::SignIn,
        SignIn::Recheck => Request::IsSignedIn,
    }
}

/// What a reply makes of signing in.
pub fn sign_in_step(stage: SignIn, reply: Reply) -> (r: Progress<Error>)
    ensures
        progress_view(r) == model::sign_in_step(stage, reply@),
{
    match (stage, reply) {
        (SignIn::Check, Reply::Flag(Ok(there))) => {
            if there {
                Progress::Over { outcome: Ok(()) }
            } else {
                Progress::More { stage: SignIn::Ask }
            }
        },
        (SignIn::Ask, Reply::Flag(Ok(yes))) => {
            if yes {
                Progress::More { stage: SignIn::Enter }
            } else {
                Progress::Over { outcome: Err(Failure::NotSignedIn) }
            }
        },
        (SignIn::Enter, Reply::Ended(Ok(_))) => Progress::More { stage: SignIn::Recheck },
        (SignIn::Enter, Reply::Ended(Err(e))) => Progress::Over { outcome: Err(e) },
        (SignIn::Recheck, Reply::Flag(Ok(there))) => {
            if there {
                Progress::Over { outcome: Ok(()) }
            } else {
                Progress::Over { outcome: Err(Failure::StillNotSignedIn) }
            }
        },
        (SignIn::Enter, _) => Progress::Over { outcome: Err(Failure::UnexpectedReply) },
        (_, Reply::Flag(Err(e))) => Progress::Over { outcome: Err(e) },
        (_, _) => Progress::Over { outcome: Err(Failure::UnexpectedReply) },
    }
}

/// How a command begins.
fn beginning(command: Command) -> (r: Phase)
    ensures
        r.inv(),
        r.view() == model::beginning(command),
{
    Phase::SigningIn { stage: SignIn::Check, command }
}

/// Goes on with signing in, and then with the command.
fn signing_in(stage: SignIn, command: Command, reply: Reply) -> (r: Turn)
    ensures
        r.phase.inv(),
        r.view() == (match model::sign_in_step(stage, reply@) {
            Progress::More { stage } => model::quietly(PhaseView::SigningIn { stage, command }),
            Progress::Over { outcome: Ok(_) } => model::quietly(model::once_signed_in(command)),
            Progress::Over { outcome: Err(e) } => model::failing(e),
        }),
{
    match sign_in_step(stage, reply) {
        Progress::More { stage } => Turn::quietly(Phase::SigningIn { stage, command }),
        Progress::Over { outcome: Ok(_) } => match command {
            Command::Setup => Turn::quietly(Phase::FindToSetUp),
            Command::Lock => Turn::quietly(Phase::ReadToLock),
            Command::Unlock => Turn::quietly(Phase::ReadToUnlock),
        },
        Progress::Over { outcome: Err(e) } => Turn::failing(e),
    }
}

// ---------------------------------------------------------------------------
// locking, file by file
// ---------------------------------------------------------------------------
/// Goes on with the files that are left.
fn locking(keep: bool, batch: Batch) -> (r: Turn)
    requires
        batch.counts(),
    ensures
        r.phase.inv(),
        r.view() == model::locking(keep, batch.view()),
{
    if batch.next < batch.files.len() {
        return Turn::quietly(Phase::ReadFile { batch });
    }
    let count = text::number(batch.locked);
    let summary = if keep {
        "Uploaded ".to_owned().concat(count.as_str()).concat(
            " file(s) to vault \".prot\". Originals kept on disk (--keep); run `dotprot lock` to remove them.",
        )
    } else {
        "Locked ".to_owned().concat(count.as_str()).concat(" file(s) into vault \".prot\".")
    };
    Turn::saying(Phase::Finished { outcome: Ok(()) }, summary)
}

/// The file at hand was read.
fn file_read(keep: bool, batch: Batch, reply: Result<Vec<u8>, String>) -> (r: Turn)
    requires
        batch.at_file(),
    ensures
        r.phase.inv(),
        r.view() == model::file_read(keep, batch.view(), exchange::content_view(reply)),
{
    match reply {
        Ok(content) => {
            if content.len() == 0 {
                let line = "  skip ".to_owned().concat(batch.file()).concat(
                    " (empty file — nothing to protect)",
                );
                locking(keep, batch.pass()).after_line(line)
            } else {
                Turn::quietly(Phase::Upload { batch, content })
            }
        },
        Err(message) => Turn::failing(Failure::Outside { message }),
    }
}

/// The request that stores the file at hand.
fn upload_request(place: &Place, batch: &Batch, content: &Vec<u8>) -> (r: Request)
    requires
        batch.at_file(),
    ensures
        r@ == model::upload_request(place@, batch.view(), content@),
{
    let file = batch.file();
    let title = paths::document_title(place, file);
    let file_name = paths::file_name(place.style, file);
    let vault = batch.vault.clone();
    let content = bytes::copy(content);
    match batch.prot.document_id(file) {
        Some(id) => Request::EditDocument { vault, id: id.to_owned(), title, file_name, content },
        None => Request::CreateDocument { vault, title, file_name, content },
    }
}

/// The file at hand was stored.
fn uploaded(batch: Batch, content: Vec<u8>, reply: Reply) -> (r: Turn)
    requires
        batch.at_file(),
    ensures
        r.phase.inv(),
        r.view() == model::uploaded(batch.view(), content@, reply@),
{
    let existing = match batch.prot.document_id(batch.file()) {
        Some(id) => Some(id.to_owned()),
        None => None,
    };
    match (existing, reply) {
        (Some(id), Reply::Ended(Ok(_))) => Turn::quietly(Phase::Verify { batch, content, id }),
        (Some(_), Reply::Ended(Err(e))) => Turn::failing(e),
        (None, Reply::Created(Ok(id))) => Turn::quietly(Phase::Verify { batch, content, id }),
        (None, Reply::Created(Err(e))) => Turn::failing(e),
        (_, _) => Turn::failing(Failure::UnexpectedReply),
    }
}

/// The document was read back.
fn verified(batch: Batch, content: Vec<u8>, id: String, reply: Result<Vec<u8>, Error>) -> (r: Turn)
    requires
        batch.at_file(),
    ensures
        r.phase.inv(),
        r.view() == model::verified(batch.view(), content@, id@, exchange::document_view(reply)),
{
    match reply {
        Ok(round_trip) => {
            if bytes::same(&round_trip, &content) {
                Turn::quietly(Phase::Record { batch: batch.record(id.as_str()), content })
            } else {
                Turn::failing(Failure::VerificationFailed { file: batch.file().to_owned() })
            }
        },
        Err(e) => Turn::failing(e),
    }
}

/// The file at hand is stored and recorded.
fn stored(keep: bool, batch: Batch, content: Vec<u8>) -> (r: Turn)
    requires
        batch.at_file(),
    ensures
        r.phase.inv(),
        r.view() == model::stored(keep, batch.view(), content@),
{
    if keep {
        let line = "  uploaded ".to_owned().concat(batch.file()).concat(
            " -> 1Password (kept on disk)",
        );
        locking(keep, batch.done()).after_line(line)
    } else {
        Turn::quietly(Phase::Reread { batch, content })
    }
}

/// The document was recorded.
fn recorded(
    place: &Place,
    keep: bool,
    batch: Batch,
    content: Vec<u8>,
    reply: Result<(), Error>,
) -> (r: Turn)
    requires
        batch.at_file(),
    ensures
        r.phase.inv(),
        r.view() == model::recorded(
            place@,
            keep,
            batch.view(),
            content@,
            failure::outcome_of(reply),
        ),
{
    match reply {
        Ok(_) => {
            if place.home.is_some() {
                Turn::quietly(Phase::Save { batch, content })
            } else {
                stored(keep, batch, content)
            }
        },
        Err(e) => Turn::failing(e),
    }
}

/// What is told of a backup.
fn backup_notice(reply: Result<(), Error>) -> (r: Vec<Line>)
    ensures
        exchange::line_views(r@) == model::backup_notice(failure::outcome_of(reply)),
{
    let mut lines: Vec<Line> = Vec::new();
    if let Err(e) = &reply {
        lines.push(
            Line::Warn(
                "  warning: could not back up .prot: ".to_owned().concat(e.message().as_str()),
            ),
        );
    }
    assert(exchange::line_views(lines@) =~= model::backup_notice(failure::outcome_of(reply)));
    lines
}

/// The file at hand was read again.
fn reread(batch: Batch, content: Vec<u8>, reply: Result<Vec<u8>, String>) -> (r: Turn)
    requires
        batch.at_file(),
    ensures
        r.phase.inv(),
        r.view() == model::reread(batch.view(), content@, exchange::content_view(reply)),
{
    match reply {
        Ok(current) => {
            if bytes::same(&current, &content) {
                Turn::quietly(Phase::Remove { batch })
            } else {
                Turn::failing(Failure::ChangedOnDisk { file: batch.file().to_owned() })
            }
        },
        Err(cause) => Turn::failing(Failure::Reread { file: batch.file().to_owned(), cause }),
    }
}

/// The file at hand was deleted.
fn removed(keep: bool, batch: Batch, reply: Result<(), String>) -> (r: Turn)
    requires
        batch.at_file(),
    ensures
        r.phase.inv(),
        r.view() == model::removed(keep, batch.view(), exchange::removed_view(reply)),
{
    match reply {
        Ok(_) => {
            let line = "  locked ".to_owned().concat(batch.file()).concat(" -> 1Password");
            locking(keep, batch.done()).after_line(line)
        },
        Err(message) => Turn::failing(Failure::Outside { message }),
    }
}

// ---------------------------------------------------------------------------
// unlocking, document by document
// ---------------------------------------------------------------------------
/// Goes on with the documents that are left.
fn recovering(recovery: Recovery) -> (r: Turn)
    requires
        recovery.counts(),
    ensures
        r.phase.inv(),
        r.view() == model::recovering(recovery.view()),
{
    if recovery.next < recovery.documents.len() {
        return Turn::quietly(Phase::Probe { recovery });
    }
    let count = text::number(recovery.unlocked);
    Turn::saying(
        Phase::Finished { outcome: Ok(()) },
        "Unlocked ".to_owned().concat(count.as_str()).concat(" file(s) from vault \".prot\"."),
    )
}

/// Whether a file counts as being on disk: one of which it could not be found
/// out does, so that nothing is overwritten and no wrong way taken.
pub fn file_exists(there: Option<bool>) -> (r: bool)
    ensures
        r == model::counts_as_present(there),
{
    match there {
        Some(b) => b,
        None => true,
    }
}

/// It was found out whether the file at hand is on disk.
fn probed(recovery: Recovery, there: Option<bool>) -> (r: Turn)
    requires
        recovery.at_document(),
    ensures
        r.phase.inv(),
        r.view() == model::probed(recovery.view(), there),
{
    if file_exists(there) {
        let line = "  skip ".to_owned().concat(recovery.file()).concat(
            " (already present on disk)",
        );
        recovering(recovery.pass()).after_line(line)
    } else {
        Turn::quietly(Phase::Fetch { recovery })
    }
}

/// The document at hand was fetched.
fn fetched(style: Style, recovery: Recovery, reply: Result<Vec<u8>, Error>) -> (r: Turn)
    requires
        recovery.at_document(),
    ensures
        r.phase.inv(),
        r.view() == model::fetched(style, recovery.view(), exchange::document_view(reply)),
{
    match reply {
        Ok(content) => {
            let dirs = paths::parents(style, recovery.file());
            assert(text::texts(dirs@).skip(0) =~= text::texts(dirs@));
            Turn::quietly(guarding(recovery, content, dirs, 0))
        },
        Err(e) => Turn::failing(e),
    }
}

/// Goes on with the directories that are left on the way to the file at hand.
fn guarding(recovery: Recovery, content: Vec<u8>, dirs: Vec<String>, next: usize) -> (r: Phase)
    requires
        recovery.at_document(),
        next <= dirs@.len(),
    ensures
        r.inv(),
        r.view() == model::guarding(
            recovery.view(),
            content@,
            text::texts(dirs@).skip(next as int),
        ),
{
    if next < dirs.len() {
        Phase::Guard { recovery, content, dirs, next }
    } else {
        Phase::Restore { recovery, content }
    }
}

/// A directory on the way to the file at hand was looked at.
fn guarded(
    place: &Place,
    recovery: Recovery,
    content: Vec<u8>,
    dirs: Vec<String>,
    next: usize,
    link: Option<bool>,
) -> (r: Turn)
    requires
        recovery.at_document(),
        next < dirs@.len(),
    ensures
        r.phase.inv(),
        r.view() == model::guarded(
            place@,
            recovery.view(),
            content@,
            text::texts(dirs@).skip(next as int),
            link,
        ),
{
    let ghost left = text::texts(dirs@).skip(next as int);
    assert(next < dirs.len());
    assert(left[0] == dirs@[next as int]@);
    assert(text::texts(dirs@).skip(next as int + 1) =~= left.skip(1));
    match link {
        Some(false) => Turn::quietly(guarding(recovery, content, dirs, next + 1)),
        _ => Turn::failing(
            Failure::LinkedDirectory {
                path: paths::join(place, recovery.file()),
                dir: dirs[next].clone(),
            },
        ),
    }
}

/// The file at hand was written.
fn restored(place: &Place, recovery: Recovery, reply: Restoring) -> (r: Turn)
    requires
        recovery.at_document(),
    ensures
        r.phase.inv(),
        r.view() == model::restored(place@, recovery.view(), reply@),
{
    match reply {
        Restoring::Written => {
            let line = "  unlocked ".to_owned().concat(recovery.file()).concat(" <- 1Password");
            recovering(recovery.done()).after_line(line)
        },
        Restoring::Refused { cause } => Turn::failing(
            Failure::RestoreRefused { path: paths::join(place, recovery.file()), cause },
        ),
        Restoring::Failed { message } => Turn::failing(Failure::Outside { message }),
    }
}

// ---------------------------------------------------------------------------
// the files to lock
// ---------------------------------------------------------------------------
/// Goes on with the patterns that are left, and then with the files found.
fn expanding(keep: bool, prot: ProtData, vault: String, next: usize, found: Vec<String>) -> (r: Turn)
    requires
        next <= prot.patterns@.len(),
    ensures
        r.phase.inv(),
        r.view() == model::expanding(
            keep,
            prot@,
            vault@,
            prot@.patterns.skip(next as int),
            text::texts(found@),
        ),
{
    if next < prot.patterns.len() {
        return Turn::quietly(Phase::Expand { prot, vault, next, found });
    }
    if found.len() == 0 {
        return Turn::failing(
            Failure::NothingMatches { patterns: text::join(&prot.patterns, ", ") },
        );
    }
    let batch = Batch { prot, vault, files: found, next: 0, locked: 0 };
    assert(batch.view().files =~= text::texts(found@));
    locking(keep, batch)
}

/// The files of a pattern were looked for.
fn pattern_expanded(
    place: &Place,
    keep: bool,
    prot: ProtData,
    vault: String,
    next: usize,
    found: Vec<String>,
    reply: Result<Vec<Entry>, String>,
) -> (r: Turn)
    requires
        next < prot.patterns@.len(),
    ensures
        r.phase.inv(),
        r.view() == model::pattern_expanded(
            place@,
            keep,
            prot@,
            vault@,
            prot@.patterns.skip(next as int),
            text::texts(found@),
            exchange::matches_view(reply),
        ),
{
    match reply {
        Ok(entries) => {
            let (files, lines) = expand::expand_patterns(place, found, &entries);
            assert(next < prot.patterns.len());
            assert(prot@.patterns.skip(next as int).skip(1) =~= prot@.patterns.skip(
                next as int + 1,
            ));
            expanding(keep, prot, vault, next + 1, files).after(lines)
        },
        Err(message) => Turn::failing(Failure::Outside { message }),
    }
}

// ---------------------------------------------------------------------------
// the vault
// ---------------------------------------------------------------------------
/// Sets out to settle the vault.
fn resolving(way: Way, prot: ProtData) -> (r: Phase)
    ensures
        r.inv(),
        r.view() == model::resolving(way, prot@),
{
    match &prot.vault {
        Some(id) => {
            let id = id.clone();
            Phase::ConfirmVault { way, prot, id }
        },
        None => Phase::FindVault { way, prot },
    }
}

/// Goes on once the vault is settled.
fn with_vault(keep: bool, way: Way, prot: ProtData, vault: String) -> (r: Turn)
    ensures
        r.phase.inv(),
        r.view() == model::with_vault(keep, way, prot@, vault@),
{
    match way {
        Way::Lock => {
            let found: Vec<String> = Vec::new();
            assert(prot@.patterns.skip(0) =~= prot@.patterns);
            assert(text::texts(found@) =~= seq![]);
            expanding(keep, prot, vault, 0, found)
        },
        Way::Unlock => {
            let recovery = Recovery { vault, documents: prot.documents, next: 0, unlocked: 0 };
            assert(recovery.view().documents =~= prot@.documents);
            recovering(recovery)
        },
    }
}

/// Records the vault's ID.
fn naming_vault(prot: ProtData, id: &str) -> (r: ProtData)
    ensures
        r@ == model::naming_vault(prot@, id@),
{
    ProtData { vault: Some(id.to_owned()), documents: prot.documents, patterns: prot.patterns }
}

/// The name of the recorded vault was looked up.
fn vault_confirmed(
    keep: bool,
    way: Way,
    prot: ProtData,
    id: String,
    reply: Result<Option<String>, Error>,
) -> (r: Turn)
    ensures
        r.phase.inv(),
        r.view() == model::vault_confirmed(keep, way, prot@, id@, exchange::vault_view(reply)),
{
    match reply {
        Ok(Some(name)) => {
            if text::same(name.as_str(), VAULT_NAME) {
                with_vault(keep, way, prot, id)
            } else {
                Turn::failing(Failure::WrongVault { id, name })
            }
        },
        Ok(None) => Turn::failing(Failure::VaultGone { id }),
        Err(e) => Turn::failing(e),
    }
}

/// The vault was looked for.
fn vault_sought(
    keep: bool,
    way: Way,
    prot: ProtData,
    reply: Result<Option<String>, Error>,
) -> (r: Turn)
    ensures
        r.phase.inv(),
        r.view() == model::vault_sought(keep, way, prot@, exchange::vault_view(reply)),
{
    match reply {
        Ok(Some(id)) => with_vault(keep, way, naming_vault(prot, id.as_str()), id),
        Ok(None) => match way {
            Way::Lock => Turn::quietly(Phase::CreateVault { prot }),
            Way::Unlock => Turn::failing(Failure::VaultMissing),
        },
        Err(e) => Turn::failing(e),
    }
}

/// The vault was created.
fn vault_created(keep: bool, prot: ProtData, reply: Result<String, Error>) -> (r: Turn)
    ensures
        r.phase.inv(),
        r.view() == model::vault_created(keep, prot@, exchange::created_view(reply)),
{
    match reply {
        Ok(id) => {
            let mut lines: Vec<Line> = Vec::new();
            lines.push(
                Line::Out(
                    "Created 1Password vault \".prot\" (".to_owned().concat(id.as_str()).concat(
                        ").",
                    ),
                ),
            );
            lines.push(Line::Out("(one-time setup — future runs reuse it)".to_owned()));
            assert(exchange::line_views(lines@) =~= seq![
                Line::Out("Created 1Password vault \".prot\" ("@ + id@ + ")."@),
                Line::Out("(one-time setup — future runs reuse it)"@),
            ]);
            with_vault(keep, Way::Lock, naming_vault(prot, id.as_str()), id).after(lines)
        },
        Err(e) => Turn::failing(e),
    }
}

/// The vault that is to be set up was looked for.
fn setup_sought(reply: Result<Option<String>, Error>) -> (r: Turn)
    ensures
        r.phase.inv(),
        r.view() == model::setup_sought(exchange::vault_view(reply)),
{
    match reply {
        Ok(Some(id)) => Turn::saying(
            Phase::Finished { outcome: Ok(()) },
            "Vault \".prot\" already exists (".to_owned().concat(id.as_str()).concat(")."),
        ),
        Ok(None) => Turn::quietly(Phase::CreateToSetUp),
        Err(e) => Turn::failing(e),
    }
}

/// The vault that is to be set up was created.
fn setup_created(reply: Result<String, Error>) -> (r: Turn)
    ensures
        r.phase.inv(),
        r.view() == model::setup_created(exchange::created_view(reply)),
{
    match reply {
        Ok(id) => Turn::saying(
            Phase::Finished { outcome: Ok(()) },
            "Created vault \".prot\" (".to_owned().concat(id.as_str()).concat(")."),
        ),
        Err(e) => Turn::failing(e),
    }
}

// ---------------------------------------------------------------------------
// `.prot`
// ---------------------------------------------------------------------------
/// `.prot` was read to lock.
fn read_to_lock(reading: Result<Option<ProtData>, Error>) -> (r: Turn)
    ensures
        r.phase.inv(),
        r.view() == model::read_to_lock(prot::read_view(reading)),
{
    match reading {
        Ok(Some(prot)) => Turn::quietly(resolving(Way::Lock, prot)),
        Ok(None) => Turn::quietly(Phase::WriteFresh { prot: ProtData::empty() }),
        Err(e) => Turn::failing(e),
    }
}

/// The first `.prot` was written.
fn fresh_written(place: &Place, prot: ProtData, reply: Result<(), Error>) -> (r: Turn)
    ensures
        r.phase.inv(),
        r.view() == model::fresh_written(place@, prot@, failure::outcome_of(reply)),
{
    match reply {
        Ok(_) => {
            let line = "Created .prot (protecting: ".to_owned().concat(
                text::join(&prot.patterns, ", ").as_str(),
            ).concat(").");
            if place.home.is_some() {
                Turn::saying(Phase::SaveFresh { prot }, line)
            } else {
                Turn::saying(resolving(Way::Lock, prot), line)
            }
        },
        Err(e) => Turn::failing(e),
    }
}

/// The first recorded path that could leave the working directory.
fn first_refused(style: Style, documents: &Vec<(String, String)>) -> (r: Option<Error>)
    ensures
        match r {
            Some(e) => {
                &&& model::first_refused(style, prot::entries(documents@)) is Some
                &&& e@ == (Failure::RefusedPath {
                    file: model::first_refused(style, prot::entries(documents@))->0,
                })
            },
            None => model::first_refused(style, prot::entries(documents@)) is None,
        },
{
    let ghost all = prot::entries(documents@);
    let mut i: usize = 0;
    assert(all.skip(0) =~= all);
    while i < documents.len()
        invariant
            i <= documents@.len(),
            all == prot::entries(documents@),
            model::first_refused(style, all) == model::first_refused(style, all.skip(i as int)),
        decreases documents@.len() - i,
    {
        assert(all.skip(i as int)[0].0 == documents@[i as int].0@);
        assert(all.skip(i as int).skip(1) =~= all.skip(i as int + 1));
        if let Err(e) = paths::validate_restore_path(style, documents[i].0.as_str()) {
            return Some(e);
        }
        i += 1;
    }
    None
}

/// `.prot` was read to unlock.
fn read_to_unlock(place: &Place, reading: Result<Option<ProtData>, Error>) -> (r: Turn)
    ensures
        r.phase.inv(),
        r.view() == model::read_to_unlock(place@, prot::read_view(reading)),
{
    match reading {
        Ok(Some(prot)) => {
            if prot.documents.len() == 0 {
                return Turn::failing(Failure::NothingLocked);
            }
            match first_refused(place.style, &prot.documents) {
                Some(e) => Turn::failing(e),
                None => Turn::quietly(resolving(Way::Unlock, prot)),
            }
        },
        Ok(None) => Turn::failing(Failure::NoProt { dir: place.cwd.clone() }),
        Err(e) => Turn::failing(e),
    }
}

/// `.prot` was read to choose.
fn inspected(style: Style, reading: Result<Option<ProtData>, Error>) -> (r: Turn)
    ensures
        r.phase.inv(),
        r.view() == model::inspected(style, prot::read_view(reading)),
{
    match reading {
        Ok(Some(prot)) => {
            if prot.documents.len() == 0 {
                return Turn::quietly(beginning(Command::Lock));
            }
            match first_refused(style, &prot.documents) {
                Some(e) => Turn::failing(e),
                None => {
                    let ghost all = prot@.documents;
                    let phase = Phase::Survey {
                        documents: prot.documents,
                        next: 0,
                        present: Vec::new(),
                        missing: Vec::new(),
                    };
                    assert(phase.view() =~= PhaseView::Survey {
                        unseen: all,
                        present: seq![],
                        missing: seq![],
                    });
                    Turn::quietly(phase)
                },
            }
        },
        Ok(None) => Turn::quietly(beginning(Command::Lock)),
        Err(e) => Turn::failing(e),
    }
}

/// The choice, once every recorded file was looked for.
fn choice(present: &Vec<String>, missing: &Vec<String>) -> (r: Turn)
    ensures
        r.phase.inv(),
        r.view() == model::choice(text::texts(present@), text::texts(missing@)),
{
    if present.len() > 0 && missing.len() > 0 {
        Turn::failing(
            Failure::MixedState {
                present: text::join(present, ", "),
                missing: text::join(missing, ", "),
            },
        )
    } else if missing.len() > 0 {
        Turn::quietly(beginning(Command::Unlock))
    } else {
        Turn::quietly(beginning(Command::Lock))
    }
}

/// It was found out whether a recorded file is on disk.
fn surveyed(
    documents: Vec<(String, String)>,
    next: usize,
    present: Vec<String>,
    missing: Vec<String>,
    there: Option<bool>,
) -> (r: Turn)
    requires
        next < documents@.len(),
    ensures
        r.phase.inv(),
        r.view() == model::surveyed(
            prot::entries(documents@).skip(next as int),
            text::texts(present@),
            text::texts(missing@),
            there,
        ),
{
    let ghost unseen = prot::entries(documents@).skip(next as int);
    let ghost was_present = text::texts(present@);
    let ghost was_missing = text::texts(missing@);
    let mut present = present;
    let mut missing = missing;
    assert(next < documents.len());
    assert(unseen[0].0 == documents@[next as int].0@);
    let file = documents[next].0.clone();
    if file_exists(there) {
        present.push(file);
        assert(text::texts(present@) =~= was_present.push(unseen[0].0));
    } else {
        missing.push(file);
        assert(text::texts(missing@) =~= was_missing.push(unseen[0].0));
    }
    if next + 1 < documents.len() {
        assert(prot::entries(documents@).skip(next as int + 1) =~= unseen.skip(1));
        Turn::quietly(Phase::Survey { documents, next: next + 1, present, missing })
    } else {
        choice(&present, &missing)
    }
}

// ---------------------------------------------------------------------------
// the machine
// ---------------------------------------------------------------------------
/// What a reply leads to.
fn moved(place: &Place, keep: bool, phase: Phase, reply: Reply) -> (r: Turn)
    requires
        phase.inv(),
    ensures
        r.phase.inv(),
        r.view() == model::moved(place@, keep, phase.view(), reply@),
{
    match (phase, reply) {
        (Phase::Inspect, Reply::Prot(reading)) => inspected(
            place.style,
            prot::read(paths::prot_path(place).as_str(), reading),
        ),
        (Phase::Survey { documents, next, present, missing }, Reply::Presence(there)) => surveyed(
            documents,
            next,
            present,
            missing,
            there,
        ),
        (Phase::SigningIn { stage, command }, reply) => signing_in(stage, command, reply),
        (Phase::FindToSetUp, Reply::Vault(r)) => setup_sought(r),
        (Phase::CreateToSetUp, Reply::Created(r)) => setup_created(r),
        (Phase::ReadToLock, Reply::Prot(reading)) => read_to_lock(
            prot::read(paths::prot_path(place).as_str(), reading),
        ),
        (Phase::WriteFresh { prot }, Reply::Ended(r)) => fresh_written(place, prot, r),
        (Phase::SaveFresh { prot }, Reply::Ended(r)) => Turn::quietly(
            resolving(Way::Lock, prot),
        ).after(backup_notice(r)),
        (Phase::ConfirmVault { way, prot, id }, Reply::Vault(r)) => vault_confirmed(
            keep,
            way,
            prot,
            id,
            r,
        ),
        (Phase::FindVault { way, prot }, Reply::Vault(r)) => vault_sought(keep, way, prot, r),
        (Phase::CreateVault { prot }, Reply::Created(r)) => vault_created(keep, prot, r),
        (Phase::Expand { prot, vault, next, found }, Reply::Matches(r)) => pattern_expanded(
            place,
            keep,
            prot,
            vault,
            next,
            found,
            r,
        ),
        (Phase::ReadFile { batch }, Reply::Content(r)) => file_read(keep, batch, r),
        (Phase::Upload { batch, content }, reply) => uploaded(batch, content, reply),
        (Phase::Verify { batch, content, id }, Reply::Document(r)) => verified(
            batch,
            content,
            id,
            r,
        ),
        (Phase::Record { batch, content }, Reply::Ended(r)) => recorded(
            place,
            keep,
            batch,
            content,
            r,
        ),
        (Phase::Save { batch, content }, Reply::Ended(r)) => stored(keep, batch, content).after(
            backup_notice(r),
        ),
        (Phase::Reread { batch, content }, Reply::Content(r)) => reread(batch, content, r),
        (Phase::Remove { batch }, Reply::Removed(r)) => removed(keep, batch, r),
        (Phase::ReadToUnlock, Reply::Prot(reading)) => read_to_unlock(
            place,
            prot::read(paths::prot_path(place).as_str(), reading),
        ),
        (Phase::Probe { recovery }, Reply::Presence(there)) => probed(recovery, there),
        (Phase::Fetch { recovery }, Reply::Document(r)) => fetched(place.style, recovery, r),
        (Phase::Guard { recovery, content, dirs, next }, Reply::Link(link)) => guarded(
            place,
            recovery,
            content,
            dirs,
            next,
            link,
        ),
        (Phase::Restore { recovery, .. }, Reply::Restored(r)) => restored(place, recovery, r),
        (Phase::Finished { outcome }, _) => Turn::quietly(Phase::Finished { outcome }),
        (_, _) => Turn::failing(Failure::UnexpectedReply),
    }
}

/// A run of a command. It asks for one thing at a time and goes on with the
/// reply.
#[derive(Debug)]
pub struct Run {
    place: Place,
    keep: bool,
    phase: Phase,
}

impl View for Run {
    type V = RunView;

    closed spec fn view(&self) -> RunView {
        RunView { place: self.place@, keep: self.keep, phase: self.phase.view() }
    }
}

impl Run {
    /// In a phase that deals with a backup, there is a home directory; in every
    /// phase that goes through a list, something is at hand.
    #[verifier::type_invariant]
    closed spec fn inv(&self) -> bool {
        &&& self.phase.inv()
        &&& model::saves(self.phase.view()) ==> self.place.home is Some
    }

    /// The backup of `.prot` that is to be made.
    fn backup_of(&self, data: &ProtData) -> (r: Option<Request>)
        requires
            self.place.home is Some,
        ensures
            r matches Some(request) && request@ == model::backup_request(self.place@, data@),
    {
        match &self.place.home {
            Some(home) => {
                let saving = backup::save(self.place.style, home.as_str(), &self.place.components);
                Some(
                    Request::SaveBackup {
                        dir: saving.dir,
                        file: saving.file,
                        data: data.clone(),
                    },
                )
            },
            None => None,
        }
    }

    /// What the run asks for next; nothing once it is finished.
    pub fn request(&self) -> (r: Option<Request>)
        ensures
            match r {
                Some(request) => model::request_of(self@) == Some(request@),
                None => model::request_of(self@) is None,
            },
    {
        proof {
            use_type_invariant(&*self);
        }
        match &self.phase {
            Phase::Inspect => Some(Request::ReadProt),
            Phase::Survey { documents, next, .. } => {
                Some(Request::Exists { file: documents[*next].0.clone() })
            },
            Phase::SigningIn { stage, .. } => Some(sign_in_request(*stage)),
            Phase::FindToSetUp => Some(Request::FindVault { name: VAULT_NAME.to_owned() }),
            Phase::CreateToSetUp => Some(
                Request::CreateVault {
                    name: VAULT_NAME.to_owned(),
                    description: VAULT_DESCRIPTION.to_owned(),
                },
            ),
            Phase::ReadToLock => Some(Request::ReadProt),
            Phase::WriteFresh { prot } => Some(Request::WriteProt { data: prot.clone() }),
            Phase::SaveFresh { prot } => self.backup_of(prot),
            Phase::ConfirmVault { id, .. } => Some(Request::VaultName { id: id.clone() }),
            Phase::FindVault { .. } => Some(Request::FindVault { name: VAULT_NAME.to_owned() }),
            Phase::CreateVault { .. } => Some(
                Request::CreateVault {
                    name: VAULT_NAME.to_owned(),
                    description: VAULT_DESCRIPTION.to_owned(),
                },
            ),
            Phase::Expand { prot, next, .. } => {
                assert(prot@.patterns.skip(*next as int)[0] == prot.patterns@[*next as int]@);
                Some(
                    Request::Glob {
                        pattern: expand::search_pattern(
                            &self.place,
                            prot.patterns[*next].as_str(),
                        ),
                    },
                )
            },
            Phase::ReadFile { batch } => Some(Request::ReadFile { file: batch.file().to_owned() }),
            Phase::Upload { batch, content } => Some(upload_request(&self.place, batch, content)),
            Phase::Verify { batch, id, .. } => Some(
                Request::GetDocument { vault: batch.vault.clone(), id: id.clone() },
            ),
            Phase::Record { batch, .. } => Some(Request::WriteProt { data: batch.prot.clone() }),
            Phase::Save { batch, .. } => self.backup_of(&batch.prot),
            Phase::Reread { batch, .. } => Some(
                Request::ReadFile { file: batch.file().to_owned() },
            ),
            Phase::Remove { batch } => Some(Request::RemoveFile { file: batch.file().to_owned() }),
            Phase::ReadToUnlock => Some(Request::ReadProt),
            Phase::Probe { recovery } => Some(
                Request::Exists { file: recovery.file().to_owned() },
            ),
            Phase::Fetch { recovery } => {
                assert(recovery.view().documents[0].1
                    == recovery.documents@[recovery.next as int].1@);
                Some(
                    Request::GetDocument {
                        vault: recovery.vault.clone(),
                        id: recovery.documents[recovery.next].1.clone(),
                    },
                )
            },
            Phase::Guard { dirs, next, .. } => {
                assert(text::texts(dirs@).skip(*next as int)[0] == dirs@[*next as int]@);
                Some(Request::IsLink { dir: dirs[*next].clone() })
            },
            Phase::Restore { recovery, content } => Some(
                Request::WriteNew {
                    file: recovery.file().to_owned(),
                    content: bytes::copy(content),
                    mode: OWNER_ONLY,
                },
            ),
            Phase::Finished { .. } => None,
        }
    }

    /// Goes on with the reply to what was asked for. Also gives what is to be
    /// told the user.
    pub fn resume(self, reply: Reply) -> (r: (Run, Vec<Line>))
        ensures
            r.0@ == model::step(self@, reply@),
            exchange::line_views(r.1@) == model::said(self@, reply@),
    {
        proof {
            use_type_invariant(&self);
            model::lemma_saves(self@.place, self@.keep, self@.phase, reply@);
        }
        let Run { place, keep, phase } = self;
        let turn = moved(&place, keep, phase, reply);
        (Run { place, keep, phase: turn.phase }, turn.lines)
    }

    /// How the run ended; nothing while it goes on.
    pub fn outcome(self) -> (r: Option<Result<(), Error>>)
        ensures
            match (r, self@.phase) {
                (Some(ended), PhaseView::Finished { outcome }) => failure::outcome_of(ended)
                    == outcome,
                (None, PhaseView::Finished { .. }) => false,
                (Some(_), _) => false,
                (None, _) => true,
            },
    {
        match self.phase {
            Phase::Finished { outcome } => Some(outcome),
            _ => None,
        }
    }
}

/// Sets up the vault: creates it where it does not exist yet.
pub fn setup(place: Place) -> (r: Run)
    ensures
        r@ == (RunView {
            place: place@,
            keep: false,
            phase: model::beginning(Command::Setup),
        }),
{
    Run { place, keep: false, phase: beginning(Command::Setup) }
}

/// Locks the protected files: stores each, verifies the copy, then deletes the
/// file, unless files are to be kept.
pub fn lock(place: Place, keep: bool) -> (r: Run)
    ensures
        r@ == (RunView { place: place@, keep, phase: model::beginning(Command::Lock) }),
{
    Run { place, keep, phase: beginning(Command::Lock) }
}

/// Unlocks the protected files: restores those that are not on disk.
pub fn unlock(place: Place) -> (r: Run)
    ensures
        r@ == (RunView { place: place@, keep: false, phase: model::beginning(Command::Unlock) }),
{
    Run { place, keep: false, phase: beginning(Command::Unlock) }
}

/// Locks or unlocks, whichever the files on disk call for.
pub fn toggle(place: Place, keep: bool) -> (r: Run)
    ensures
        r@ == (RunView { place: place@, keep, phase: PhaseView::Inspect }),
{
    Run { place, keep, phase: Phase::Inspect }
}

} // verus!
