//! What failures tell.

use crate::failure;
use crate::failure::Failure;
use crate::text;
use vstd::prelude::*;

verus! {

/// What a failure is about: the files, directories, vaults, patterns and texts
/// that its message must name.
pub open spec fn subjects(f: Failure<Seq<char>>) -> Seq<Seq<char>> {
    match f {
        Failure::WrongVault { id, name } => seq![id, name],
        Failure::VaultGone { id } => seq![id],
        Failure::NothingMatches { patterns } => seq![patterns],
        Failure::VerificationFailed { file } => seq![file],
        Failure::ChangedOnDisk { file } => seq![file],
        Failure::Reread { file, .. } => seq![file],
        Failure::NoProt { dir } => seq![dir],
        Failure::RefusedPath { file } => seq![file],
        Failure::MixedState { present, missing } => seq![present, missing],
        Failure::RestoreRefused { path, .. } => seq![path],
        Failure::LinkedDirectory { path, dir } => seq![path, dir],
        Failure::ReadFailed { path, .. } => seq![path],
        Failure::Symlinked { path } => seq![path],
        Failure::ReadOnly { path } => seq![path],
        Failure::TempFailed { path, .. } => seq![path],
        Failure::WriteFailed { path, .. } => seq![path],
        Failure::ModeFailed { path, .. } => seq![path],
        Failure::FlushFailed { path, .. } => seq![path],
        Failure::BackupDir { path, .. } => seq![path],
        Failure::OpNotRun { reason } => seq![reason],
        Failure::SigninNotRun { reason } => seq![reason],
        Failure::Op(told) => seq![told.stderr],
        Failure::BadJson { text, .. } => seq![text],
        Failure::NoId { text } => seq![text],
        Failure::NoName { id } => seq![id],
        Failure::Outside { message } => seq![message],
        _ => seq![],
    }
}

proof fn lemma_inside(whole: Seq<char>, a: Seq<char>, part: Seq<char>, b: Seq<char>)
    requires
        whole == a + part + b,
    ensures
        text::has(whole, part),
{
    let i = a.len() as int;
    assert(whole.subrange(i, i + part.len()) =~= part);
    assert(text::occurs_at(whole, part, i));
}

proof fn lemma_first_subject(f: Failure<Seq<char>>)
    requires
        subjects(f).len() > 0,
    ensures
        text::has(failure::message_of(f), subjects(f)[0]),
{
    let m = failure::message_of(f);
    let part = subjects(f)[0];
    let none = Seq::<char>::empty();
    match f {
        Failure::WrongVault { id, name } => {
            let a = "The vault recorded in .prot ("@;
            let b = m.skip((a + id).len() as int);
            assert(m =~= a + id + b);
            lemma_inside(m, a, id, b);
        },
        Failure::VaultGone { id } => {
            let a = "The vault recorded in .prot ("@;
            let b = m.skip((a + id).len() as int);
            assert(m =~= a + id + b);
            lemma_inside(m, a, id, b);
        },
        Failure::NothingMatches { patterns } => {
            let a = "No files match the patterns in .prot ("@;
            let b = m.skip((a + patterns).len() as int);
            assert(m =~= a + patterns + b);
            lemma_inside(m, a, patterns, b);
        },
        Failure::VerificationFailed { file } => {
            let a = "Verification failed for "@;
            let b = m.skip((a + file).len() as int);
            assert(m =~= a + file + b);
            lemma_inside(m, a, file, b);
        },
        Failure::ChangedOnDisk { file } => {
            let b = m.skip(file.len() as int);
            assert(m =~= none + file + b);
            lemma_inside(m, none, file, b);
        },
        Failure::Reread { file, .. } => {
            let a = "re-reading "@;
            let b = m.skip((a + file).len() as int);
            assert(m =~= a + file + b);
            lemma_inside(m, a, file, b);
        },
        Failure::NoProt { dir } => {
            let a = "No .prot found in "@;
            let b = m.skip((a + dir).len() as int);
            assert(m =~= a + dir + b);
            lemma_inside(m, a, dir, b);
        },
        Failure::RefusedPath { file } => {
            let a = "Refusing to restore \""@;
            let b = m.skip((a + file).len() as int);
            assert(m =~= a + file + b);
            lemma_inside(m, a, file, b);
        },
        Failure::MixedState { present, missing } => {
            let a = "Mixed state: some recorded files are present on disk and others are missing, so it's unclear whether you mean to lock or unlock.\n  present: "@;
            let b = m.skip((a + present).len() as int);
            assert(m =~= a + present + b);
            lemma_inside(m, a, present, b);
        },
        Failure::RestoreRefused { path, .. } => {
            let a = "refusing to write "@;
            let b = m.skip((a + path).len() as int);
            assert(m =~= a + path + b);
            lemma_inside(m, a, path, b);
        },
        Failure::LinkedDirectory { path, dir } => {
            let a = "refusing to write "@;
            let b = m.skip((a + path).len() as int);
            assert(m =~= a + path + b);
            lemma_inside(m, a, path, b);
        },
        Failure::Symlinked { path } => {
            let b = m.skip(path.len() as int);
            assert(m =~= none + path + b);
            lemma_inside(m, none, path, b);
        },
        Failure::ReadOnly { path } => {
            let b = m.skip(path.len() as int);
            assert(m =~= none + path + b);
            lemma_inside(m, none, path, b);
        },
        Failure::NoName { id } => {
            let a = "op's response for vault "@;
            let b = m.skip((a + id).len() as int);
            assert(m =~= a + id + b);
            lemma_inside(m, a, id, b);
        },
        _ => {
            let a = m.take(m.len() - part.len());
            assert(m =~= a + part + none);
            lemma_inside(m, a, part, none);
        },
    }
}

/// A failure's message names all that the failure is about.
pub proof fn a_message_names_what_it_is_about(f: Failure<Seq<char>>, k: int)
    requires
        0 <= k < subjects(f).len(),
    ensures
        text::has(failure::message_of(f), subjects(f)[k]),
{
    let m = failure::message_of(f);
    lemma_first_subject(f);
    if k > 0 {
        match f {
            Failure::WrongVault { id, name } => {
                let a = "The vault recorded in .prot ("@ + id + ") is named \""@;
                let b = m.skip((a + name).len() as int);
                assert(m =~= a + name + b);
                lemma_inside(m, a, name, b);
            },
            Failure::MixedState { present, missing } => {
                let a = "Mixed state: some recorded files are present on disk and others are missing, so it's unclear whether you mean to lock or unlock.\n  present: "@
                    + present + "\n  missing: "@;
                let b = m.skip((a + missing).len() as int);
                assert(m =~= a + missing + b);
                lemma_inside(m, a, missing, b);
            },
            Failure::LinkedDirectory { path, dir } => {
                let a = "refusing to write "@ + path + " — "@;
                let b = m.skip((a + dir).len() as int);
                assert(m =~= a + dir + b);
                lemma_inside(m, a, dir, b);
            },
            _ => {},
        }
    }
}

/// What lies beneath a failure is told just where its message is only the
/// context, and as it came.
pub proof fn a_cause_is_told_as_it_came(f: Failure<Seq<char>>)
    ensures
        match f {
            Failure::Reread { cause, .. } => failure::cause_of(f) == Some(cause),
            Failure::RestoreRefused { cause, .. } => failure::cause_of(f) == Some(cause),
            Failure::ReadFailed { cause, .. } => failure::cause_of(f) == Some(cause),
            Failure::TempFailed { cause, .. } => failure::cause_of(f) == Some(cause),
            Failure::WriteFailed { cause, .. } => failure::cause_of(f) == Some(cause),
            Failure::ModeFailed { cause, .. } => failure::cause_of(f) == Some(cause),
            Failure::FlushFailed { cause, .. } => failure::cause_of(f) == Some(cause),
            Failure::BackupDir { cause, .. } => failure::cause_of(f) == Some(cause),
            Failure::BadJson { cause, .. } => failure::cause_of(f) == Some(cause),
            Failure::StageDir { cause } => failure::cause_of(f) == Some(cause),
            Failure::StageOpen { cause } => failure::cause_of(f) == Some(cause),
            Failure::StageWrite { cause } => failure::cause_of(f) == Some(cause),
            _ => failure::cause_of(f) is None,
        },
{
}

/// What `op` told on standard error, and what the operating system told, is the
/// message, unchanged.
pub proof fn what_others_told_is_told_unchanged(f: Failure<Seq<char>>)
    ensures
        f matches Failure::Op(told) ==> failure::message_of(f) == told.stderr,
        f matches Failure::Outside { message } ==> failure::message_of(f) == message,
{
}

} // verus!
