//! The commands, run against a vault and a disk that are kept in memory.

use dotprot::commands;
use dotprot::commands::Run;
use dotprot::commands::VAULT_NAME;
use dotprot::exchange::Entry;
use dotprot::exchange::Line;
use dotprot::exchange::Reply;
use dotprot::exchange::Request;
use dotprot::exchange::Restoring;
use dotprot::expand;
use dotprot::failure::Error;
use dotprot::failure::Failure;
use dotprot::op;
use dotprot::op::Answer;
use dotprot::op::OpBackend;
use dotprot::paths;
use dotprot::paths::Component;
use dotprot::paths::Place;
use dotprot::paths::Style;
use dotprot::prot;
use dotprot::prot::ProtData;
use dotprot::prot::Reading;
use dotprot::prot::Standing;
use dotprot::prot::WriteStep;
use dotprot::session::Session;
use dotprot::session::ensure_signed_in;
use dotprot::session::ensure_signed_in_with;
use std::cell::Cell;
use std::cell::RefCell;
use std::path::Path;
use std::rc::Rc;

const PROT_FILE: &str = ".prot";

/// A file on the disk in memory.
#[derive(Clone)]
struct File {
    path: String,
    content: Vec<u8>,
    mode: u32,
}

/// A disk in memory.
#[derive(Default)]
struct Disk {
    files: Vec<File>,
    /// Links that lead nowhere.
    dangling: Vec<String>,
    /// Paths that cannot be looked at.
    hidden: Vec<String>,
    /// Directories that are links.
    linked: Vec<String>,
    /// Paths that cannot be read.
    locked: Vec<String>,
    /// Whether no directory can be created.
    full: bool,
}

impl Disk {
    fn find(&self, path: &str) -> Option<&File> {
        self.files.iter().find(|f| f.path == path)
    }

    fn put(&mut self, path: &str, content: &[u8], mode: u32) {
        self.files.retain(|f| f.path != path);
        self.files.push(File {
            path: path.to_string(),
            content: content.to_vec(),
            mode,
        });
    }

    /// Performs the steps that write a `.prot`.
    fn write_prot(&mut self, path: &str, data: &ProtData) -> Result<(), Error> {
        let standing = self.find(path).map(|f| Standing {
            symlink: false,
            readonly: f.mode & 0o222 == 0,
        });
        let mut temp = (String::new(), 0o600);
        for step in prot::write(Style::Unix, path, standing, data)? {
            match step {
                WriteStep::CreateTemp { .. } => {}
                WriteStep::Fill { text } => temp.0 = text,
                WriteStep::CarryMode => {
                    if let Some(f) = self.find(path) {
                        temp.1 = f.mode;
                    }
                }
                WriteStep::Flush => {}
                WriteStep::Rename => self.put(path, temp.0.clone().as_bytes(), temp.1),
            }
        }
        Ok(())
    }

    /// Answers a request that is not for the vault.
    fn perform(&mut self, cwd: &str, request: &Request) -> Reply {
        let at = |file: &str| format!("{cwd}/{file}");
        match request {
            Request::Confirm { question } => {
                assert_eq!(question, commands::SIGN_IN_QUESTION);
                Reply::Flag(op::prompt_yes_no(Answer::NoTerminal))
            }
            Request::ReadProt => Reply::Prot(match self.find(&at(PROT_FILE)) {
                Some(f) => Reading::Text(String::from_utf8(f.content.clone()).unwrap()),
                None => Reading::Missing,
            }),
            Request::WriteProt { data } => Reply::Ended(self.write_prot(&at(PROT_FILE), data)),
            Request::SaveBackup { dir, file, data } => Reply::Ended(if self.full {
                Err(dotprot::backup::directory_failure(
                    dir,
                    "disk full".to_string(),
                ))
            } else {
                self.write_prot(file, data)
            }),
            Request::Glob { pattern } => Reply::Matches(self.glob(cwd, pattern)),
            Request::ReadFile { file } => Reply::Content(match self.find(&at(file)) {
                Some(f) if !self.locked.contains(file) => Ok(f.content.clone()),
                _ => Err("No such file or directory (os error 2)".to_string()),
            }),
            Request::RemoveFile { file } => {
                let path = at(file);
                self.files.retain(|f| f.path != path);
                Reply::Removed(Ok(()))
            }
            Request::Exists { file } => Reply::Presence(if self.hidden.contains(file) {
                None
            } else {
                Some(self.find(&at(file)).is_some())
            }),
            Request::IsLink { dir } => Reply::Link(if self.hidden.contains(dir) {
                None
            } else {
                Some(self.linked.contains(dir))
            }),
            Request::WriteNew {
                file,
                content,
                mode,
            } => {
                let path = at(file);
                if self.find(&path).is_some() || self.dangling.contains(&path) {
                    return Reply::Restored(Restoring::Refused {
                        cause: "File exists (os error 17)".to_string(),
                    });
                }
                self.put(&path, content, *mode);
                Reply::Restored(Restoring::Written)
            }
            other => panic!("not for the disk: {other:?}"),
        }
    }

    fn glob(&self, cwd: &str, pattern: &str) -> Result<Vec<Entry>, String> {
        let mut options = glob::MatchOptions::new();
        options.require_literal_separator = true;
        let compiled = glob::Pattern::new(pattern).map_err(|e| e.to_string())?;
        Ok(self
            .files
            .iter()
            .filter(|f| compiled.matches_with(&f.path, options))
            .map(|f| Entry::Found {
                shown: f.path.clone(),
                is_file: true,
                relative: Path::new(&f.path)
                    .strip_prefix(cwd)
                    .ok()
                    .map(|p| p.to_string_lossy().to_string()),
            })
            .collect())
    }
}

/// A fake backend that records each call and keeps "uploaded" documents in
/// memory.
struct MockOp {
    /// Ordered log of operations, for asserting sequencing.
    calls: RefCell<Vec<String>>,
    /// id -> bytes, as if stored in 1Password.
    docs: RefCell<Vec<(String, Vec<u8>)>>,
    /// When true, `get_document` returns bytes that differ from what was
    /// uploaded.
    corrupt_readback: bool,
    /// Current sign-in state.
    signed_in: RefCell<bool>,
    /// When true, `sign_in()` does not change the sign-in state.
    signin_fails: bool,
    /// When set, `get_document` rewrites this (path, bytes) on disk.
    rewrite_on_get: Option<(String, Vec<u8>)>,
    /// What `vault_name` reports for any ID.
    vault_name_response: Option<String>,
    /// What `find_vault` reports.
    find_vault_response: Option<String>,
    /// The disk that is rewritten.
    disk: Rc<RefCell<Disk>>,
    /// Titles and file names of uploads.
    titles: RefCell<Vec<(String, String)>>,
}

impl MockOp {
    fn new(disk: &Rc<RefCell<Disk>>) -> Self {
        MockOp {
            calls: RefCell::new(Vec::new()),
            docs: RefCell::new(Vec::new()),
            corrupt_readback: false,
            signed_in: RefCell::new(true),
            signin_fails: false,
            rewrite_on_get: None,
            vault_name_response: Some(VAULT_NAME.to_string()),
            find_vault_response: Some("VAULT".to_string()),
            disk: disk.clone(),
            titles: RefCell::new(Vec::new()),
        }
    }

    fn corrupting(disk: &Rc<RefCell<Disk>>) -> Self {
        let mut m = Self::new(disk);
        m.corrupt_readback = true;
        m
    }

    fn signed_out() -> Self {
        let m = Self::new(&Rc::default());
        *m.signed_in.borrow_mut() = false;
        m
    }

    fn called(&self, name: &str) -> bool {
        self.calls.borrow().iter().any(|c| c == name)
    }

    fn store(&self, id: &str, content: &[u8]) {
        let mut docs = self.docs.borrow_mut();
        if let Some(entry) = docs.iter_mut().find(|(i, _)| i == id) {
            entry.1 = content.to_vec();
        } else {
            docs.push((id.to_string(), content.to_vec()));
        }
    }
}

impl OpBackend for MockOp {
    fn is_signed_in(&self) -> Result<bool, Error> {
        self.calls.borrow_mut().push("is_signed_in".into());
        Ok(*self.signed_in.borrow())
    }
    fn sign_in(&self) -> Result<(), Error> {
        self.calls.borrow_mut().push("sign_in".into());
        if !self.signin_fails {
            *self.signed_in.borrow_mut() = true;
        }
        Ok(())
    }
    fn find_vault(&self, _name: &str) -> Result<Option<String>, Error> {
        self.calls.borrow_mut().push("find_vault".into());
        Ok(self.find_vault_response.clone())
    }
    fn vault_name(&self, _id: &str) -> Result<Option<String>, Error> {
        self.calls.borrow_mut().push("vault_name".into());
        Ok(self.vault_name_response.clone())
    }
    fn create_vault(&self, _name: &str, _description: &str) -> Result<String, Error> {
        self.calls.borrow_mut().push("create_vault".into());
        Ok("VAULT".into())
    }
    fn create_document(
        &self,
        _vault: &str,
        title: &str,
        file_name: &str,
        content: &[u8],
    ) -> Result<String, Error> {
        self.calls.borrow_mut().push("create_document".into());
        self.titles
            .borrow_mut()
            .push((title.to_string(), file_name.to_string()));
        let id = format!("DOC{}", self.docs.borrow().len());
        self.store(&id, content);
        Ok(id)
    }
    fn edit_document(
        &self,
        _vault: &str,
        id: &str,
        title: &str,
        file_name: &str,
        content: &[u8],
    ) -> Result<(), Error> {
        self.calls.borrow_mut().push("edit_document".into());
        self.titles
            .borrow_mut()
            .push((title.to_string(), file_name.to_string()));
        self.store(id, content);
        Ok(())
    }
    fn get_document(&self, _vault: &str, id: &str) -> Result<Vec<u8>, Error> {
        self.calls.borrow_mut().push("get_document".into());
        if let Some((path, bytes)) = &self.rewrite_on_get {
            self.disk.borrow_mut().put(path, bytes, 0o600);
        }
        let bytes = self
            .docs
            .borrow()
            .iter()
            .find(|(i, _)| i == id)
            .map(|(_, b)| b.clone())
            .unwrap_or_default();
        if self.corrupt_readback {
            // Return something that won't match what's on disk.
            Ok(b"CORRUPTED".to_vec())
        } else {
            Ok(bytes)
        }
    }
}

/// A project directory on a disk in memory.
struct Dir {
    cwd: String,
    home: Option<String>,
    disk: Rc<RefCell<Disk>>,
    said: RefCell<Vec<String>>,
    warned: RefCell<Vec<String>>,
}

impl Dir {
    fn at(cwd: &str) -> Self {
        Dir {
            cwd: cwd.to_string(),
            home: None,
            disk: Rc::default(),
            said: RefCell::new(Vec::new()),
            warned: RefCell::new(Vec::new()),
        }
    }

    fn place(&self) -> Place {
        let components = Path::new(&self.cwd)
            .components()
            .map(|c| match c {
                std::path::Component::Normal(n) => {
                    Component::Normal(n.to_string_lossy().to_string())
                }
                _ => Component::RootDir,
            })
            .collect();
        Place {
            cwd: self.cwd.clone(),
            components,
            style: Style::Unix,
            home: self.home.clone(),
        }
    }

    fn path(&self, file: &str) -> String {
        format!("{}/{file}", self.cwd)
    }

    fn has(&self, file: &str) -> bool {
        self.disk.borrow().find(&self.path(file)).is_some()
    }

    fn content(&self, file: &str) -> Vec<u8> {
        self.disk.borrow().find(&self.path(file)).unwrap().content.clone()
    }

    fn put(&self, file: &str, content: &[u8]) {
        let path = self.path(file);
        self.disk.borrow_mut().put(&path, content, 0o644);
    }

    fn prot(&self) -> ProtData {
        let text = String::from_utf8(self.content(PROT_FILE)).unwrap();
        prot::parse(&text)
    }

    fn write_prot(&self, data: &ProtData) {
        let path = self.path(PROT_FILE);
        self.disk.borrow_mut().write_prot(&path, data).unwrap();
    }

    /// Runs a command to its end.
    fn drive(&self, op: &MockOp, run: Run) -> Result<(), Error> {
        let mut session = Session::new(op);
        let mut run = run;
        while let Some(request) = run.request() {
            let reply = match session.ask(&request) {
                Some(reply) => reply,
                None => self.disk.borrow_mut().perform(&self.cwd, &request),
            };
            let (next, lines) = run.resume(reply);
            run = next;
            for line in lines {
                match line {
                    Line::Out(t) => self.said.borrow_mut().push(t),
                    Line::Warn(t) => self.warned.borrow_mut().push(t),
                }
            }
        }
        run.outcome().unwrap()
    }
}

fn lock(op: &MockOp, dir: &Dir, keep: bool) -> Result<(), Error> {
    dir.drive(op, commands::lock(dir.place(), keep))
}

fn unlock(op: &MockOp, dir: &Dir) -> Result<(), Error> {
    dir.drive(op, commands::unlock(dir.place()))
}

fn toggle(op: &MockOp, dir: &Dir, keep: bool) -> Result<(), Error> {
    dir.drive(op, commands::toggle(dir.place(), keep))
}

fn setup(op: &MockOp, dir: &Dir) -> Result<(), Error> {
    dir.drive(op, commands::setup(dir.place()))
}

/// A `.prot` with a single `.env*` pattern, and an `.env` file.
fn setup_dir(secret: &[u8]) -> Dir {
    let dir = Dir::at("/code/project");
    dir.put(".env", secret);
    let mut prot = ProtData::empty();
    prot.vault = Some("VAULT".to_string());
    dir.write_prot(&prot);
    dir
}

#[test]
fn lock_deletes_only_after_successful_readback() {
    let dir = setup_dir(b"SECRET=1\n");
    let op = MockOp::new(&dir.disk);

    lock(&op, &dir, false).unwrap();

    // File is gone, but only because the round-trip matched.
    assert!(!dir.has(".env"), ".env should be deleted");

    // The read-back (get_document) must precede nothing destructive on disk,
    // and must come after the upload. Verify the upload->verify ordering.
    let calls = op.calls.borrow();
    let upload = calls.iter().position(|c| c == "create_document").unwrap();
    let verify = calls.iter().position(|c| c == "get_document").unwrap();
    assert!(
        upload < verify,
        "upload must happen before read-back verify"
    );

    // The document id was persisted to .prot.
    let prot = dir.prot();
    assert_eq!(prot.document_id(".env"), Some("DOC0"));
}

#[test]
fn lock_keeps_file_when_readback_mismatches() {
    let dir = setup_dir(b"SECRET=1\n");
    let op = MockOp::corrupting(&dir.disk);

    // The cardinal rule: a mismatched read-back must NOT delete the file.
    let err = lock(&op, &dir, false).unwrap_err();

    assert!(dir.has(".env"), ".env must survive a failed verification");
    assert!(
        err.message().contains("Verification failed"),
        "expected a verification-failed error, got: {}",
        err.message()
    );
    // And we never recorded a (bogus) success in .prot.
    let prot = dir.prot();
    assert_eq!(prot.document_id(".env"), None);
}

#[test]
fn lock_with_keep_uploads_and_verifies_but_does_not_delete() {
    let dir = setup_dir(b"SECRET=1\n");
    let op = MockOp::new(&dir.disk);

    lock(&op, &dir, true).unwrap();

    assert!(dir.has(".env"), "--keep must leave the file on disk");
    // It was still uploaded and verified (id recorded), so the user can
    // confirm the vault copy before trusting deletion.
    let calls = op.calls.borrow();
    assert!(calls.iter().any(|c| c == "get_document"), "must verify");
    let prot = dir.prot();
    assert_eq!(prot.document_id(".env"), Some("DOC0"));
}

#[test]
fn unlock_restores_file_with_owner_only_mode() {
    let dir = setup_dir(b"SECRET=restored\n");
    let op = MockOp::new(&dir.disk);

    // Lock first (file gets deleted), then unlock to restore it.
    lock(&op, &dir, false).unwrap();
    assert!(!dir.has(".env"));

    unlock(&op, &dir).unwrap();

    assert_eq!(dir.content(".env"), b"SECRET=restored\n");
    let mode = dir.disk.borrow().find(&dir.path(".env")).unwrap().mode;
    assert_eq!(mode & 0o777, 0o600, "restored file must be 0600");
}

#[test]
fn lock_keeps_file_that_changed_during_upload() {
    let dir = setup_dir(b"SECRET=1\n");
    let mut op = MockOp::new(&dir.disk);
    // The vault copy round-trips fine, but the file on disk is rewritten
    // during the verify step — deleting it would lose the new contents.
    op.rewrite_on_get = Some((dir.path(".env"), b"SECRET=2\n".to_vec()));

    let err = lock(&op, &dir, false).unwrap_err();

    assert!(
        err.message().contains("changed on disk"),
        "expected a changed-on-disk error, got: {}",
        err.message()
    );
    assert_eq!(
        dir.content(".env"),
        b"SECRET=2\n",
        "the modified file must survive untouched"
    );
}

#[test]
fn unlock_refuses_to_write_through_dangling_symlink() {
    let dir = setup_dir(b"SECRET=1\n");
    let op = MockOp::new(&dir.disk);
    lock(&op, &dir, false).unwrap();

    // A dangling symlink where .env used to be reads as absent, so unlock
    // proceeds, but the file must not be written through the link.
    let link = dir.path(".env");
    dir.disk.borrow_mut().dangling.push(link);

    let err = unlock(&op, &dir).unwrap_err();
    assert!(
        err.message().contains("refusing to write"),
        "expected a refusal error, got: {}",
        err.message()
    );
    assert_eq!(err.cause(), Some("File exists (os error 17)".to_string()));
    assert!(!dir.has(".env"));
}

/// A project whose `.prot` records one file deep below it, which is stored.
fn nested_dir(op: &MockOp, dir: &Dir) {
    let mut prot = ProtData::empty();
    prot.vault = Some("VAULT".to_string());
    prot.set_document("sub/link/.env", "DOC0");
    dir.write_prot(&prot);
    op.store("DOC0", b"SECRET=1\n");
}

#[test]
fn unlock_restores_below_plain_directories() {
    let dir = Dir::at("/code/project");
    let op = MockOp::new(&dir.disk);
    nested_dir(&op, &dir);
    unlock(&op, &dir).unwrap();
    assert_eq!(dir.content("sub/link/.env"), b"SECRET=1\n");
}

#[test]
fn unlock_refuses_to_write_through_a_linked_directory() {
    for (linked, hidden, told) in [
        (vec!["sub/link"], vec![], "sub/link"),
        (vec!["sub"], vec![], "sub"),
        (vec![], vec!["sub/link"], "sub/link"),
        (vec!["sub/link"], vec!["sub"], "sub"),
    ] {
        let dir = Dir::at("/code/project");
        let op = MockOp::new(&dir.disk);
        nested_dir(&op, &dir);
        dir.disk.borrow_mut().linked = linked.iter().map(|d| d.to_string()).collect();
        dir.disk.borrow_mut().hidden = hidden.iter().map(|d| d.to_string()).collect();
        let err = unlock(&op, &dir).unwrap_err();
        assert_eq!(
            err.message(),
            format!(
                "refusing to write /code/project/sub/link/.env — {told} on the way to it is not \
                 a plain directory (possibly a symlink); remove it and run `dotprot unlock` again"
            )
        );
        assert_eq!(err.cause(), None);
        assert!(!dir.has("sub/link/.env"));
    }
}

#[test]
fn a_link_elsewhere_stops_nothing() {
    let dir = Dir::at("/code/project");
    let op = MockOp::new(&dir.disk);
    nested_dir(&op, &dir);
    dir.disk.borrow_mut().linked = vec!["link".to_string(), "su".to_string()];
    unlock(&op, &dir).unwrap();
    assert!(dir.has("sub/link/.env"));
}

#[test]
fn unlock_rejects_paths_that_escape_the_directory() {
    let dir = setup_dir(b"SECRET=1\n");
    let op = MockOp::new(&dir.disk);
    lock(&op, &dir, false).unwrap();

    // Simulate a tampered .prot: rewrite the recorded entry to a traversal
    // path pointing outside the working directory.
    let mut prot = dir.prot();
    let id = prot.document_id(".env").unwrap().to_string();
    prot.documents = vec![("../escaped.env".to_string(), id)];
    dir.write_prot(&prot);

    let err = unlock(&op, &dir).unwrap_err();
    assert!(
        err.message().contains("Refusing to restore"),
        "expected a traversal refusal, got: {}",
        err.message()
    );
    assert!(
        !dir.has("../escaped.env"),
        "nothing may be written outside the working directory"
    );
}

#[test]
fn unlock_validates_all_paths_before_restoring_anything() {
    let dir = setup_dir(b"SECRET=1\n");
    let op = MockOp::new(&dir.disk);
    lock(&op, &dir, false).unwrap();

    // Tamper: a good entry first, a traversal entry second. Unlock must
    // fail atomically — the good file must NOT be restored first.
    let mut prot = dir.prot();
    let id = prot.document_id(".env").unwrap().to_string();
    prot.documents = vec![
        (".env".to_string(), id.clone()),
        ("../evil".to_string(), id),
    ];
    dir.write_prot(&prot);

    let err = unlock(&op, &dir).unwrap_err();

    assert!(err.message().contains("Refusing to restore"));
    assert!(
        !dir.has(".env"),
        "a tampered .prot must abort before any file is restored"
    );
}

#[test]
fn toggle_rejects_tampered_document_paths() {
    let dir = setup_dir(b"SECRET=1\n");
    let op = MockOp::new(&dir.disk);
    lock(&op, &dir, false).unwrap();

    // A tampered absolute entry must not let toggle probe (and echo the
    // existence of) paths outside the project.
    let mut prot = dir.prot();
    let id = prot.document_id(".env").unwrap().to_string();
    prot.documents.push(("/etc/hosts".to_string(), id));
    dir.write_prot(&prot);

    let err = toggle(&op, &dir, false).unwrap_err();
    assert!(
        err.message().contains("Refusing to restore"),
        "expected toggle to reject the tampered path, got: {}",
        err.message()
    );
}

// --- pattern expansion ----------------------------------------------------------

/// The files that patterns stand for.
fn expand_patterns(dir: &Dir, patterns: &[String]) -> Vec<String> {
    let place = dir.place();
    let mut files = Vec::new();
    for pattern in patterns {
        let found = dir
            .disk
            .borrow()
            .glob(&dir.cwd, &expand::search_pattern(&place, pattern))
            .unwrap();
        let (more, lines) = expand::expand_patterns(&place, files, &found);
        files = more;
        for line in lines {
            match line {
                Line::Warn(t) => dir.warned.borrow_mut().push(t),
                Line::Out(t) => panic!("unexpected: {t}"),
            }
        }
    }
    files
}

#[test]
fn lock_works_in_directory_with_glob_metacharacters() {
    let dir = Dir::at("/tmp/outer/we[i]rd dir");
    dir.put(".env", b"SECRET=1\n");
    let mut prot = ProtData::empty();
    prot.vault = Some("VAULT".to_string());
    dir.write_prot(&prot);

    let op = MockOp::new(&dir.disk);
    lock(&op, &dir, false).unwrap();

    assert!(
        !dir.has(".env"),
        ".env must lock even when the project path contains [ ] metacharacters"
    );
}

#[test]
fn expand_patterns_skips_matches_outside_the_working_directory() {
    let dir = Dir::at("/tmp/outer/project");
    dir.disk
        .borrow_mut()
        .put("/tmp/outer/project/../outside.env", b"SECRET=1\n", 0o600);

    let matches = expand_patterns(&dir, &["../outside.env".to_string()]);

    assert!(
        matches.is_empty(),
        "files outside cwd must not be treated as protectable: {matches:?}"
    );
    assert_eq!(
        *dir.warned.borrow(),
        vec![
            "  warning: /tmp/outer/project/../outside.env is outside /tmp/outer/project — skipped \
             (dotprot only protects files inside the working directory)"
        ]
    );
}

#[test]
fn expand_patterns_does_not_reanchor_absolute_patterns_under_cwd() {
    let dir = Dir::at("/tmp/project");
    dir.put("shared/x.env", b"SECRET=1\n");

    let matches = expand_patterns(&dir, &["/shared/x.env".to_string()]);

    assert!(
        matches.is_empty(),
        "an absolute pattern must not match a cwd-relative file: {matches:?}"
    );
}

#[test]
fn expand_patterns_matches_absolute_pattern_inside_cwd() {
    let dir = Dir::at("/tmp/project");
    dir.put(".env", b"SECRET=1\n");
    let abs = dir.path(".env");

    let matches = expand_patterns(&dir, &[abs]);

    assert_eq!(matches, vec![".env".to_string()]);
}

#[test]
fn expand_patterns_skips_filenames_with_control_characters() {
    let dir = Dir::at("/tmp/project");
    dir.put(".env\nx", b"SECRET=1\n");
    dir.put(".env", b"SECRET=1\n");

    let matches = expand_patterns(&dir, &[".env*".to_string()]);

    assert_eq!(
        matches,
        vec![".env".to_string()],
        "a newline in a filename would corrupt the .prot line format"
    );
    assert_eq!(
        *dir.warned.borrow(),
        vec![
            "  warning: \".env\\nx\" has control characters or leading/trailing whitespace in its \
             name — skipped (unsupported in .prot)"
        ]
    );
}

#[test]
fn expand_patterns_skips_filenames_with_edge_whitespace() {
    let dir = Dir::at("/tmp/project");
    dir.put(".env ", b"SECRET=1\n");
    dir.put(".env", b"SECRET=1\n");

    let matches = expand_patterns(&dir, &[".env*".to_string()]);

    assert_eq!(
        matches,
        vec![".env".to_string()],
        "edge whitespace is trimmed by the .prot parser and must be refused"
    );
}

#[test]
fn expansion_is_sorted_without_duplicates_and_without_prot() {
    let dir = Dir::at("/tmp/project");
    for file in ["b", ".prot", "a", ".env", "sub/c"] {
        dir.put(file, b"x");
    }
    let matches = expand_patterns(
        &dir,
        &["*".to_string(), "sub/*".to_string(), "a".to_string()],
    );
    assert_eq!(matches, vec![".env", "a", "b", "sub/c"]);
}

#[test]
fn only_plain_paths_are_taken() {
    let place = Dir::at("/p").place();
    for path in ["/x", "./x", "../x", "a/../x", "", "."] {
        let entries = vec![Entry::Found {
            shown: "/shown".to_string(),
            is_file: true,
            relative: Some(path.to_string()),
        }];
        let (files, lines) = expand::expand_patterns(&place, Vec::new(), &entries);
        assert!(files.is_empty(), "{path:?}");
        assert_eq!(lines.len(), 1);
        match &lines[0] {
            Line::Warn(text) => assert_eq!(
                text,
                "  warning: /shown is outside /p — skipped (dotprot only protects files inside \
                 the working directory)"
            ),
            Line::Out(_) => panic!("not a warning"),
        }
    }
    let entries = vec![Entry::Found {
        shown: "/p/a/./x".to_string(),
        is_file: true,
        relative: Some("a/./x".to_string()),
    }];
    let (files, lines) = expand::expand_patterns(&place, Vec::new(), &entries);
    assert_eq!(files, vec!["a/./x"]);
    assert!(lines.is_empty());
}

#[test]
fn what_was_locked_is_never_refused() {
    let dir = Dir::at("/code/p");
    for file in [".env", "sub/.env", "sub/deep/.env.x"] {
        dir.put(file, file.as_bytes());
    }
    let mut prot = ProtData::default();
    prot.patterns = vec!["**/.env*".to_string(), ".env".to_string()];
    dir.write_prot(&prot);
    let op = MockOp::new(&dir.disk);
    lock(&op, &dir, false).unwrap();
    let locked = dir.prot();
    for (file, _) in &locked.documents {
        assert!(paths::validate_restore_path(Style::Unix, file).is_ok());
        let count = locked.documents.iter().filter(|(f, _)| f == file).count();
        assert_eq!(count, 1);
        assert!(!dir.has(file));
    }
    unlock(&op, &dir).unwrap();
    for (file, _) in &locked.documents {
        assert_eq!(dir.content(file), file.as_bytes());
    }
}

#[test]
fn what_is_no_file_or_cannot_be_read_is_passed_over() {
    let place = Dir::at("/p").place();
    let entries = vec![
        Entry::Unreadable {
            shown: "/p/secret".to_string(),
        },
        Entry::Found {
            shown: "/p/dir".to_string(),
            is_file: false,
            relative: Some("dir".to_string()),
        },
        Entry::Found {
            shown: "/q/x".to_string(),
            is_file: true,
            relative: None,
        },
        Entry::Found {
            shown: "/p/x".to_string(),
            is_file: true,
            relative: Some("x".to_string()),
        },
    ];
    let (files, lines) = expand::expand_patterns(&place, vec!["a".to_string()], &entries);
    assert_eq!(files, vec!["a", "x"]);
    assert_eq!(lines.len(), 2);
    assert!(
        matches!(&lines[0], Line::Warn(t) if t == "  warning: could not read /p/secret — skipped")
    );
    assert!(matches!(&lines[1], Line::Warn(t) if t.contains("/q/x is outside /p")));
    let warning = expand::unsupported_warning("\"q\"".to_string());
    assert!(matches!(&warning, Line::Warn(t) if t.starts_with("  warning: \"q\" has control")));
}

// --- vault resolution -----------------------------------------------------------

#[test]
fn lock_refuses_vault_id_that_is_not_the_prot_vault() {
    let dir = setup_dir(b"SECRET=1\n");
    let mut op = MockOp::new(&dir.disk);
    // The recorded vault ID resolves to some other vault in the account
    // (tampered or copy-pasted .prot).
    op.vault_name_response = Some("Personal".to_string());

    let err = lock(&op, &dir, false).unwrap_err();

    assert!(
        err.message().contains("is named \"Personal\""),
        "expected a wrong-vault refusal, got: {}",
        err.message()
    );
    assert!(
        !op.called("create_document") && !op.called("edit_document"),
        "must not write documents into a vault that isn't \".prot\""
    );
    assert!(dir.has(".env"), ".env must be untouched");
}

#[test]
fn lock_refuses_vault_id_that_no_longer_exists() {
    let dir = setup_dir(b"SECRET=1\n");
    let mut op = MockOp::new(&dir.disk);
    op.vault_name_response = None; // recorded vault ID resolves to nothing

    let err = lock(&op, &dir, false).unwrap_err();

    assert!(
        err.message().contains("was not found"),
        "expected a vault-not-found error, got: {}",
        err.message()
    );
    assert!(dir.has(".env"), ".env must be untouched");
}

#[test]
fn unlock_errors_instead_of_creating_a_missing_vault() {
    let dir = setup_dir(b"SECRET=1\n");
    let op = MockOp::new(&dir.disk);
    lock(&op, &dir, false).unwrap();

    // Simulate a .prot with documents recorded but no usable vault: drop
    // the cached ID and make the by-name lookup come up empty.
    let mut prot = dir.prot();
    prot.vault = None;
    dir.write_prot(&prot);
    let mut op = MockOp::new(&dir.disk);
    op.find_vault_response = None;

    let err = unlock(&op, &dir).unwrap_err();

    assert!(
        err.message().contains("No \".prot\" vault found"),
        "expected a missing-vault error, got: {}",
        err.message()
    );
    assert!(
        !op.called("create_vault"),
        "unlock must never create a vault — the recorded documents \
         couldn't be in a fresh one"
    );
}

// --- sign-in orchestration --------------------------------------------------------

#[test]
fn ensure_signed_in_is_noop_when_already_signed_in() {
    let op = MockOp::new(&Rc::default()); // starts signed in
    ensure_signed_in_with(&mut Session::new(&op), || {
        panic!("must not prompt when already signed in")
    })
    .unwrap();
    assert!(
        !op.called("sign_in"),
        "must not sign in when already signed in"
    );
}

#[test]
fn ensure_signed_in_signs_in_when_user_confirms() {
    let op = MockOp::signed_out();
    // User says yes.
    ensure_signed_in_with(&mut Session::new(&op), || Ok(true)).unwrap();
    assert!(op.called("sign_in"), "should have run sign_in on confirm");
}

#[test]
fn ensure_signed_in_errors_and_skips_signin_when_user_declines() {
    let op = MockOp::signed_out();
    // User says no (this is also the non-interactive fallback: confirm = false).
    let err = ensure_signed_in_with(&mut Session::new(&op), || Ok(false)).unwrap_err();
    assert!(
        err.message().contains("not signed in"),
        "expected a not-signed-in error, got: {}",
        err.message()
    );
    assert!(
        !op.called("sign_in"),
        "must not sign in when the user declines / non-interactive"
    );
}

#[test]
fn ensure_signed_in_errors_when_signin_does_not_take() {
    let mut op = MockOp::signed_out();
    op.signin_fails = true; // op signin "succeeds" but session still unusable
    let err = ensure_signed_in_with(&mut Session::new(&op), || Ok(true)).unwrap_err();
    assert!(
        err.message().contains("Still not signed in"),
        "expected a post-signin failure, got: {}",
        err.message()
    );
}

#[test]
fn ensure_signed_in_puts_the_question_and_passes_errors_on() {
    let op = MockOp::signed_out();
    let asked = Cell::new(false);
    let err = ensure_signed_in(&mut Session::new(&op), |question: &str| {
        asked.set(question == "You are not signed in to 1Password. Sign in now?");
        Err(Failure::Outside {
            message: "terminal gone".to_string(),
        })
    })
    .unwrap_err();
    assert!(asked.get());
    assert_eq!(err.message(), "terminal gone");
    ensure_signed_in(&mut Session::new(&op), |_: &str| Ok(true)).unwrap();
    assert_eq!(
        *op.calls.borrow(),
        vec!["is_signed_in", "is_signed_in", "sign_in", "is_signed_in"]
    );
}

#[test]
fn lock_aborts_without_touching_files_when_not_signed_in() {
    let dir = setup_dir(b"SECRET=1\n");
    // Signed out; non-interactive test harness means the prompt resolves to
    // "no", so lock must bail before uploading or deleting anything.
    let op = MockOp::signed_out();

    let err = lock(&op, &dir, false).unwrap_err();

    assert!(err.message().contains("not signed in"));
    assert!(
        dir.has(".env"),
        ".env must be untouched when not signed in"
    );
    assert!(
        !op.called("create_document"),
        "must not upload when signed out"
    );
}

// --- whole runs -------------------------------------------------------------------

#[test]
fn a_first_lock_says_what_it_does() {
    let dir = Dir::at("/code/new");
    dir.put(".env", b"A=1\n");
    dir.put(".env.empty", b"");
    let mut op = MockOp::new(&dir.disk);
    op.find_vault_response = None;

    toggle(&op, &dir, false).unwrap();

    assert_eq!(
        *dir.said.borrow(),
        vec![
            "Created .prot (protecting: .env*).",
            "Created 1Password vault \".prot\" (VAULT).",
            "(one-time setup — future runs reuse it)",
            "  locked .env -> 1Password",
            "  skip .env.empty (empty file — nothing to protect)",
            "Locked 1 file(s) into vault \".prot\".",
        ]
    );
    assert!(!dir.has(".env"));
    assert!(dir.has(".env.empty"));
    assert_eq!(dir.prot().vault.as_deref(), Some("VAULT"));
    assert_eq!(
        *op.titles.borrow(),
        vec![("/code/new/.env".to_string(), ".env".to_string())]
    );
}

#[test]
fn toggling_back_and_forth_restores_the_bytes() {
    let dir = Dir::at("/code/p");
    let bytes: Vec<u8> = (0..=255).collect();
    dir.put(".env", &bytes);
    let op = MockOp::new(&dir.disk);
    toggle(&op, &dir, false).unwrap();
    assert!(!dir.has(".env"));
    toggle(&op, &dir, false).unwrap();
    assert_eq!(dir.content(".env"), bytes);
    assert_eq!(
        dir.said.borrow().last().unwrap(),
        "Unlocked 1 file(s) from vault \".prot\"."
    );
    // Locking once more replaces the document in place.
    dir.put(".env", b"NEW=1\n");
    toggle(&op, &dir, false).unwrap();
    assert!(op.called("edit_document"));
    assert_eq!(op.docs.borrow().len(), 1);
    assert_eq!(op.docs.borrow()[0].1, b"NEW=1\n");
    assert_eq!(dir.prot().documents.len(), 1);
}

#[test]
fn keeping_says_so() {
    let dir = setup_dir(b"A=1\n");
    let op = MockOp::new(&dir.disk);
    lock(&op, &dir, true).unwrap();
    assert_eq!(
        *dir.said.borrow(),
        vec![
            "  uploaded .env -> 1Password (kept on disk)",
            "Uploaded 1 file(s) to vault \".prot\". Originals kept on disk (--keep); run `dotprot \
             lock` to remove them.",
        ]
    );
}

#[test]
fn nothing_to_lock_is_an_error() {
    let dir = Dir::at("/code/none");
    let mut prot = ProtData::default();
    prot.patterns = vec!["a".to_string(), "b*".to_string()];
    dir.write_prot(&prot);
    let op = MockOp::new(&dir.disk);
    let err = lock(&op, &dir, false).unwrap_err();
    assert_eq!(
        err.message(),
        "No files match the patterns in .prot (a, b*).\n\
         Either the files are already locked, or no matching files exist."
    );
    prot.patterns = vec![];
    dir.write_prot(&prot);
    assert!(matches!(
        lock(&op, &dir, false),
        Err(Failure::NothingMatches { .. })
    ));
    prot.patterns = vec!["a***".to_string()];
    dir.write_prot(&prot);
    assert!(matches!(
        lock(&op, &dir, false),
        Err(Failure::Outside { .. })
    ));
}

#[test]
fn locking_stops_at_the_first_failure_and_keeps_what_is_done() {
    let dir = Dir::at("/code/p");
    for file in [".env.a", ".env.b", ".env.c"] {
        dir.put(file, file.as_bytes());
    }
    dir.disk.borrow_mut().locked.push(".env.b".to_string());
    let op = MockOp::new(&dir.disk);
    let err = lock(&op, &dir, false).unwrap_err();
    assert_eq!(err.message(), "No such file or directory (os error 2)");
    assert!(!dir.has(".env.a"));
    assert!(dir.has(".env.b") && dir.has(".env.c"));
    assert_eq!(dir.prot().document_id(".env.a"), Some("DOC0"));
}

#[test]
fn deleted_files_stay_recorded_in_every_later_write() {
    let dir = Dir::at("/code/p");
    for file in [".env.a", ".env.b", ".env.c"] {
        dir.put(file, file.as_bytes());
    }
    let op = MockOp::new(&dir.disk);
    let mut session = Session::new(&op);
    let mut run = commands::lock(dir.place(), false);
    let mut removed: Vec<String> = Vec::new();
    let mut writes = 0;
    while let Some(request) = run.request() {
        match &request {
            Request::WriteProt { data } => {
                writes += 1;
                for (i, file) in removed.iter().enumerate() {
                    assert_eq!(data.document_id(file), Some(format!("DOC{i}").as_str()));
                }
            }
            Request::RemoveFile { file } => removed.push(file.clone()),
            _ => {}
        }
        let reply = match session.ask(&request) {
            Some(reply) => reply,
            None => dir.disk.borrow_mut().perform(&dir.cwd, &request),
        };
        run = run.resume(reply).0;
    }
    assert_eq!(removed, vec![".env.a", ".env.b", ".env.c"]);
    assert_eq!(writes, 4);
}

#[test]
fn nothing_to_unlock_is_an_error() {
    let dir = Dir::at("/code/none");
    let op = MockOp::new(&dir.disk);
    assert_eq!(
        unlock(&op, &dir).unwrap_err().message(),
        "No .prot found in /code/none. Nothing to unlock."
    );
    dir.write_prot(&ProtData::empty());
    assert_eq!(
        unlock(&op, &dir).unwrap_err().message(),
        ".prot has no locked documents recorded. Nothing to unlock."
    );
}

#[test]
fn unlocking_leaves_what_is_there() {
    let dir = setup_dir(b"A=1\n");
    let op = MockOp::new(&dir.disk);
    lock(&op, &dir, false).unwrap();
    dir.put(".env", b"MINE=1\n");
    unlock(&op, &dir).unwrap();
    assert_eq!(dir.content(".env"), b"MINE=1\n");
    assert_eq!(
        dir.said.borrow()[2..],
        [
            "  skip .env (already present on disk)",
            "Unlocked 0 file(s) from vault \".prot\"."
        ]
    );
    // What cannot be looked at counts as being there.
    let path = dir.path(".env");
    dir.disk.borrow_mut().files.retain(|f| f.path != path);
    dir.disk.borrow_mut().hidden.push(".env".to_string());
    unlock(&op, &dir).unwrap();
    assert!(!dir.has(".env"));
    assert!(commands::file_exists(None));
}

#[test]
fn a_mixed_state_is_told() {
    let dir = Dir::at("/code/p");
    for file in [".env.a", ".env.b", ".env.c"] {
        dir.put(file, b"x");
    }
    let op = MockOp::new(&dir.disk);
    lock(&op, &dir, false).unwrap();
    dir.put(".env.b", b"y");
    let err = toggle(&op, &dir, false).unwrap_err();
    assert_eq!(
        err.message(),
        "Mixed state: some recorded files are present on disk and others are missing, so it's \
         unclear whether you mean to lock or unlock.\n  present: .env.b\n  missing: .env.a, .env.c\n\
         Use `dotprot lock` or `dotprot unlock` explicitly to resolve the ambiguity."
    );
}

#[test]
fn setting_up_creates_the_vault_once() {
    let dir = Dir::at("/code/p");
    let mut op = MockOp::new(&dir.disk);
    setup(&op, &dir).unwrap();
    assert!(!op.called("create_vault"));
    op.find_vault_response = None;
    setup(&op, &dir).unwrap();
    assert!(op.called("create_vault"));
    assert_eq!(
        *dir.said.borrow(),
        vec![
            "Vault \".prot\" already exists (VAULT).",
            "Created vault \".prot\" (VAULT)."
        ]
    );
}

#[test]
fn every_write_is_mirrored_below_the_home_directory() {
    let mut dir = Dir::at("/code/p");
    dir.home = Some("/home/me".to_string());
    dir.put(".env", b"A=1\n");
    let op = MockOp::new(&dir.disk);
    lock(&op, &dir, false).unwrap();
    let disk = dir.disk.borrow();
    let saved = disk.find("/home/me/.prot/backups/code/p/.prot").unwrap();
    let held = disk.find("/code/p/.prot").unwrap();
    assert_eq!(saved.content, held.content);
    assert!(dir.warned.borrow().is_empty());
}

#[test]
fn a_backup_that_fails_never_stops_a_lock() {
    let mut dir = Dir::at("/code/p");
    dir.home = Some("/home/me".to_string());
    dir.put(".env", b"A=1\n");
    dir.disk.borrow_mut().full = true;
    let op = MockOp::new(&dir.disk);
    lock(&op, &dir, false).unwrap();
    assert!(!dir.has(".env"));
    assert_eq!(
        *dir.warned.borrow(),
        vec![
            "  warning: could not back up .prot: creating backup directory \
             /home/me/.prot/backups/code/p";
            2
        ]
    );
}

#[test]
fn a_frozen_prot_stops_a_lock_before_anything_is_deleted() {
    let dir = setup_dir(b"A=1\n");
    let text = dir.content(PROT_FILE);
    let path = dir.path(PROT_FILE);
    dir.disk.borrow_mut().put(&path, &text, 0o444);
    let op = MockOp::new(&dir.disk);
    let err = lock(&op, &dir, false).unwrap_err();
    assert!(matches!(err, Failure::ReadOnly { .. }));
    assert!(dir.has(".env"));
}

#[test]
fn a_reply_that_does_not_fit_ends_the_run() {
    let run = commands::lock(Dir::at("/p").place(), false);
    let (run, lines) = run.resume(Reply::Removed(Ok(())));
    assert!(lines.is_empty());
    assert!(run.request().is_none());
    let (run, _) = run.resume(Reply::Flag(Ok(true)));
    assert!(matches!(
        run.outcome(),
        Some(Err(Failure::UnexpectedReply))
    ));
    assert!(
        commands::lock(Dir::at("/p").place(), false)
            .outcome()
            .is_none()
    );
}

#[test]
fn failures_of_the_disk_are_passed_on() {
    let at_remove = |reply: Reply| {
        let dir = setup_dir(b"A=1\n");
        let op = MockOp::new(&dir.disk);
        let mut session = Session::new(&op);
        let mut run = commands::lock(dir.place(), false);
        let mut reads = 0;
        loop {
            let request = run.request().unwrap();
            let reread = matches!(request, Request::ReadFile { .. }) && {
                reads += 1;
                reads == 2
            };
            let here = match reply {
                Reply::Removed(_) => matches!(request, Request::RemoveFile { .. }),
                _ => reread,
            };
            if here {
                return run.resume(reply).0.outcome().unwrap().unwrap_err();
            }
            let answer = match session.ask(&request) {
                Some(answer) => answer,
                None => dir.disk.borrow_mut().perform(&dir.cwd, &request),
            };
            run = run.resume(answer).0;
        }
    };
    let e = at_remove(Reply::Removed(Err("busy".to_string())));
    assert_eq!(e.message(), "busy");
    let e = at_remove(Reply::Content(Err("gone".to_string())));
    assert_eq!(e.message(), "re-reading .env before delete");
    assert_eq!(e.cause(), Some("gone".to_string()));
    let e = at_remove(Reply::Content(Ok(b"other".to_vec())));
    assert_eq!(
        e.message(),
        ".env changed on disk while it was being uploaded, so the copy in 1Password is already \
         stale. Left .env in place — run `dotprot lock` again to store the new contents."
    );
}

#[test]
fn locking_keeps_the_users_patterns_and_other_entries() {
    let dir = Dir::at("/code/p");
    dir.put(".env", b"A=1\n");
    let mut prot = ProtData::default();
    prot.patterns = vec!["*.key".to_string(), ".env".to_string()];
    prot.set_document("old.key", "DOC_OLD");
    dir.write_prot(&prot);
    let op = MockOp::new(&dir.disk);
    lock(&op, &dir, false).unwrap();
    let after = dir.prot();
    assert_eq!(after.patterns, prot.patterns);
    assert_eq!(
        after.documents,
        vec![
            ("old.key".to_string(), "DOC_OLD".to_string()),
            (".env".to_string(), "DOC0".to_string())
        ]
    );
    assert_eq!(after.vault.as_deref(), Some("VAULT"));
}

#[test]
fn unlocking_changes_neither_vault_nor_prot() {
    let dir = setup_dir(b"A=1\n");
    lock(&MockOp::new(&dir.disk), &dir, false).unwrap();
    let before = dir.content(PROT_FILE);
    let op = MockOp::new(&dir.disk);
    op.store("DOC0", b"A=1\n");
    unlock(&op, &dir).unwrap();
    assert_eq!(dir.content(PROT_FILE), before);
    assert_eq!(
        *op.calls.borrow(),
        vec!["is_signed_in", "vault_name", "get_document"]
    );
    assert_eq!(dir.content(".env"), b"A=1\n");
}

#[test]
fn lock_does_its_work_in_order() {
    let dir = setup_dir(b"A=1\n");
    let op = MockOp::new(&dir.disk);
    lock(&op, &dir, false).unwrap();
    assert_eq!(
        *op.calls.borrow(),
        vec![
            "is_signed_in",
            "vault_name",
            "create_document",
            "get_document"
        ]
    );
}
