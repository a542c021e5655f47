//! The `.prot` file.
//!
//! A managed header block, a sentinel line, then the user's list of file
//! patterns, one per line. Everything above the sentinel belongs to the
//! program and is rewritten freely; everything below it belongs to the user.
//!
//! ```text
//! # dotprot — managed below, do not edit
//! vault: abcd1234...
//! doc .env: wxyz5678...
//! doc config/secrets.json: efgh9012...
//!
//! # ---- your files (edit below) ----
//! .env*
//! config/secrets.json
//! ```

use crate::failure::Error;
use crate::failure::Failure;
use crate::paths::Style;
use crate::text;
use vstd::prelude::*;

verus! {

/// The name of the file that holds a project's state.
pub const PROT_FILE: &'static str = ".prot";

/// The line between the managed header and the user's patterns.
pub const SENTINEL: &'static str = "# ---- your files (edit below) ----";

/// The first line of the managed header.
pub const HEADER_NOTE: &'static str = "# dotprot — managed below, do not edit";

/// What a `.prot` file says.
#[derive(Debug)]
pub struct ProtData {
    /// The vault's ID, once it is known.
    pub vault: Option<String>,
    /// The relative path of each locked file with the ID of its document, in
    /// the order in which they were first recorded.
    pub documents: Vec<(String, String)>,
    /// The user's glob patterns of files to protect.
    pub patterns: Vec<String>,
}

/// The contents of [`ProtData`] as mathematical values.
#[verifier::ext_equal]
pub struct ProtView {
    pub vault: Option<Seq<char>>,
    pub documents: Seq<(Seq<char>, Seq<char>)>,
    pub patterns: Seq<Seq<char>>,
}

/// The views of a list of recorded documents.
pub open spec fn entries(list: Seq<(String, String)>) -> Seq<(Seq<char>, Seq<char>)> {
    list.map_values(|entry: (String, String)| (entry.0@, entry.1@))
}

/// The view of a text that may be absent.
pub open spec fn maybe(t: Option<String>) -> Option<Seq<char>> {
    match t {
        Some(s) => Some(s@),
        None => None,
    }
}

impl View for ProtData {
    type V = ProtView;

    open spec fn view(&self) -> ProtView {
        ProtView {
            vault: maybe(self.vault),
            documents: entries(self.documents@),
            patterns: text::texts(self.patterns@),
        }
    }
}

// ---------------------------------------------------------------------------
// recorded documents
// ---------------------------------------------------------------------------
/// The index of the first entry for `file`.
pub open spec fn position(
    documents: Seq<(Seq<char>, Seq<char>)>,
    file: Seq<char>,
) -> Option<int>
    decreases documents.len(),
{
    if documents.len() == 0 {
        None
    } else if documents[0].0 == file {
        Some(0)
    } else {
        match position(documents.skip(1), file) {
            Some(i) => Some(i + 1),
            None => None,
        }
    }
}

/// The document ID recorded for `file`.
pub open spec fn recorded_id(
    documents: Seq<(Seq<char>, Seq<char>)>,
    file: Seq<char>,
) -> Option<Seq<char>> {
    match position(documents, file) {
        Some(i) => Some(documents[i].1),
        None => None,
    }
}

/// The entries once `id` is recorded for `file`: the entry is updated where
/// there is one, and appended where there is none.
pub open spec fn with_document(
    documents: Seq<(Seq<char>, Seq<char>)>,
    file: Seq<char>,
    id: Seq<char>,
) -> Seq<(Seq<char>, Seq<char>)> {
    match position(documents, file) {
        Some(i) => documents.update(i, (file, id)),
        None => documents.push((file, id)),
    }
}

/// `position` gives the least index whose entry is for `file`.
pub proof fn lemma_position(documents: Seq<(Seq<char>, Seq<char>)>, file: Seq<char>)
    ensures
        match position(documents, file) {
            Some(i) => {
                &&& 0 <= i < documents.len()
                &&& documents[i].0 == file
                &&& forall|j: int| 0 <= j < i ==> documents[j].0 != file
            },
            None => forall|j: int| 0 <= j < documents.len() ==> documents[j].0 != file,
        },
    decreases documents.len(),
{
    if documents.len() > 0 && documents[0].0 != file {
        let rest = documents.skip(1);
        lemma_position(rest, file);
        assert forall|j: int| 1 <= j < documents.len() implies documents[j] == rest[j - 1] by {}
        match position(rest, file) {
            Some(i) => {
                assert forall|j: int| 0 <= j < i + 1 implies documents[j].0 != file by {
                    if j > 0 {
                        assert(rest[j - 1].0 != file);
                    }
                }
            },
            None => {
                assert forall|j: int| 0 <= j < documents.len() implies documents[j].0 != file by {
                    if j > 0 {
                        assert(rest[j - 1].0 != file);
                    }
                }
            },
        }
    }
}

/// An index that is the least one of its file is what `position` gives.
proof fn lemma_position_is(documents: Seq<(Seq<char>, Seq<char>)>, file: Seq<char>, i: int)
    requires
        0 <= i < documents.len(),
        documents[i].0 == file,
        forall|j: int| 0 <= j < i ==> documents[j].0 != file,
    ensures
        position(documents, file) == Some(i),
{
    lemma_position(documents, file);
}

/// The contents written where there is no `.prot` yet.
pub open spec fn fresh() -> ProtView {
    ProtView { vault: None, documents: seq![], patterns: seq![".env*"@] }
}

impl ProtData {
    /// The contents written where there is no `.prot` yet.
    pub fn empty() -> (r: Self)
        ensures
            r@ == fresh(),
    {
        let mut patterns: Vec<String> = Vec::new();
        patterns.push(".env*".to_owned());
        let r = ProtData { vault: None, documents: Vec::new(), patterns };
        assert(r@ =~= fresh());
        r
    }

    /// The index of the first entry for `file`.
    fn entry_for(&self, file: &str) -> (r: Option<usize>)
        ensures
            match r {
                Some(i) => i < self.documents@.len() && position(self@.documents, file@) == Some(
                    i as int,
                ),
                None => position(self@.documents, file@) is None,
            },
    {
        let mut i: usize = 0;
        while i < self.documents.len()
            invariant
                i <= self.documents@.len(),
                forall|j: int| 0 <= j < i ==> (#[trigger] self@.documents[j]).0 != file@,
            decreases self.documents@.len() - i,
        {
            assert(self@.documents[i as int] == (self.documents@[i as int].0@, self.documents@[i as int].1@));
            if text::same(self.documents[i].0.as_str(), file) {
                proof {
                    lemma_position_is(self@.documents, file@, i as int);
                }
                return Some(i);
            }
            i += 1;
        }
        proof {
            lemma_position(self@.documents, file@);
        }
        None
    }

    /// The document ID recorded for a file.
    pub fn document_id(&self, file: &str) -> (r: Option<&str>)
        ensures
            match r {
                Some(id) => recorded_id(self@.documents, file@) == Some(id@),
                None => recorded_id(self@.documents, file@) is None,
            },
    {
        match self.entry_for(file) {
            Some(i) => Some(self.documents[i].1.as_str()),
            None => None,
        }
    }

    /// Records the document ID of a file.
    pub fn set_document(&mut self, file: &str, id: &str)
        ensures
            final(self)@ == (ProtView {
                documents: with_document(old(self)@.documents, file@, id@),
                ..old(self)@
            }),
    {
        let ghost before = self@;
        match self.entry_for(file) {
            Some(i) => {
                self.documents.set(i, (file.to_owned(), id.to_owned()));
                assert(self@.documents =~= before.documents.update(i as int, (file@, id@)));
            },
            None => {
                self.documents.push((file.to_owned(), id.to_owned()));
                assert(self@.documents =~= before.documents.push((file@, id@)));
            },
        }
    }
}

impl Default for ProtData {
    fn default() -> (r: Self)
        ensures
            r@ == (ProtView { vault: None, documents: seq![], patterns: seq![] }),
    {
        let r = ProtData { vault: None, documents: Vec::new(), patterns: Vec::new() };
        assert(r@ =~= (ProtView { vault: None, documents: seq![], patterns: seq![] }));
        r
    }
}

impl Clone for ProtData {
    fn clone(&self) -> (r: Self)
        ensures
            r@ == self@,
    {
        let mut documents: Vec<(String, String)> = Vec::new();
        let mut i: usize = 0;
        while i < self.documents.len()
            invariant
                i <= self.documents@.len(),
                documents@ == self.documents@.take(i as int),
            decreases self.documents@.len() - i,
        {
            documents.push((self.documents[i].0.clone(), self.documents[i].1.clone()));
            assert(self.documents@.take(i as int + 1) =~= self.documents@.take(i as int).push(
                self.documents@[i as int],
            ));
            i += 1;
        }
        assert(self.documents@.take(i as int) =~= self.documents@);
        let vault = match &self.vault {
            Some(id) => Some(id.clone()),
            None => None,
        };
        ProtData { vault, documents, patterns: text::copied(&self.patterns) }
    }
}

// ---------------------------------------------------------------------------
// parsing
// ---------------------------------------------------------------------------
/// The vault that the lines of a header name: that of the last `vault:` line,
/// where it is not blank.
pub open spec fn vault_in(lines: Seq<Seq<char>>) -> Option<Seq<char>>
    decreases lines.len(),
{
    if lines.len() == 0 {
        None
    } else if text::begins_with(lines.last(), "vault:"@) {
        let id = text::trimmed(lines.last().skip("vault:"@.len() as int));
        if id.len() == 0 {
            None
        } else {
            Some(id)
        }
    } else {
        vault_in(lines.drop_last())
    }
}

/// The entry of a line `doc <path>: <id>`. The last colon ends the path, so a
/// path may itself hold colons.
pub open spec fn document_in(line: Seq<char>) -> Seq<(Seq<char>, Seq<char>)> {
    let rest = line.skip("doc "@.len() as int);
    if !text::begins_with(line, "doc "@) {
        seq![]
    } else {
        match text::last_index(rest, ':') {
            None => seq![],
            Some(colon) => {
                let path = text::trimmed(rest.take(colon));
                let id = text::trimmed(rest.skip(colon + 1));
                if path.len() == 0 || id.len() == 0 {
                    seq![]
                } else {
                    seq![(path, id)]
                }
            },
        }
    }
}

/// The entries that the lines of a header record.
pub open spec fn documents_in(lines: Seq<Seq<char>>) -> Seq<(Seq<char>, Seq<char>)>
    decreases lines.len(),
{
    if lines.len() == 0 {
        seq![]
    } else {
        documents_in(lines.drop_last()) + document_in(lines.last())
    }
}

/// The part of a text before the sentinel; nothing where there is no sentinel.
pub open spec fn header_of(t: Seq<char>) -> Seq<char> {
    match text::first_occurrence(t, SENTINEL@) {
        Some(i) => t.take(i),
        None => Seq::empty(),
    }
}

/// The part of a text after the sentinel; all of it where there is none.
pub open spec fn body_of(t: Seq<char>) -> Seq<char> {
    match text::first_occurrence(t, SENTINEL@) {
        Some(i) => t.skip(i + SENTINEL@.len()),
        None => t,
    }
}

/// What the text of a `.prot` file says. Blank lines and comments say nothing,
/// and neither do unknown lines of the header.
pub open spec fn parsed(t: Seq<char>) -> ProtView {
    let header = text::content_lines(header_of(t));
    ProtView {
        vault: vault_in(header),
        documents: documents_in(header),
        patterns: text::content_lines(body_of(t)),
    }
}

/// Reads the entry of one header line.
fn document_of(line: &str) -> (r: Option<(String, String)>)
    ensures
        match r {
            Some(entry) => document_in(line@) == seq![(entry.0@, entry.1@)],
            None => document_in(line@) == Seq::<(Seq<char>, Seq<char>)>::empty(),
        },
{
    match text::strip_prefix(line, "doc ") {
        None => None,
        Some(rest) => {
            let chars = text::chars_of(rest.as_str());
            match text::rfind(&chars, ':') {
                None => None,
                Some(colon) => {
                    proof {
                        text::lemma_last_index(chars@, ':');
                    }
                    let path = text::trim(text::text_of(&chars, 0, colon).as_str());
                    let id = text::trim(text::text_of(&chars, colon + 1, chars.len()).as_str());
                    proof {
                        assert(chars@.subrange(0, colon as int) =~= chars@.take(colon as int));
                    }
                    if path.as_str().is_empty() || id.as_str().is_empty() {
                        None
                    } else {
                        Some((path, id))
                    }
                },
            }
        },
    }
}

/// Reads the text of a `.prot` file.
pub fn parse(text: &str) -> (r: ProtData)
    ensures
        r@ == parsed(text@),
{
    let chars = text::chars_of(text);
    let (header_end, body_start): (usize, usize) = match text::find(&chars, SENTINEL) {
        Some(i) => {
            proof {
                text::lemma_find_from(text@, SENTINEL@, 0);
                assert(i + SENTINEL@.len() <= chars.len());
            }
            (i, i + text::chars_of(SENTINEL).len())
        },
        None => (0, 0),
    };
    proof {
        assert(chars@.subrange(0, header_end as int) =~= header_of(text@));
        assert(chars@.subrange(body_start as int, chars@.len() as int) =~= body_of(text@));
    }
    let header = text::content(&chars, 0, header_end);
    let patterns = text::content(&chars, body_start, chars.len());
    let ghost lines = text::texts(header@);
    let mut vault: Option<String> = None;
    let mut documents: Vec<(String, String)> = Vec::new();
    let mut i: usize = 0;
    assert(entries(documents@) =~= seq![]);
    while i < header.len()
        invariant
            i <= header@.len(),
            lines == text::texts(header@),
            maybe(vault) == vault_in(lines.take(i as int)),
            entries(documents@) == documents_in(lines.take(i as int)),
        decreases header@.len() - i,
    {
        let line = header[i].as_str();
        proof {
            assert(lines.take(i as int + 1).drop_last() =~= lines.take(i as int));
            assert(lines.take(i as int + 1).last() == line@);
        }
        let ghost before = documents@;
        match text::strip_prefix(line, "vault:") {
            Some(rest) => {
                let id = text::trim(rest.as_str());
                vault = if id.as_str().is_empty() {
                    None
                } else {
                    Some(id)
                };
                proof {
                    lemma_vault_line_is_no_document(line@);
                    assert(documents_in(lines.take(i as int + 1)) =~= entries(documents@));
                }
            },
            None => {
                match document_of(line) {
                    Some(entry) => {
                        documents.push(entry);
                        proof {
                            assert(entries(documents@) =~= entries(before) + document_in(line@));
                        }
                    },
                    None => {
                        proof {
                            assert(entries(documents@) =~= entries(before) + document_in(line@));
                        }
                    },
                }
            },
        }
        i += 1;
    }
    assert(lines.take(i as int) =~= lines);
    ProtData { vault, documents, patterns }
}

/// A `vault:` line records no document.
proof fn lemma_vault_line_is_no_document(line: Seq<char>)
    requires
        text::begins_with(line, "vault:"@),
    ensures
        document_in(line) == Seq::<(Seq<char>, Seq<char>)>::empty(),
{
    reveal_strlit("vault:");
    reveal_strlit("doc ");
    if text::begins_with(line, "doc "@) {
        assert(line.subrange(0, 6)[0] == line[0]);
        assert(line.subrange(0, 4)[0] == line[0]);
        assert(false);
    }
}

// ---------------------------------------------------------------------------
// serializing
// ---------------------------------------------------------------------------
/// Each line of a list, ended by a newline.
pub open spec fn terminated(list: Seq<Seq<char>>) -> Seq<char>
    decreases list.len(),
{
    if list.len() == 0 {
        Seq::empty()
    } else {
        terminated(list.drop_last()) + list.last() + "\n"@
    }
}

/// The header line of a recorded document.
pub open spec fn document_line(entry: (Seq<char>, Seq<char>)) -> Seq<char> {
    "doc "@ + entry.0 + ": "@ + entry.1
}

/// The header line of the vault; blank after the colon where none is known.
pub open spec fn vault_line(vault: Option<Seq<char>>) -> Seq<char> {
    match vault {
        Some(id) => "vault: "@ + id,
        None => "vault: "@,
    }
}

/// The lines of the managed header, a blank one at its end.
pub open spec fn header_lines(data: ProtView) -> Seq<Seq<char>> {
    seq![HEADER_NOTE@, vault_line(data.vault)] + data.documents.map_values(
        |entry: (Seq<char>, Seq<char>)| document_line(entry),
    ) + seq![Seq::<char>::empty()]
}

/// The text of a `.prot` file: the header, the sentinel, the patterns.
pub open spec fn serialized(data: ProtView) -> Seq<char> {
    terminated(header_lines(data) + seq![SENTINEL@] + data.patterns)
}

/// Writes the text of a `.prot` file.
pub fn serialize(data: &ProtData) -> (r: String)
    ensures
        r@ == serialized(data@),
{
    let mut lines: Vec<String> = Vec::new();
    lines.push(HEADER_NOTE.to_owned());
    let vault = match &data.vault {
        Some(id) => "vault: ".to_owned().concat(id.as_str()),
        None => "vault: ".to_owned(),
    };
    lines.push(vault);
    let ghost start = seq![HEADER_NOTE@, vault_line(data@.vault)];
    let ghost documents = data@.documents.map_values(
        |entry: (Seq<char>, Seq<char>)| document_line(entry),
    );
    assert(text::texts(lines@) =~= start + documents.take(0));
    let mut i: usize = 0;
    while i < data.documents.len()
        invariant
            i <= data.documents@.len(),
            documents == data@.documents.map_values(
                |entry: (Seq<char>, Seq<char>)| document_line(entry),
            ),
            text::texts(lines@) == start + documents.take(i as int),
        decreases data.documents@.len() - i,
    {
        let ghost before = lines@;
        let entry = &data.documents[i];
        let line = "doc ".to_owned().concat(entry.0.as_str()).concat(": ").concat(entry.1.as_str());
        assert(line@ == documents[i as int]);
        lines.push(line);
        assert(text::texts(lines@) =~= text::texts(before).push(documents[i as int]));
        assert(start + documents.take(i as int + 1) =~= (start + documents.take(i as int)).push(
            documents[i as int],
        ));
        i += 1;
    }
    assert(documents.take(i as int) =~= documents);
    let ghost before = lines@;
    lines.push(String::new());
    lines.push(SENTINEL.to_owned());
    let ghost head = header_lines(data@) + seq![SENTINEL@];
    assert(text::texts(lines@) =~= head);
    let mut k: usize = 0;
    assert(head + data@.patterns.take(0) =~= head);
    while k < data.patterns.len()
        invariant
            k <= data.patterns@.len(),
            text::texts(lines@) == head + data@.patterns.take(k as int),
        decreases data.patterns@.len() - k,
    {
        let ghost before = lines@;
        lines.push(data.patterns[k].clone());
        assert(text::texts(lines@) =~= text::texts(before).push(data@.patterns[k as int]));
        assert(head + data@.patterns.take(k as int + 1) =~= (head + data@.patterns.take(
            k as int,
        )).push(data@.patterns[k as int]));
        k += 1;
    }
    assert(data@.patterns.take(k as int) =~= data@.patterns);
    terminate(&lines)
}

/// Each line of a list, ended by a newline.
fn terminate(list: &Vec<String>) -> (r: String)
    ensures
        r@ == terminated(text::texts(list@)),
{
    let mut out = String::new();
    let mut i: usize = 0;
    assert(text::texts(list@).take(0) =~= seq![]);
    while i < list.len()
        invariant
            i <= list@.len(),
            out@ == terminated(text::texts(list@).take(i as int)),
        decreases list@.len() - i,
    {
        out.append(list[i].as_str());
        out.append("\n");
        proof {
            let more = text::texts(list@).take(i as int + 1);
            assert(more.drop_last() =~= text::texts(list@).take(i as int));
            assert(more.last() == list@[i as int]@);
        }
        i += 1;
    }
    assert(text::texts(list@).take(i as int) =~= text::texts(list@));
    out
}

// ---------------------------------------------------------------------------
// reading and writing the file
// ---------------------------------------------------------------------------
/// What came of reading a file.
#[verifier::ext_equal]
#[derive(Debug)]
pub enum Reading<T = String> {
    /// Its text.
    Text(T),
    /// There is no such file.
    Missing,
    /// It could not be read.
    Failed { cause: T },
}

impl View for Reading<String> {
    type V = Reading<Seq<char>>;

    open spec fn view(&self) -> Reading<Seq<char>> {
        match self {
            Reading::Text(t) => Reading::Text(t@),
            Reading::Missing => Reading::Missing,
            Reading::Failed { cause } => Reading::Failed { cause: cause@ },
        }
    }
}

/// What reading the file at `path` says: its contents, or that there is none.
pub open spec fn read_as(path: Seq<char>, reading: Reading<Seq<char>>) -> Result<
    Option<ProtView>,
    Failure<Seq<char>>,
> {
    match reading {
        Reading::Text(t) => Ok(Some(parsed(t))),
        Reading::Missing => Ok(None),
        Reading::Failed { cause } => Err(Failure::ReadFailed { path, cause }),
    }
}

/// The view of what was read.
pub open spec fn read_view(r: Result<Option<ProtData>, Error>) -> Result<
    Option<ProtView>,
    Failure<Seq<char>>,
> {
    match r {
        Ok(Some(data)) => Ok(Some(data@)),
        Ok(None) => Ok(None),
        Err(e) => Err(e@),
    }
}

/// What reading the file at `path` says: its contents, or that there is none.
pub fn read(path: &str, reading: Reading) -> (r: Result<Option<ProtData>, Error>)
    ensures
        read_view(r) == read_as(path@, reading@),
{
    match reading {
        Reading::Text(t) => Ok(Some(parse(t.as_str()))),
        Reading::Missing => Ok(None),
        Reading::Failed { cause } => Err(Failure::ReadFailed { path: path.to_owned(), cause }),
    }
}

/// What stands at the place where `.prot` is to be written, links not
/// followed.
#[derive(Debug, Clone, Copy)]
pub struct Standing {
    pub symlink: bool,
    pub readonly: bool,
}

/// The prefix of the name of the temporary file next to `.prot`.
pub const TEMP_PREFIX: &'static str = ".prot-";

/// One step of writing `.prot`.
#[verifier::ext_equal]
#[derive(Debug)]
pub enum WriteStep<T = String> {
    /// Create a temporary file that only the owner can read, in the directory
    /// of the target, or in the current one where the target names none.
    CreateTemp { prefix: T },
    /// Write the text into the temporary file.
    Fill { text: T },
    /// Give the temporary file the permissions of the target, where it has any.
    CarryMode,
    /// Flush the temporary file to disk.
    Flush,
    /// Move the temporary file to the target, replacing what stands there.
    Rename,
}

impl View for WriteStep<String> {
    type V = WriteStep<Seq<char>>;

    open spec fn view(&self) -> WriteStep<Seq<char>> {
        match self {
            WriteStep::CreateTemp { prefix } => WriteStep::CreateTemp { prefix: prefix@ },
            WriteStep::Fill { text } => WriteStep::Fill { text: text@ },
            WriteStep::CarryMode => WriteStep::CarryMode,
            WriteStep::Flush => WriteStep::Flush,
            WriteStep::Rename => WriteStep::Rename,
        }
    }
}

/// The views of a list of steps.
pub open spec fn steps(list: Seq<WriteStep<String>>) -> Seq<WriteStep<Seq<char>>> {
    list.map_values(|step: WriteStep<String>| step@)
}

/// The steps that write `.prot`: its text goes into a temporary file, which is
/// moved into place once it is complete and on disk. Permissions are carried
/// over where the platform has them.
pub open spec fn write_steps(style: Style, data: ProtView) -> Seq<WriteStep<Seq<char>>> {
    let filled = seq![
        WriteStep::CreateTemp { prefix: TEMP_PREFIX@ },
        WriteStep::Fill { text: serialized(data) },
    ];
    match style {
        Style::Unix => filled + seq![WriteStep::CarryMode, WriteStep::Flush, WriteStep::Rename],
        Style::Windows => filled + seq![WriteStep::Flush, WriteStep::Rename],
    }
}

/// How `.prot` is written, or why it is not: a link is not replaced by a file,
/// and a file that was made read-only is left alone.
pub open spec fn write_as(
    style: Style,
    path: Seq<char>,
    standing: Option<Standing>,
    data: ProtView,
) -> Result<Seq<WriteStep<Seq<char>>>, Failure<Seq<char>>> {
    match standing {
        Some(it) => {
            if it.symlink {
                Err(Failure::Symlinked { path })
            } else if it.readonly {
                Err(Failure::ReadOnly { path })
            } else {
                Ok(write_steps(style, data))
            }
        },
        None => Ok(write_steps(style, data)),
    }
}

/// The steps that write `data` to the `.prot` at `path`.
pub fn write(style: Style, path: &str, standing: Option<Standing>, data: &ProtData) -> (r: Result<
    Vec<WriteStep>,
    Error,
>)
    ensures
        match r {
            Ok(list) => write_as(style, path@, standing, data@) == Ok::<
                Seq<WriteStep<Seq<char>>>,
                Failure<Seq<char>>,
            >(steps(list@)),
            Err(e) => write_as(style, path@, standing, data@) == Err::<
                Seq<WriteStep<Seq<char>>>,
                Failure<Seq<char>>,
            >(e@),
        },
{
    if let Some(it) = standing {
        if it.symlink {
            return Err(Failure::Symlinked { path: path.to_owned() });
        }
        if it.readonly {
            return Err(Failure::ReadOnly { path: path.to_owned() });
        }
    }
    let mut list: Vec<WriteStep> = Vec::new();
    list.push(WriteStep::CreateTemp { prefix: TEMP_PREFIX.to_owned() });
    list.push(WriteStep::Fill { text: serialize(data) });
    match style {
        Style::Unix => list.push(WriteStep::CarryMode),
        Style::Windows => {},
    }
    list.push(WriteStep::Flush);
    list.push(WriteStep::Rename);
    assert(steps(list@) =~= write_steps(style, data@));
    Ok(list)
}

/// The failure of a step.
pub open spec fn step_failure(
    step: WriteStep<Seq<char>>,
    path: Seq<char>,
    cause: Seq<char>,
) -> Failure<Seq<char>> {
    match step {
        WriteStep::CreateTemp { .. } => Failure::TempFailed { path, cause },
        WriteStep::Fill { .. } => Failure::WriteFailed { path, cause },
        WriteStep::CarryMode => Failure::ModeFailed { path, cause },
        WriteStep::Flush => Failure::FlushFailed { path, cause },
        WriteStep::Rename => Failure::WriteFailed { path, cause },
    }
}

/// The failure of a step.
pub fn write_failure(step: &WriteStep, path: &str, cause: String) -> (r: Error)
    ensures
        r@ == step_failure(step@, path@, cause@),
{
    match step {
        WriteStep::CreateTemp { .. } => Failure::TempFailed { path: path.to_owned(), cause },
        WriteStep::Fill { .. } => Failure::WriteFailed { path: path.to_owned(), cause },
        WriteStep::CarryMode => Failure::ModeFailed { path: path.to_owned(), cause },
        WriteStep::Flush => Failure::FlushFailed { path: path.to_owned(), cause },
        WriteStep::Rename => Failure::WriteFailed { path: path.to_owned(), cause },
    }
}

} // verus!
