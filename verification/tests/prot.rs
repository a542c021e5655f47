//! The `.prot` file: its text, and how it is written.

use dotprot::failure::Failure;
use dotprot::paths::Style;
use dotprot::prot;
use dotprot::prot::ProtData;
use dotprot::prot::Reading;
use dotprot::prot::Standing;
use dotprot::prot::WriteStep;
use dotprot::prot::parse;
use dotprot::prot::serialize;

#[test]
fn empty_defaults_to_env_glob() {
    let p = ProtData::empty();
    assert_eq!(p.vault, None);
    assert!(p.documents.is_empty());
    assert_eq!(p.patterns, vec![".env*".to_string()]);
}

#[test]
fn parse_reads_vault_documents_and_patterns() {
    let text = "# dotprot — managed below, do not edit\n\
                vault: VAULT123\n\
                doc .env: DOC_ENV\n\
                doc config/secrets.json: DOC_SECRETS\n\
                \n\
                # ---- your files (edit below) ----\n\
                .env\n\
                config/secrets.json\n";
    let p = parse(text);
    assert_eq!(p.vault.as_deref(), Some("VAULT123"));
    assert_eq!(p.document_id(".env"), Some("DOC_ENV"));
    assert_eq!(p.document_id("config/secrets.json"), Some("DOC_SECRETS"));
    assert_eq!(
        p.patterns,
        vec![".env".to_string(), "config/secrets.json".to_string()]
    );
}

#[test]
fn serialize_then_parse_round_trips() {
    let mut original = ProtData {
        vault: Some("V".to_string()),
        documents: vec![],
        patterns: vec![".env*".to_string(), "secrets/*.json".to_string()],
    };
    original.set_document(".env", "D1");
    original.set_document(".env.local", "D2");

    let round = parse(&serialize(&original));
    assert_eq!(round.vault, original.vault);
    assert_eq!(round.documents, original.documents);
    assert_eq!(round.patterns, original.patterns);
}

#[test]
fn empty_vault_round_trips_as_none() {
    let p = ProtData::empty();
    let round = parse(&serialize(&p));
    assert_eq!(round.vault, None);
}

#[test]
fn pattern_with_colon_survives_round_trip() {
    let mut p = ProtData {
        vault: Some("V".to_string()),
        documents: vec![],
        patterns: vec!["weird:name.env".to_string()],
    };
    p.set_document("weird:name.env", "DOC");
    let round = parse(&serialize(&p));
    assert_eq!(round.document_id("weird:name.env"), Some("DOC"));
}

#[test]
fn comments_and_blanks_in_user_section_ignored() {
    let text = "# ---- your files (edit below) ----\n\
                # my secrets\n\
                .env\n\
                \n\
                \x20\x20\n\
                .env.production\n";
    let p = parse(text);
    assert_eq!(
        p.patterns,
        vec![".env".to_string(), ".env.production".to_string()]
    );
}

#[test]
fn no_sentinel_treats_all_lines_as_patterns() {
    let p = parse(".env\n.env.local\n");
    assert_eq!(
        p.patterns,
        vec![".env".to_string(), ".env.local".to_string()]
    );
    assert_eq!(p.vault, None);
}

// --- the text, exactly --------------------------------------------------------

#[test]
fn serialized_text_is_exact() {
    let mut p = ProtData::empty();
    p.vault = Some("VAULT".to_string());
    p.set_document(".env", "DOC0");
    assert_eq!(
        serialize(&p),
        "# dotprot — managed below, do not edit\nvault: VAULT\ndoc .env: DOC0\n\n\
         # ---- your files (edit below) ----\n.env*\n"
    );
    assert_eq!(
        serialize(&ProtData::default()),
        "# dotprot — managed below, do not edit\nvault: \n\n# ---- your files (edit below) ----\n"
    );
}

#[test]
fn odd_header_lines_are_passed_over() {
    let p = parse(
        "vault: A\r\n  vault: B  \nvault:\ndoc x\ndoc : id\ndoc y:\nsomething\ndoc a b : i d \n\
         # ---- your files (edit below) ---- tail\n  *.key  \n",
    );
    assert_eq!(p.vault, None);
    assert_eq!(p.documents, vec![("a b".to_string(), "i d".to_string())]);
    assert_eq!(p.patterns, vec!["tail".to_string(), "*.key".to_string()]);
}

#[test]
fn the_last_vault_line_counts() {
    let p = parse("vault: A\nvault: B\n# ---- your files (edit below) ----\n");
    assert_eq!(p.vault.as_deref(), Some("B"));
}

#[test]
fn recording_updates_in_place_and_appends() {
    let mut p = ProtData::default();
    p.set_document("a", "1");
    p.set_document("b", "2");
    p.set_document("a", "3");
    assert_eq!(
        p.documents,
        vec![
            ("a".to_string(), "3".to_string()),
            ("b".to_string(), "2".to_string())
        ]
    );
    assert_eq!(p.document_id("a"), Some("3"));
    assert_eq!(p.document_id("c"), None);
    let copy = p.clone();
    assert_eq!(copy.documents, p.documents);
}

#[test]
fn a_name_with_the_sentinel_does_not_survive() {
    let mut p = ProtData::default();
    p.vault = Some("V".to_string());
    p.set_document("x# ---- your files (edit below) ----y", "D");
    let round = parse(&serialize(&p));
    assert!(round.documents.is_empty());
}

#[test]
fn reading_settles_at_once() {
    let texts = [
        "",
        "\n\n",
        "vault: x",
        "a\nb # c\n# d",
        "vault: q\ndoc a:b: c\n# ---- your files (edit below) ----\nx\n# ---- your files (edit below) ----\ny",
    ];
    for text in texts {
        let once = parse(text);
        let twice = parse(&serialize(&once));
        assert_eq!(once.vault, twice.vault);
        assert_eq!(once.documents, twice.documents);
        assert_eq!(once.patterns, twice.patterns);
    }
}

// --- reading ------------------------------------------------------------------

#[test]
fn reading_tells_contents_absence_and_failure() {
    let held = prot::read("/p/.prot", Reading::Text(".env\n".to_string()));
    assert_eq!(held.unwrap().unwrap().patterns, vec![".env".to_string()]);
    assert!(prot::read("/p/.prot", Reading::Missing).unwrap().is_none());
    let err = prot::read(
        "/p/.prot",
        Reading::Failed {
            cause: "permission denied".to_string(),
        },
    )
    .unwrap_err();
    assert_eq!(err.message(), "reading /p/.prot");
    assert_eq!(err.cause(), Some("permission denied".to_string()));
}

// --- writing ------------------------------------------------------------------

/// A file with its permissions, and whether it is a link.
struct File {
    text: String,
    mode: u32,
    link: bool,
}

/// Writes `data` over `target` by the steps, the first `limit` of them.
fn write_over(target: &mut Option<File>, data: &ProtData, limit: usize) -> Result<(), String> {
    let standing = target.as_ref().map(|f| Standing {
        symlink: f.link,
        readonly: f.mode & 0o222 == 0,
    });
    let steps =
        prot::write(Style::Unix, "/p/.prot", standing, data).map_err(|e| e.message())?;
    let mut temp: Option<File> = None;
    for step in steps.iter().take(limit) {
        match step {
            WriteStep::CreateTemp { prefix } => {
                assert_eq!(prefix, ".prot-");
                temp = Some(File {
                    text: String::new(),
                    mode: 0o600,
                    link: false,
                });
            }
            WriteStep::Fill { text } => temp.as_mut().unwrap().text = text.clone(),
            WriteStep::CarryMode => {
                if let Some(f) = target {
                    temp.as_mut().unwrap().mode = f.mode;
                }
            }
            WriteStep::Flush => {}
            WriteStep::Rename => *target = temp.take(),
        }
    }
    Ok(())
}

#[test]
fn write_refuses_a_symlinked_prot() {
    let mut target = Some(File {
        text: "real".to_string(),
        mode: 0o600,
        link: true,
    });
    let err = write_over(&mut target, &ProtData::empty(), 9).unwrap_err();
    assert!(
        err.contains("is a symlink"),
        "expected a symlink refusal, got: {err}"
    );
    assert!(
        target.unwrap().link,
        "the symlink must not be replaced by a regular file"
    );
}

#[test]
fn write_refuses_a_readonly_prot() {
    let mut target = None;
    write_over(&mut target, &ProtData::empty(), 9).unwrap();
    let before = target.as_ref().unwrap().text.clone();
    target.as_mut().unwrap().mode = 0o444;

    let mut changed = ProtData::empty();
    changed.vault = Some("V".to_string());
    let err = write_over(&mut target, &changed, 9).unwrap_err();

    assert!(
        err.contains("read-only"),
        "expected a read-only refusal, got: {err}"
    );
    assert_eq!(
        target.unwrap().text,
        before,
        "a chmod-frozen .prot must not be rewritten"
    );
}

#[test]
fn write_preserves_existing_permissions() {
    let mut target = None;
    write_over(&mut target, &ProtData::empty(), 9).unwrap();
    target.as_mut().unwrap().mode = 0o644;
    write_over(&mut target, &ProtData::empty(), 9).unwrap();
    let mode = target.unwrap().mode;
    assert_eq!(mode & 0o777, 0o644, "expected 0644, got {:o}", mode & 0o777);
}

#[test]
fn write_creates_prot_with_owner_only_mode() {
    let mut target = None;
    write_over(&mut target, &ProtData::empty(), 9).unwrap();
    let mode = target.unwrap().mode;
    assert_eq!(mode & 0o777, 0o600, "expected 0600, got {:o}", mode & 0o777);
}

#[test]
fn an_interrupted_write_leaves_the_old_text() {
    let mut data = ProtData::empty();
    data.vault = Some("NEW".to_string());
    for limit in 0..5 {
        let mut target = Some(File {
            text: "old".to_string(),
            mode: 0o600,
            link: false,
        });
        write_over(&mut target, &data, limit).unwrap();
        assert_eq!(target.unwrap().text, "old");
    }
    let mut target = None;
    write_over(&mut target, &data, 5).unwrap();
    assert_eq!(target.unwrap().text, serialize(&data));
}

#[test]
fn permissions_are_carried_over_where_there_are_any() {
    let unix = prot::write(Style::Unix, ".prot", None, &ProtData::empty()).unwrap();
    assert_eq!(unix.len(), 5);
    assert!(matches!(unix[2], WriteStep::CarryMode));
    let windows = prot::write(Style::Windows, ".prot", None, &ProtData::empty()).unwrap();
    assert_eq!(windows.len(), 4);
    assert!(matches!(windows[2], WriteStep::Flush));
    assert!(matches!(windows[3], WriteStep::Rename));
}

#[test]
fn each_step_has_its_failure() {
    let steps = prot::write(Style::Unix, "p", None, &ProtData::empty()).unwrap();
    let told: Vec<String> = steps
        .iter()
        .map(|s| {
            let e = prot::write_failure(s, "p", "why".to_string());
            assert_eq!(e.cause(), Some("why".to_string()));
            e.message()
        })
        .collect();
    assert_eq!(
        told,
        vec![
            "creating temp file for p",
            "writing p",
            "setting permissions on p",
            "flushing p",
            "writing p"
        ]
    );
    assert!(matches!(
        prot::write_failure(&steps[0], "p", String::new()),
        Failure::TempFailed { .. }
    ));
}
