//! The `op` program: how it is called, and what its answers mean.

use dotprot::failure::Failure;
use dotprot::op;
use dotprot::op::Answer;
use dotprot::op::IdEnvelope;
use dotprot::op::Outcome;
use dotprot::op::Signin;
use dotprot::op::VaultEnvelope;
use dotprot::op::vault_not_found;

/// What a JSON text holds of an item.
fn decode(bytes: &[u8]) -> Result<IdEnvelope, String> {
    let value: serde_json::Value =
        serde_json::from_slice(bytes).map_err(|e| e.to_string())?;
    let field = |name: &str| match value.get(name) {
        None | Some(serde_json::Value::Null) => Ok(None),
        Some(serde_json::Value::String(text)) => Ok(Some(text.clone())),
        Some(other) => Err(format!("expected a string, found {other}")),
    };
    Ok(IdEnvelope {
        id: field("id")?,
        uuid: field("uuid")?,
    })
}

fn parse_id(bytes: &[u8]) -> Result<String, dotprot::failure::Error> {
    op::parse_id(&bytes.to_vec(), decode(bytes))
}

fn exited(success: bool, stdout: &str, stderr: &str) -> Outcome {
    Outcome::Exited {
        success,
        stdout: stdout.as_bytes().to_vec(),
        stderr: stderr.as_bytes().to_vec(),
    }
}

#[test]
fn parse_id_prefers_uuid() {
    let out = br#"{"uuid":"U123","id":"I456"}"#;
    assert_eq!(parse_id(out).unwrap(), "U123");
}

#[test]
fn parse_id_falls_back_to_id() {
    let out = br#"{"id":"I456"}"#;
    assert_eq!(parse_id(out).unwrap(), "I456");
}

#[test]
fn parse_id_errors_when_neither_present() {
    let out = br#"{"createdAt":"now"}"#;
    assert!(parse_id(out).is_err());
}

#[test]
fn vault_not_found_matches_real_op_message() {
    // Captured verbatim from `op vault get <nonexistent> --format=json`.
    assert!(vault_not_found(
        r#"[ERROR] 2026/07/04 10:49:55 "zzz" isn't a vault in this account. Specify the vault with its ID or name."#
    ));
}

#[test]
fn vault_not_found_rejects_other_failures() {
    // Transient/auth/ambiguity failures must propagate as errors, never be
    // read as "vault missing" (which would trigger creating a duplicate).
    assert!(!vault_not_found("network error: dial tcp: i/o timeout"));
    assert!(!vault_not_found("you are not currently signed in"));
    assert!(!vault_not_found(r#"More than one vault matches ".prot""#));
}

#[test]
fn parse_id_errors_on_an_id_that_is_no_text() {
    let e = parse_id(br#"{"uuid":7}"#).unwrap_err();
    assert_eq!(e.message(), "could not parse op JSON response: {\"uuid\":7}");
    assert_eq!(parse_id(br#"{"uuid":null,"id":"I"}"#).unwrap(), "I");
}

// --- calls --------------------------------------------------------------------

#[test]
fn the_arguments_are_exact() {
    assert_eq!(op::whoami_args(), vec!["whoami"]);
    assert_eq!(op::signin_args(), vec!["signin"]);
    assert_eq!(
        op::vault_get_args(".prot"),
        vec!["vault", "get", ".prot", "--format=json"]
    );
    assert_eq!(
        op::vault_create_args(".prot", "what"),
        vec![
            "vault",
            "create",
            ".prot",
            "--description",
            "what",
            "--format=json"
        ]
    );
    assert_eq!(
        op::document_create_args("/t/f", "V", "T", "F"),
        vec![
            "document",
            "create",
            "/t/f",
            "--vault",
            "V",
            "--title",
            "T",
            "--file-name",
            "F",
            "--format=json"
        ]
    );
    assert_eq!(
        op::document_edit_args("I", "/t/f", "V", "T", "F"),
        vec![
            "document",
            "edit",
            "I",
            "/t/f",
            "--vault",
            "V",
            "--title",
            "T",
            "--file-name",
            "F"
        ]
    );
    assert_eq!(
        op::document_get_args("V", "I"),
        vec!["document", "get", "I", "--vault", "V", "--force"]
    );
}

// --- outcomes -----------------------------------------------------------------

#[test]
fn a_missing_program_is_told() {
    let e = op::run_op(Outcome::Missing).unwrap_err();
    assert_eq!(
        e.message(),
        "The 1Password CLI (`op`) was not found on your PATH.\n\
         Install it: https://developer.1password.com/docs/cli/get-started/"
    );
    let e = op::run_op(Outcome::NotRun {
        reason: "no".to_string(),
    })
    .unwrap_err();
    assert_eq!(e.message(), "failed to run op: no");
}

#[test]
fn a_failure_tells_what_op_printed() {
    let e = op::run_op(exited(false, "ignored", "  [ERROR] broken \n")).unwrap_err();
    assert_eq!(e.message(), "  [ERROR] broken \n");
    let e = op::run_op(Outcome::Exited {
        success: false,
        stdout: vec![],
        stderr: vec![b'a', 0xff, b'b'],
    })
    .unwrap_err();
    assert_eq!(e.message(), "a\u{fffd}b");
    assert_eq!(op::run_op(exited(true, "out", "warn")).unwrap(), b"out");
}

#[test]
fn only_a_signed_out_message_means_signed_out() {
    assert!(op::is_signed_in(exited(true, "", "")).unwrap());
    assert!(!op::is_signed_in(exited(false, "", "[ERROR] Account is Not Signed In")).unwrap());
    assert!(matches!(
        op::is_signed_in(exited(false, "", "timeout")),
        Err(Failure::Op(_))
    ));
    assert!(matches!(
        op::is_signed_in(Outcome::Missing),
        Err(Failure::OpMissing)
    ));
    assert!(op::says_signed_out("it says not signed in here"));
    assert!(!op::says_signed_out("not currently signed in"));
}

#[test]
fn signing_in_ends_well_or_not() {
    assert!(op::sign_in(Signin::Exited { success: true }).is_ok());
    let e = op::sign_in(Signin::Exited { success: false }).unwrap_err();
    assert_eq!(
        e.message(),
        "`op signin` did not complete successfully. Not signed in."
    );
    let e = op::sign_in(Signin::NotRun {
        reason: "why".to_string(),
    })
    .unwrap_err();
    assert_eq!(e.message(), "failed to run op signin: why");
    assert!(matches!(
        op::sign_in(Signin::Missing),
        Err(Failure::OpMissing)
    ));
}

#[test]
fn only_yes_is_yes() {
    let typed = |line: &str| {
        op::prompt_yes_no(Answer::Typed {
            line: line.to_string(),
        })
        .unwrap()
    };
    assert!(typed("y\n"));
    assert!(typed("  YES \r\n"));
    assert!(!typed("\n"));
    assert!(!typed("yep\n"));
    assert!(!typed("no\n"));
    assert!(!op::prompt_yes_no(Answer::NoTerminal).unwrap());
    let e = op::prompt_yes_no(Answer::Failed {
        message: "closed".to_string(),
    })
    .unwrap_err();
    assert_eq!(e.message(), "closed");
    assert_eq!(op::prompt_text("Sign in?"), "Sign in? [y/N] ");
    assert!(op::is_yes("y") && op::is_yes("yes") && !op::is_yes("Y"));
}

#[test]
fn looking_up_a_vault() {
    let found = r#"{"id":"V1"}"#;
    assert_eq!(
        op::find_vault(exited(true, found, ""), decode(found.as_bytes())).unwrap(),
        Some("V1".to_string())
    );
    let gone = || exited(false, "", "\"x\" Isn't A Vault in this account");
    assert_eq!(
        op::find_vault(gone(), Err("not JSON".to_string())).unwrap(),
        None
    );
    assert!(matches!(
        op::find_vault(exited(false, "", "timeout"), decode(b"{}")),
        Err(Failure::Op(_))
    ));
    let e = op::find_vault(exited(true, " oops \n", ""), Err("expected value".to_string()))
        .unwrap_err();
    assert_eq!(e.message(), "could not parse op JSON response: oops");
    assert_eq!(e.cause(), Some("expected value".to_string()));
    let e = op::find_vault(exited(true, "{}", ""), decode(b"{}")).unwrap_err();
    assert_eq!(
        e.message(),
        "could not find an id/uuid in op's response: {}"
    );
    assert!(op::says_vault_missing("vault not found"));
    assert!(op::says_vault_missing("that is not a vault"));
}

#[test]
fn looking_up_the_name_of_a_vault() {
    let named = |name: Option<&str>| {
        Ok(VaultEnvelope {
            name: name.map(String::from),
        })
    };
    assert_eq!(
        op::vault_name("V", exited(true, "{}", ""), named(Some(".prot"))).unwrap(),
        Some(".prot".to_string())
    );
    let e = op::vault_name("V", exited(true, "{}", ""), named(None)).unwrap_err();
    assert_eq!(
        e.message(),
        "op's response for vault V did not include a name"
    );
    let e = op::vault_name("V", exited(true, "?", ""), Err("bad".to_string())).unwrap_err();
    assert_eq!(e.message(), "could not parse op JSON response: ?");
    assert_eq!(
        op::vault_name("V", exited(false, "", "vault not found"), named(None)).unwrap(),
        None
    );
    assert!(op::vault_name("V", Outcome::Missing, named(None)).is_err());
}

#[test]
fn creating_and_editing() {
    let made = r#"{"uuid":"D9"}"#;
    assert_eq!(
        op::create_vault(exited(true, made, ""), decode(made.as_bytes())).unwrap(),
        "D9"
    );
    assert_eq!(
        op::create_document(exited(true, made, ""), decode(made.as_bytes())).unwrap(),
        "D9"
    );
    let e = op::create_document(exited(false, "", "denied"), decode(b"{}")).unwrap_err();
    assert_eq!(e.message(), "denied");
    assert!(op::create_vault(Outcome::Missing, decode(b"{}")).is_err());
    assert!(op::edit_document(exited(true, "", "")).is_ok());
    assert!(op::edit_document(exited(false, "", "no")).is_err());
    assert_eq!(op::get_document(exited(true, "A=1\n", "")).unwrap(), b"A=1\n");
    assert!(op::get_document(exited(false, "A=1\n", "no")).is_err());
}

#[test]
fn staging_failures_are_told() {
    let cause = || "why".to_string();
    let e: dotprot::failure::Error = Failure::StageDir { cause: cause() };
    assert_eq!(e.message(), "creating temp dir for op document");
    let e: dotprot::failure::Error = Failure::StageOpen { cause: cause() };
    assert_eq!(e.message(), "opening temp file");
    let e: dotprot::failure::Error = Failure::StageWrite { cause: cause() };
    assert_eq!(e.message(), "writing secret to temp file");
    assert_eq!(e.cause(), Some("why".to_string()));
}
