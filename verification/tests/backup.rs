//! Where backups of `.prot` are.

use dotprot::backup::backup_file;
use dotprot::backup::directory_failure;
use dotprot::backup::sanitize_prefix;
use dotprot::backup::save;
use dotprot::backup::volume_directory;
use dotprot::paths::Component;
use dotprot::paths::Style;
use dotprot::prot;
use dotprot::prot::ProtData;
use dotprot::prot::Reading;
use dotprot::prot::WriteStep;
use std::path::Path;

/// The parts of a path, as the library takes them.
fn components(path: &Path) -> Vec<Component> {
    path.components()
        .map(|c| match c {
            std::path::Component::Prefix(p) => {
                Component::Prefix(p.as_os_str().to_string_lossy().to_string())
            }
            std::path::Component::RootDir => Component::RootDir,
            std::path::Component::CurDir => Component::CurDir,
            std::path::Component::ParentDir => Component::ParentDir,
            std::path::Component::Normal(n) => Component::Normal(n.to_string_lossy().to_string()),
        })
        .collect()
}

#[test]
fn backup_path_mirrors_the_project_path() {
    let home = "/home/user";
    let file = backup_file(Style::Unix, home, &components(Path::new("/code/my proj")));
    assert_eq!(
        Path::new(&file),
        Path::new("/home/user/.prot/backups/code/my proj/.prot")
    );
}

#[test]
fn distinct_projects_get_distinct_backups() {
    let home = "/home/user";
    assert_ne!(
        backup_file(Style::Unix, home, &components(Path::new("/code/a"))),
        backup_file(Style::Unix, home, &components(Path::new("/code/b")))
    );
}

#[test]
fn windows_prefixes_become_plain_names() {
    assert_eq!(sanitize_prefix("C:"), "C");
    assert_eq!(sanitize_prefix(r"\\?\C:"), "C");
    assert_eq!(sanitize_prefix(r"\\server\share"), "server_share");
}

#[test]
fn save_round_trips_through_the_backup() {
    let mut data = ProtData::empty();
    data.vault = Some("VAULT".to_string());
    data.set_document(".env", "DOC0");

    let saving = save(Style::Unix, "/h", &components(Path::new("/code/proj")));
    assert_eq!(saving.dir, "/h/.prot/backups/code/proj");
    assert_eq!(saving.file, "/h/.prot/backups/code/proj/.prot");
    let steps = prot::write(Style::Unix, &saving.file, None, &data).unwrap();
    let mut text = String::new();
    for step in &steps {
        if let WriteStep::Fill { text: t } = step {
            text = t.clone();
        }
    }

    let restored = prot::read(&saving.file, Reading::Text(text))
        .unwrap()
        .unwrap();
    assert_eq!(restored.vault.as_deref(), Some("VAULT"));
    assert_eq!(restored.document_id(".env"), Some("DOC0"));
    assert_eq!(restored.patterns, data.patterns);
}

#[test]
fn windows_projects_are_backed_up_by_drive() {
    let parts = vec![
        Component::Prefix("C:".to_string()),
        Component::RootDir,
        Component::Normal("code".to_string()),
    ];
    assert_eq!(
        backup_file(Style::Windows, r"C:\Users\me", &parts),
        r"C:\Users\me\.prot\backups\C\code\.prot"
    );
}

/// Where the project `x` on a volume is backed up.
fn backup_on(prefix: &str) -> String {
    let parts = vec![
        Component::Prefix(prefix.to_string()),
        Component::RootDir,
        Component::Normal("x".to_string()),
    ];
    backup_file(Style::Windows, r"C:\h", &parts)
}

#[test]
fn a_prefix_without_a_name_is_told_by_its_codes() {
    assert_eq!(sanitize_prefix(r"\\"), "");
    assert_eq!(sanitize_prefix("__a b__"), "a_b");
    let parts = vec![
        Component::Prefix(r"\\".to_string()),
        Component::CurDir,
        Component::ParentDir,
        Component::Normal("x".to_string()),
    ];
    assert_eq!(
        backup_file(Style::Unix, "/", &parts),
        "/.prot/backups/==++/x/.prot"
    );
}

#[test]
fn volumes_with_plain_names_keep_them() {
    assert_eq!(volume_directory("C:"), "C");
    assert_eq!(volume_directory(r"\\?\C:"), "C");
    assert_eq!(volume_directory(r"\\server\share"), "server_share");
    assert_eq!(volume_directory(r"\\nas-1.lan\x9"), "nas-1.lan_x9");
    assert_eq!(backup_on("C:"), r"C:\h\.prot\backups\C\x\.prot");
    assert_eq!(backup_on("C:"), backup_on(r"\\?\C:"));
}

#[test]
fn volumes_whose_plain_names_meet_get_directories_of_their_own() {
    let volumes = [
        "C:",
        "D:",
        r"\\a\b_c",
        r"\\a_b\c",
        r"\\a\b.c",
        r"\\a\b c",
        r"\\a\b",
        r"\\a\b.",
        r"\\?\UNC\a\b",
        r"\\.\a\b",
        r"\\C\x",
        r"\\",
        r"\\?\",
        r"\\ä\ö",
        r"\\ö\ä",
    ];
    for (i, one) in volumes.iter().enumerate() {
        for other in &volumes[i + 1..] {
            assert_ne!(backup_on(one), backup_on(other), "{one:?} {other:?}");
        }
    }
}

#[test]
fn unusual_volumes_are_written_out() {
    assert_eq!(volume_directory(r"\\a\b_c"), "a=b_c");
    assert_eq!(volume_directory(r"\\a_b\c"), "a_b=c");
    assert_eq!(volume_directory(r"\\a\b c"), "a=b c");
    assert_eq!(volume_directory(r"\\a\b."), "a=b.+");
    assert_eq!(volume_directory(r"\\a\b "), "a=b +");
    assert_eq!(volume_directory(r"\\ä\ö"), "ä=ö");
    assert_eq!(volume_directory(r"\\a+\b=c"), "a+2b=b+3dc");
    assert_eq!(volume_directory(r"\\?\UNC\a\b"), "=UNC=a=b");
    assert_eq!(volume_directory(r"\\?\Volume{1-2}"), "=Volume{1-2}");
    assert_eq!(volume_directory(r"\\.\a"), "._a");
    assert_eq!(volume_directory("//a/b"), "+2f+2fa+2fb++");
    assert_eq!(volume_directory(""), "++");
    assert_eq!(volume_directory("\t\u{7f}"), "+09+7f++");
}

#[test]
fn the_directory_of_a_long_share_can_be_made() {
    let server = "s".repeat(170);
    let share = "_ ".repeat(40);
    for prefix in [
        format!(r"\\{server}\{share}"),
        format!(r"\\?\UNC\{server}\{share}"),
    ] {
        let name = volume_directory(&prefix);
        assert!(name.chars().count() < prefix.chars().count());
        assert!(!name.ends_with(' ') && !name.ends_with('.'));
    }
    assert_eq!(volume_directory(&format!(r"\\{server}\a_b")).len(), 174);
}

#[test]
fn a_backup_directory_that_fails_is_told() {
    let e = directory_failure("/h/.prot/backups", "disk full".to_string());
    assert_eq!(e.message(), "creating backup directory /h/.prot/backups");
    assert_eq!(e.cause(), Some("disk full".to_string()));
}
