use ksmm::archive::archive_file_name;
use ksmm::archive::package_entries;
use ksmm::archive::ENTRY_MODE;
use ksmm::manifest::derive_update_json;
use ksmm::manifest::github_owner_repo;
use ksmm::manifest::owner_repo_or_placeholder;
use ksmm::manifest::render_manifest;
use ksmm::pipeline::advance;
use ksmm::pipeline::Stage;
use ksmm::signing::execute_key_command;
use ksmm::signing::first_pem;
use ksmm::signing::plan_signing;
use ksmm::signing::signed_name;
use ksmm::signing::KeyCommands;
use ksmm::tree::FsTree;

fn file(name: &str) -> FsTree {
    FsTree::File { name: name.to_string() }
}

fn dir(name: &str, children: Vec<FsTree>) -> FsTree {
    FsTree::Dir { name: name.to_string(), children }
}

#[test]
fn archive_holds_exactly_the_tree() {
    let root = dir("out", vec![file("a.txt"), dir("sub", vec![file("b.txt")])]);
    let entries = package_entries(&root);
    let listed: Vec<(String, bool)> = entries
        .iter()
        .map(|e| (e.rel_path.clone(), e.is_dir))
        .collect();
    assert_eq!(
        listed,
        vec![
            ("a.txt".to_string(), false),
            ("sub".to_string(), true),
            ("sub/b.txt".to_string(), false),
        ]
    );
}

#[test]
fn archive_entries_carry_fixed_mode() {
    let root = dir("out", vec![file("x"), dir("d", vec![])]);
    for entry in package_entries(&root) {
        assert_eq!(entry.mode, ENTRY_MODE);
        assert_eq!(entry.mode, 0o755);
    }
}

#[test]
fn archive_of_empty_root_is_empty() {
    let entries = package_entries(&dir("out", vec![]));
    assert!(entries.is_empty());
}

#[test]
fn archive_name_round_trip() {
    assert_eq!(archive_file_name("foo", 42).as_str(), "foo-42.zip");
    assert_eq!(signed_name("foo-42.zip").as_str(), "foo-42_signed.zip");
}

#[test]
fn signed_name_without_zip_ending() {
    assert_eq!(signed_name("bundle.tar").as_str(), "bundle.tar_signed");
}

#[test]
fn signing_skipped_without_any_pem() {
    let names = vec!["readme.txt".to_string(), "key.pub".to_string()];
    assert!(plan_signing("foo-42.zip", &names).is_none());
    assert!(plan_signing("foo-42.zip", &Vec::new()).is_none());
}

#[test]
fn signing_uses_first_pem_key() {
    let names = vec!["notes.md".to_string(), "a.pem".to_string(), "b.pem".to_string()];
    let plan = plan_signing("foo-42.zip", &names).unwrap();
    assert_eq!(plan.key_index, 1);
    assert_eq!(plan.output.as_str(), "foo-42_signed.zip");
    assert_eq!(first_pem(&names), Some(1));
}

#[test]
fn key_command_normalizes_pem_ending() {
    let plan = execute_key_command(KeyCommands::New { name: "release".to_string() });
    assert_eq!(plan.file_name.as_str(), "release.pem");
    assert_eq!(plan.path.as_str(), ".ksmm/key/release.pem");
    let kept = execute_key_command(KeyCommands::New { name: "release.pem".to_string() });
    assert_eq!(kept.file_name.as_str(), "release.pem");
    assert_eq!(kept.path.as_str(), ".ksmm/key/release.pem");
}

#[test]
fn github_url_parsing_https_and_ssh() {
    let (o, r) = github_owner_repo("https://github.com/owner/repo.git").unwrap();
    assert_eq!((o.as_str(), r.as_str()), ("owner", "repo"));
    let (o, r) = github_owner_repo("git@github.com:owner/repo.git").unwrap();
    assert_eq!((o.as_str(), r.as_str()), ("owner", "repo"));
    let (o, r) = github_owner_repo("https://github.com/owner/repo").unwrap();
    assert_eq!((o.as_str(), r.as_str()), ("owner", "repo"));
}

#[test]
fn github_repo_name_keeps_inner_dots() {
    let (o, r) = github_owner_repo("https://github.com/o/next.js").unwrap();
    assert_eq!((o.as_str(), r.as_str()), ("o", "next.js"));
    let (o, r) = github_owner_repo("https://github.com/o/next.js.git").unwrap();
    assert_eq!((o.as_str(), r.as_str()), ("o", "next.js"));
    let (o, r) = github_owner_repo("https://github.com/o/a.b/extra").unwrap();
    assert_eq!((o.as_str(), r.as_str()), ("o", "a.b"));
}

#[test]
fn github_url_parsing_rejects_other_shapes() {
    assert!(github_owner_repo("https://example.com/owner/repo").is_none());
    assert!(github_owner_repo("github.com/").is_none());
    assert!(github_owner_repo("github.com//repo").is_none());
    assert!(github_owner_repo("").is_none());
}

#[test]
fn manifest_fallback_substitutes_placeholders() {
    let (o, r) = owner_repo_or_placeholder("not a repository url");
    assert_eq!((o.as_str(), r.as_str()), ("unknown", "repo"));
    let manifest = render_manifest("foo", "0.1.0", 42, o.as_str(), r.as_str(), "unknown");
    let zip_url_start = manifest.find("\"zipUrl\": \"").unwrap();
    let zip_url = &manifest[zip_url_start..];
    assert!(zip_url.contains("unknown"));
    assert!(zip_url.contains("repo"));
    assert!(zip_url
        .contains("\"zipUrl\": \"https://github.com/unknown/repo/releases/latest/download/foo-42.zip\""));
}

#[test]
fn manifest_rendering_exact() {
    let manifest = render_manifest("foo", "0.1.0", 42, "owner", "repo", "abc1234");
    assert_eq!(
        manifest.as_str(),
        "{\"changelog\": \"https://raw.githubusercontent.com/owner/repo/main/foo/CHANGELOG.md\", \
         \"version\": \"v0.1.0-abc1234\", \"versionCode\": 42, \
         \"zipUrl\": \"https://github.com/owner/repo/releases/latest/download/foo-42.zip\"}"
    );
}

#[test]
fn update_json_derivation_prefers_remote() {
    let remote = "https://github.com/owner/repo.git".to_string();
    let user = "someone".to_string();
    assert_eq!(
        derive_update_json(Some(&remote), Some(&user)).as_str(),
        "https://github.com/owner/repo/releases/latest/download/update.json"
    );
    assert_eq!(
        derive_update_json(None, Some(&user)).as_str(),
        "https://github.com/someone/ksmm/releases/latest/download/update.json"
    );
    let odd = "ssh://host/elsewhere".to_string();
    assert_eq!(
        derive_update_json(Some(&odd), None).as_str(),
        "https://github.com/ksmm/ksmm/releases/latest/download/update.json"
    );
}

#[test]
fn pipeline_runs_the_linear_chain() {
    let mut stage = Stage::Idle;
    for _ in 0..9 {
        stage = advance(stage, true);
    }
    assert!(stage == Stage::Done);
    assert!(advance(stage, false) == Stage::Done);
}

#[test]
fn pipeline_failure_is_terminal() {
    let failed = advance(Stage::Planned, false);
    assert!(failed == Stage::Failed);
    assert!(advance(failed, true) == Stage::Failed);
}
