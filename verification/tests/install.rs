use skills_manager::error::SyncError;
use skills_manager::install::{
    archive_root, bootstrap_marker, clone_url, fallback_name, install_request, installed_at,
    installed_skill, is_archive_url, name_sources, normalize_install_url, parse_name_from_dir,
    reinstall_request,
};
use skills_manager::paths::candidate_post_install_sources;

#[test]
fn normalize_install_url_normalizes_github_urls() {
    assert_eq!(
        normalize_install_url("github.com/foo/bar"),
        "https://github.com/foo/bar"
    );
    assert_eq!(
        normalize_install_url("foo/bar"),
        "https://github.com/foo/bar"
    );
    assert_eq!(
        normalize_install_url("https://github.com/foo/bar/"),
        "https://github.com/foo/bar"
    );
    assert_eq!(
        normalize_install_url("https://github.com/foo/everything/tree/main/skills/security-review/"),
        "https://github.com/foo/everything/tree/main/skills/security-review"
    );
    assert_eq!(normalize_install_url("http://example.com/x"), "http://example.com/x");
}

#[test]
fn candidate_post_install_sources_prefers_agents_dir_first() {
    let sources = candidate_post_install_sources("demo-skill", Some("/home/demo"));
    assert_eq!(sources.len(), 1);
    assert!(sources[0].contains("/.agents/skills/demo-skill"));
    assert_eq!(sources[0], "/home/demo/.agents/skills/demo-skill");
}

#[test]
fn candidate_sources_without_a_home_keep_the_tilde() {
    let sources = candidate_post_install_sources("demo-skill", None);
    assert_eq!(sources, vec!["~/.agents/skills/demo-skill".to_string()]);
}

#[test]
fn normalize_install_url_leaves_other_texts_alone() {
    assert_eq!(normalize_install_url("  foo/bar//  "), "https://github.com/foo/bar");
    assert_eq!(normalize_install_url("a/b/c"), "a/b/c");
    assert_eq!(normalize_install_url("foo bar/baz"), "foo bar/baz");
    assert_eq!(normalize_install_url("plain"), "plain");
    assert_eq!(normalize_install_url(""), "");
    assert_eq!(normalize_install_url("github.com/"), "github.com");
    assert_eq!(normalize_install_url("github.com/x"), "https://github.com/x");
}

#[test]
fn archives_are_told_from_repositories() {
    assert!(is_archive_url("https://example.com/skill.zip"));
    assert!(is_archive_url("https://example.com/SKILL.ZIP"));
    assert!(is_archive_url("https://example.com/skill.Zip?token=1"));
    assert!(!is_archive_url("https://example.com/skill.zip/"));
    assert!(!is_archive_url("https://github.com/foo/zip"));
}

#[test]
fn clone_url_ends_in_git() {
    assert_eq!(clone_url("https://github.com/foo/bar"), "https://github.com/foo/bar.git");
    assert_eq!(clone_url("https://github.com/foo/bar.git"), "https://github.com/foo/bar.git");
}

#[test]
fn fallback_name_is_the_last_segment_without_suffixes() {
    assert_eq!(fallback_name("https://github.com/foo/bar"), "bar");
    assert_eq!(fallback_name("https://github.com/foo/bar.git"), "bar");
    assert_eq!(fallback_name("https://example.com/pack.zip"), "pack");
    assert_eq!(fallback_name("https://example.com/pack.zip.git.git"), "pack");
    assert_eq!(fallback_name("https://example.com/pack.git.zip"), "pack.git");
    assert_eq!(fallback_name("plain"), "plain");
    assert_eq!(fallback_name("trailing/"), "");
}

#[test]
fn name_is_parsed_from_the_first_heading_of_the_first_file() {
    assert_eq!(
        name_sources(),
        vec!["SKILL.md", "skill.md", "README.md", "README.MD", "readme.md"]
    );
    let contents = vec![
        None,
        Some("intro\n  # # My Skill  \n# Other\n".to_string()),
        Some("# Readme\n".to_string()),
    ];
    assert_eq!(parse_name_from_dir(&contents, "fallback"), "My Skill");
    let contents = vec![Some("#no space\n## deeper\n".to_string()), Some("# Readme\n".to_string())];
    assert_eq!(parse_name_from_dir(&contents, "fallback"), "fallback");
    assert_eq!(parse_name_from_dir(&vec![None, None], "fallback"), "fallback");
    assert_eq!(parse_name_from_dir(&vec![Some("# \r\n".to_string())], "fallback"), "fallback");
    assert_eq!(parse_name_from_dir(&vec![Some("# x\r\n".to_string())], "fallback"), "x");
}

#[test]
fn install_needs_a_skill_name() {
    assert!(matches!(install_request("foo/bar", " "), Err(SyncError::EmptySkillName)));
    assert_eq!(
        install_request("foo/bar", "").unwrap_err().message(),
        "skillName is empty"
    );
    let request = install_request(" foo/bar/ ", " my/skill ").unwrap();
    assert_eq!(request.url, "https://github.com/foo/bar");
    assert_eq!(request.name, "my-skill");
    assert_eq!(
        request.arguments(),
        vec!["skills", "add", "https://github.com/foo/bar", "--skill", "my-skill", "-g", "-y"]
    );
    assert_eq!(install_request("", "..").unwrap().name, "");
}

#[test]
fn reinstall_needs_an_address_and_a_directory_name() {
    assert!(matches!(reinstall_request(" ", "demo"), Err(SyncError::EmptyRepoUrl)));
    assert!(matches!(reinstall_request("", ".."), Err(SyncError::EmptyRepoUrl)));
    assert_eq!(reinstall_request("", "x").unwrap_err().message(), "repoUrl is empty");
    assert!(matches!(reinstall_request("foo/bar", ".."), Err(SyncError::EmptySkillName)));
    let request = reinstall_request("foo/bar", "").unwrap();
    assert_eq!(request.name, "skill");
    assert_eq!(request.url, "https://github.com/foo/bar");
}

#[test]
fn installed_skill_is_taken_from_the_first_place_that_has_it() {
    assert_eq!(installed_at(&vec![false, true, true], "demo").unwrap(), 1);
    assert_eq!(installed_at(&vec![true], "demo").unwrap(), 0);
    let err = installed_at(&vec![false, false], "demo").unwrap_err();
    assert!(matches!(err, SyncError::InstalledSkillMissing { .. }));
    assert_eq!(
        err.message(),
        "Installed skill directory not found under known locations (expected ~/.agents/skills/demo)"
    );
    assert!(installed_at(&vec![], "demo").is_err());
}

#[test]
fn archive_root_is_the_single_top_directory() {
    assert_eq!(archive_root(&vec!["/x/only".to_string()]), Some("/x/only".to_string()));
    assert_eq!(archive_root(&vec![]), None);
    assert_eq!(archive_root(&vec!["/x/a".to_string(), "/x/b".to_string()]), None);
}

#[test]
fn new_skills_get_a_marker_and_a_record() {
    assert_eq!(bootstrap_marker("My Skill"), "# My Skill\n");
    let skill = installed_skill(
        "id1".to_string(),
        "demo".to_string(),
        "foo/bar".to_string(),
        vec!["x".to_string()],
        "2026-01-23T02:15:34Z",
    );
    assert_eq!(skill.id, "id1");
    assert_eq!(skill.name, "demo");
    assert_eq!(skill.source_url.as_deref(), Some("foo/bar"));
    assert_eq!(skill.enabled_agents, vec!["x"]);
    assert_eq!(skill.last_sync.as_deref(), Some("2026-01-23T02:15:34Z"));
    assert_eq!(skill.last_update, skill.last_sync);
}
