use skills_manager::collect::{listed, store_key, wants_copy};
use skills_manager::listing::{DirEntry, EntryKind};
use skills_manager::contributors::Contributors;
use skills_manager::quality::{
    should_replace_skill_dir, skill_md_quality, MarkerFile, SkillMdQuality,
};

fn q(has_yaml_frontmatter: bool, bytes: u64) -> SkillMdQuality {
    SkillMdQuality { has_yaml_frontmatter, bytes }
}

fn marker(content: &str) -> MarkerFile {
    MarkerFile { bytes: Some(content.len() as u64), content: Some(content.to_string()) }
}

#[test]
fn metadata_block_outranks_size() {
    assert!(should_replace_skill_dir(q(true, 1), q(false, 1_000_000)));
    assert!(!should_replace_skill_dir(q(false, 1_000_000), q(true, 1)));
    assert!(should_replace_skill_dir(q(true, 0), q(false, u64::MAX)));
}

#[test]
fn larger_marker_file_wins_among_equals() {
    assert!(should_replace_skill_dir(q(true, 11), q(true, 10)));
    assert!(!should_replace_skill_dir(q(true, 10), q(true, 10)));
    assert!(!should_replace_skill_dir(q(true, 9), q(true, 10)));
    assert!(should_replace_skill_dir(q(false, 11), q(false, 10)));
    assert!(!should_replace_skill_dir(q(false, 10), q(false, 11)));
}

#[test]
fn quality_is_read_off_the_marker_file() {
    assert_eq!(skill_md_quality(None), q(false, 0));
    assert_eq!(skill_md_quality(Some(&marker("---\nname: a\n---\n"))), q(true, 16));
    assert_eq!(skill_md_quality(Some(&marker("# a\n"))), q(false, 4));
    let unreadable = MarkerFile { bytes: Some(7), content: None };
    assert_eq!(skill_md_quality(Some(&unreadable)), q(false, 7));
    let unsized_file = MarkerFile { bytes: None, content: Some("---\r\n".to_string()) };
    assert_eq!(skill_md_quality(Some(&unsized_file)), q(true, 0));
}

#[test]
fn copy_is_wanted_where_the_store_has_none_or_a_lesser_one() {
    let with_block = marker("---\nname: a\n---\n");
    let without = marker("# a much longer file without a block\n");
    assert!(wants_copy(false, None, None));
    assert!(wants_copy(false, Some(&without), Some(&with_block)));
    assert!(wants_copy(true, Some(&with_block), Some(&without)));
    assert!(!wants_copy(true, Some(&without), Some(&with_block)));
    assert!(!wants_copy(true, Some(&without), Some(&without)));
    assert!(wants_copy(true, Some(&without), None));
    assert!(!wants_copy(true, None, None));
}

#[test]
fn store_key_is_the_safe_name_of_a_visible_directory() {
    assert_eq!(store_key("agent-browser"), Some("agent-browser".to_string()));
    assert_eq!(store_key(" My Skill"), Some("My Skill".to_string()));
    assert_eq!(store_key(".hidden"), None);
    assert_eq!(store_key(""), None);
    assert_eq!(store_key("a..b"), Some("ab".to_string()));
}

#[test]
fn contributors_are_kept_once_and_in_order() {
    let mut found = Contributors::new();
    assert_eq!(found.agents_of("demo"), Vec::<String>::new());
    for (key, agent) in [
        ("demo", "zed"),
        ("demo", "amy"),
        ("other", "bob"),
        ("demo", "zed"),
        ("demo", "Amy"),
        ("demo", "am"),
    ] {
        found = found.record(key.to_string(), agent.to_string());
    }
    assert_eq!(found.agents_of("demo"), vec!["Amy", "am", "amy", "zed"]);
    assert_eq!(found.agents_of("other"), vec!["bob"]);
    assert_eq!(found.agents_of("none"), Vec::<String>::new());
}

#[test]
fn store_listing_becomes_the_list_of_skills() {
    let mut found = Contributors::new();
    found = found.record("demo".to_string(), "zed".to_string());
    found = found.record("demo".to_string(), "amy".to_string());
    found = found.record("gone".to_string(), "amy".to_string());
    let entry = |name: &str, kind: EntryKind| DirEntry {
        name: name.to_string(),
        kind,
        is_dir: kind == EntryKind::Dir,
    };
    let entries = vec![
        entry("orphan", EntryKind::Dir),
        entry(".git", EntryKind::Dir),
        entry("notes.txt", EntryKind::File),
        entry("linked", EntryKind::Symlink),
        entry("demo", EntryKind::Dir),
    ];
    let skills = listed(&entries, &found, "2026-01-23T02:15:34Z");
    assert_eq!(skills.len(), 2);
    assert_eq!(skills[0].id, "orphan");
    assert_eq!(skills[0].name, "orphan");
    assert_eq!(skills[0].source_url, None);
    assert_eq!(skills[0].enabled_agents, Vec::<String>::new());
    assert_eq!(skills[1].name, "demo");
    assert_eq!(skills[1].enabled_agents, vec!["amy", "zed"]);
    for skill in &skills {
        assert_eq!(skill.last_sync.as_deref(), Some("2026-01-23T02:15:34Z"));
        assert_eq!(skill.last_update.as_deref(), Some("2026-01-23T02:15:34Z"));
    }
    assert_eq!(listed(&vec![], &found, "now").len(), 0);
}
