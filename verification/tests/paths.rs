use skills_manager::distribute::{skill_store_dir, uninstall_targets};
use skills_manager::error::SyncError;
use skills_manager::models::AgentInfo;
use skills_manager::paths::{
    agent_roots, expand_tilde, is_same_path, manager_store_root, prevent_nested_move,
    skill_dest_for_agent, Resolved,
};

fn agent(current: &str, default: &str) -> AgentInfo {
    AgentInfo {
        id: "a".to_string(),
        name: "A".to_string(),
        default_path: default.to_string(),
        current_path: current.to_string(),
        enabled: true,
        icon: String::new(),
    }
}

fn plain(path: &str) -> Resolved {
    Resolved { path: path.to_string(), canonical: None }
}

fn resolved(path: &str, canonical: &str) -> Resolved {
    Resolved { path: path.to_string(), canonical: Some(canonical.to_string()) }
}

#[test]
fn tilde_is_expanded_to_the_home_directory() {
    assert_eq!(expand_tilde("~", Some("/home/u")), "/home/u");
    assert_eq!(expand_tilde("  ~/skills ", Some("/home/u")), "/home/u/skills");
    assert_eq!(expand_tilde("~\\skills", Some("/home/u")), "/home/u/skills");
    assert_eq!(expand_tilde("~/a/b", Some("/home/u/")), "/home/u/a/b");
    assert_eq!(expand_tilde("~/", Some("/home/u")), "/home/u/");
    assert_eq!(expand_tilde("~//etc", Some("/home/u")), "/etc");
}

#[test]
fn other_paths_stand_for_themselves() {
    assert_eq!(expand_tilde(" /opt/skills ", Some("/home/u")), "/opt/skills");
    assert_eq!(expand_tilde("~user/skills", Some("/home/u")), "~user/skills");
    assert_eq!(expand_tilde("a/~/b", Some("/home/u")), "a/~/b");
    assert_eq!(expand_tilde("", Some("/home/u")), "");
}

#[test]
fn tilde_stays_where_no_home_is_known() {
    assert_eq!(expand_tilde("~", None), "~");
    assert_eq!(expand_tilde(" ~/skills", None), "~/skills");
}

#[test]
fn store_root_must_not_be_blank() {
    assert!(matches!(manager_store_root("", None), Err(SyncError::EmptyStoragePath)));
    assert!(matches!(manager_store_root(" \n", Some("/h")), Err(SyncError::EmptyStoragePath)));
    assert_eq!(manager_store_root("", None).unwrap_err().message(), "storagePath is empty");
    assert_eq!(manager_store_root(" ~/store ", Some("/h")).unwrap(), "/h/store");
    assert_eq!(manager_store_root("/store", None).unwrap(), "/store");
}

#[test]
fn agent_roots_are_current_then_default() {
    assert_eq!(agent_roots(&agent("/cur", "/def"), None), vec!["/cur", "/def"]);
    assert_eq!(agent_roots(&agent(" ", "/def"), None), vec!["/def"]);
    assert_eq!(agent_roots(&agent("/cur", ""), None), vec!["/cur"]);
    assert_eq!(agent_roots(&agent("", "  "), None), Vec::<String>::new());
    assert_eq!(agent_roots(&agent("~/s", "/def"), Some("/h")), vec!["/h/s", "/def"]);
}

#[test]
fn agent_roots_that_are_one_location_are_served_once() {
    assert_eq!(agent_roots(&agent("/same", "/same"), None), vec!["/same"]);
    assert_eq!(agent_roots(&agent("/same/", " /same"), None), vec!["/same/"]);
    assert_eq!(agent_roots(&agent("~/s", "/h/s"), Some("/h")), vec!["/h/s"]);
    assert_eq!(agent_roots(&agent("/a//b", "/a/b"), None), vec!["/a//b"]);
}

#[test]
fn skill_destination_lies_under_the_current_directory() {
    let a = agent(" ~/agent ", "/def");
    assert_eq!(skill_dest_for_agent(&a, " My/Skill ", Some("/h")), "/h/agent/My-Skill");
    assert_eq!(skill_store_dir("/store", "a/b"), "/store/a-b");
    assert_eq!(skill_store_dir("/store", " "), "/store/skill");
}

#[test]
fn same_path_is_told_as_written_or_as_resolved() {
    assert!(is_same_path(&plain("/a/b"), &plain("/a/b")));
    assert!(is_same_path(&plain("/a/b/"), &plain("/a//b")));
    assert!(!is_same_path(&plain("/a/b"), &plain("/a/c")));
    assert!(is_same_path(&resolved("/link", "/real"), &resolved("/other", "/real")));
    assert!(!is_same_path(&resolved("/link", "/real"), &plain("/real2")));
    assert!(!is_same_path(&resolved("/x", "/one"), &resolved("/y", "/two")));
}

#[test]
fn nested_move_is_refused() {
    let err = prevent_nested_move(&plain("/a"), &plain("/a/b")).unwrap_err();
    assert!(matches!(err, SyncError::NestedDestination { .. }));
    assert!(prevent_nested_move(&resolved("/link", "/a"), &resolved("/x", "/a/b/c")).is_err());
    assert!(prevent_nested_move(&plain("/a"), &plain("/a")).is_ok());
    assert!(prevent_nested_move(&plain("/a"), &plain("/ab")).is_ok());
    assert!(prevent_nested_move(&plain("/a/b"), &plain("/a")).is_ok());
    assert!(prevent_nested_move(&resolved("/a", "/real"), &plain("/a/b")).is_ok());
}

#[test]
fn uninstall_names_the_store_and_every_agent_directory() {
    let mut off = agent("/off", "");
    off.enabled = false;
    let targets = uninstall_targets("/store", "a/b", &vec![agent("/cur", "/def"), off], None);
    assert_eq!(targets, vec!["/store/a-b", "/cur/a-b", "/def/a-b", "/off/a-b"]);
}
