use skills_manager::frontmatter::{
    ensure_skill_md_has_yaml_frontmatter, extract_description_from_skill_md,
    skill_md_starts_with_yaml_frontmatter, yaml_single_quote,
};

#[test]
fn extract_description_from_yaml_frontmatter_single_line() {
    let md = "---\nname: demo\ndescription: hello world\n---\n\n# demo\n";
    assert_eq!(
        extract_description_from_skill_md(md),
        Some("hello world".to_string())
    );
}

#[test]
fn extract_description_from_yaml_frontmatter_block_scalar() {
    let md = "---\nname: demo\ndescription: |\n  line1\n  line2\n---\n\n# demo\n";
    assert_eq!(
        extract_description_from_skill_md(md),
        Some("line1\nline2".to_string())
    );
}

#[test]
fn description_needs_a_metadata_block() {
    assert_eq!(extract_description_from_skill_md("description: x\n"), None);
    assert_eq!(extract_description_from_skill_md(""), None);
    assert_eq!(extract_description_from_skill_md("---"), None);
    assert_eq!(extract_description_from_skill_md("--- \ndescription: x\n---\n"), None);
}

#[test]
fn description_is_read_behind_byte_order_marks_and_carriage_returns() {
    let md = "\u{feff}\u{feff}---\r\nname: demo\r\nDescription:   spaced out  \r\n---\r\nbody\r\n";
    assert_eq!(
        extract_description_from_skill_md(md),
        Some("spaced out".to_string())
    );
}

#[test]
fn description_key_is_matched_whole_and_without_case() {
    let md = "---\ndescriptions: no\n  DESCRIPTION : yes\n---\n";
    assert_eq!(extract_description_from_skill_md(md), Some("yes".to_string()));
    let md = "---\ndescription\n---\n";
    assert_eq!(extract_description_from_skill_md(md), None);
    let md = "---\nname: a\n---\ndescription: below the block\n";
    assert_eq!(extract_description_from_skill_md(md), None);
}

#[test]
fn description_without_closing_line_reads_to_the_end() {
    let md = "---\nname: a\ndescription: open ended";
    assert_eq!(
        extract_description_from_skill_md(md),
        Some("open ended".to_string())
    );
}

#[test]
fn first_description_line_decides() {
    let md = "---\ndescription:\ndescription: second\n---\n";
    assert_eq!(extract_description_from_skill_md(md), None);
}

#[test]
fn quoted_descriptions_lose_their_quotes() {
    let md = "---\ndescription: 'it''s here'\n---\n";
    assert_eq!(extract_description_from_skill_md(md), Some("it's here".to_string()));
    let md = "---\ndescription: \"a ''b''\"\n---\n";
    assert_eq!(extract_description_from_skill_md(md), Some("a ''b''".to_string()));
    let md = "---\ndescription: '  padded '\n---\n";
    assert_eq!(extract_description_from_skill_md(md), Some("padded".to_string()));
    let md = "---\ndescription: '\n---\n";
    assert_eq!(extract_description_from_skill_md(md), Some("'".to_string()));
    let md = "---\ndescription: ''\n---\n";
    assert_eq!(extract_description_from_skill_md(md), None);
    let md = "---\ndescription: 'open\n---\n";
    assert_eq!(extract_description_from_skill_md(md), Some("'open".to_string()));
    let md = "---\ndescription: a: b\n---\n";
    assert_eq!(extract_description_from_skill_md(md), Some("a: b".to_string()));
}

#[test]
fn block_scalar_keeps_blank_lines_and_deeper_indentation() {
    let md = "---\ndescription: >\n    first\n\n      deeper\n    last\n  less\nname: x\n---\n";
    assert_eq!(
        extract_description_from_skill_md(md),
        Some("first\n\n  deeper\nlast".to_string())
    );
}

#[test]
fn block_scalar_ends_at_the_block_end() {
    let md = "---\ndescription: |-\n\tone\n\ttwo\n---\n\tthree\n";
    assert_eq!(
        extract_description_from_skill_md(md),
        Some("one\ntwo".to_string())
    );
    let md = "---\ndescription: |\n---\n";
    assert_eq!(extract_description_from_skill_md(md), None);
    let md = "---\ndescription: |\nname: unindented\n---\n";
    assert_eq!(
        extract_description_from_skill_md(md),
        Some("name: unindented".to_string())
    );
}

#[test]
fn metadata_block_is_recognised_at_the_head_only() {
    assert!(skill_md_starts_with_yaml_frontmatter("---\nname: a\n---\n"));
    assert!(skill_md_starts_with_yaml_frontmatter("---\r\nname: a\r\n---\r\n"));
    assert!(skill_md_starts_with_yaml_frontmatter("\u{feff}---\n"));
    assert!(!skill_md_starts_with_yaml_frontmatter("# agent-browser\n\n---\n"));
    assert!(!skill_md_starts_with_yaml_frontmatter("---"));
    assert!(!skill_md_starts_with_yaml_frontmatter(" ---\n"));
    assert!(!skill_md_starts_with_yaml_frontmatter("----\n"));
    assert!(!skill_md_starts_with_yaml_frontmatter(""));
}

#[test]
fn single_quoting_doubles_embedded_quotes() {
    assert_eq!(yaml_single_quote("agent-browser"), "'agent-browser'");
    assert_eq!(yaml_single_quote("it's"), "'it''s'");
    assert_eq!(yaml_single_quote("''"), "''''''");
    assert_eq!(yaml_single_quote(""), "''");
}

#[test]
fn metadata_block_is_added_once() {
    let content = "# agent-browser\n\n---\n";
    let written = ensure_skill_md_has_yaml_frontmatter(content, "agent-browser").unwrap();
    assert_eq!(written, "---\nname: 'agent-browser'\n---\n\n# agent-browser\n\n---\n");
    assert!(skill_md_starts_with_yaml_frontmatter(&written));
    assert_eq!(ensure_skill_md_has_yaml_frontmatter(&written, "other"), None);
}

#[test]
fn metadata_block_names_the_skill_or_the_placeholder() {
    assert_eq!(
        ensure_skill_md_has_yaml_frontmatter("body", "  Bob's skill ").unwrap(),
        "---\nname: 'Bob''s skill'\n---\n\nbody"
    );
    assert_eq!(
        ensure_skill_md_has_yaml_frontmatter("body", " \t").unwrap(),
        "---\nname: 'skill'\n---\n\nbody"
    );
}
