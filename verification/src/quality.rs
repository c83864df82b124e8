//! Which of two copies of a skill is kept.
//!
//! A copy is judged by its marker file alone: whether the file opens with a
//! metadata block, and how many bytes it holds. A copy with a block outranks
//! one without; among copies alike in that respect, the larger file wins.

use crate::frontmatter::{has_metadata_block, skill_md_starts_with_yaml_frontmatter};
use vstd::prelude::*;

verus! {

/// What was read of a marker file: its size, where the file system gave
/// one, and its text, where the file could be read as text.
pub struct MarkerFile {
    pub bytes: Option<u64>,
    pub content: Option<String>,
}

/// The quality of a skill root.
#[derive(Clone, Copy, Debug, PartialEq, Eq, Structural)]
pub struct SkillMdQuality {
    pub has_yaml_frontmatter: bool,
    pub bytes: u64,
}

/// The quality of a root with the given marker file; a root without one has
/// no block and no bytes.
pub open spec fn quality_of(marker: Option<MarkerFile>) -> SkillMdQuality {
    match marker {
        None => SkillMdQuality { has_yaml_frontmatter: false, bytes: 0 },
        Some(file) => SkillMdQuality {
            has_yaml_frontmatter: match file.content {
                Some(text) => has_metadata_block(text@),
                None => false,
            },
            bytes: match file.bytes {
                Some(n) => n,
                None => 0,
            },
        },
    }
}

/// Whether a copy of quality `candidate` replaces one of quality `existing`.
pub open spec fn outranks(candidate: SkillMdQuality, existing: SkillMdQuality) -> bool {
    if candidate.has_yaml_frontmatter != existing.has_yaml_frontmatter {
        candidate.has_yaml_frontmatter
    } else {
        candidate.bytes > existing.bytes
    }
}

/// Judges a skill root by what was read of its marker file.
pub fn skill_md_quality(marker: Option<&MarkerFile>) -> (q: SkillMdQuality)
    ensures
        q == quality_of(
            match marker {
                Some(file) => Some(*file),
                None => None,
            },
        ),
{
    match marker {
        None => SkillMdQuality { has_yaml_frontmatter: false, bytes: 0 },
        Some(file) => {
            let has_yaml_frontmatter = match &file.content {
                Some(text) => skill_md_starts_with_yaml_frontmatter(text.as_str()),
                None => false,
            };
            let bytes = match file.bytes {
                Some(n) => n,
                None => 0,
            };
            SkillMdQuality { has_yaml_frontmatter, bytes }
        },
    }
}

/// Whether the candidate copy of a skill replaces the existing one.
pub fn should_replace_skill_dir(candidate: SkillMdQuality, existing: SkillMdQuality) -> (r: bool)
    ensures
        r == outranks(candidate, existing),
{
    if candidate.has_yaml_frontmatter && !existing.has_yaml_frontmatter {
        return true;
    }
    if !candidate.has_yaml_frontmatter && existing.has_yaml_frontmatter {
        return false;
    }
    candidate.bytes > existing.bytes
}

/// A copy with a metadata block replaces one without, and is never replaced
/// by it, whatever the sizes of the two files.
pub proof fn lemma_block_outranks_size(with_block: SkillMdQuality, without: SkillMdQuality)
    requires
        with_block.has_yaml_frontmatter,
        !without.has_yaml_frontmatter,
    ensures
        outranks(with_block, without),
        !outranks(without, with_block),
{
}

/// Of two copies that both have a metadata block, or both lack one, the
/// candidate replaces the existing copy exactly when its file is larger.
pub proof fn lemma_size_breaks_ties(candidate: SkillMdQuality, existing: SkillMdQuality)
    requires
        candidate.has_yaml_frontmatter == existing.has_yaml_frontmatter,
    ensures
        outranks(candidate, existing) <==> candidate.bytes > existing.bytes,
{
}

/// `outranks` is a strict total order on qualities: no quality outranks
/// itself, the relation passes along a chain, and of two different
/// qualities exactly one outranks the other.
pub proof fn lemma_outranks_is_strict_total_order(
    a: SkillMdQuality,
    b: SkillMdQuality,
    c: SkillMdQuality,
)
    ensures
        !outranks(a, a),
        outranks(a, b) && outranks(b, c) ==> outranks(a, c),
        a != b ==> (outranks(a, b) <==> !outranks(b, a)),
        a == b ==> !outranks(a, b),
{
}

} // verus!
