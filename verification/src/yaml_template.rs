//! The raw shape of one catalog record, as the entry files on disk supply
//! it: six plain fields, not yet normalized or scored.
use vstd::prelude::*;

verus! {

/// One raw catalog record.
pub struct YamlTemplate {
    /// A unique name in lowercase letters.
    pub id: String,
    /// The real name of the tool or software.
    pub title: String,
    /// Lowercase tags for the search function.
    pub tags: Vec<String>,
    /// A longer text describing what the tool does.
    pub description: String,
    /// Links to websites, repositories, or other resources.
    pub references: Vec<String>,
    /// Pointers to alternative entries.
    pub why_not: Vec<String>,
}

} // verus!
