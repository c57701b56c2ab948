//! Mass file-renaming core: decomposing a wildcard pattern against concrete
//! filenames to extract the substrings each wildcard matched, and rebuilding
//! new filenames from a target template with numbered placeholders.

pub mod files_operations;
pub mod template_handling;
