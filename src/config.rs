//! What the user chooses to report and to leave out.
use vstd::prelude::*;

verus! {

/// Which projects are reported.
#[derive(Debug)]
pub struct Projects {
    /// Whether 32-bit projects are reported.
    pub report_32_bit: bool,
    /// Whether 64-bit projects are reported.
    pub report_64_bit: bool,
}

/// Which plugins are left out.
#[derive(Debug)]
pub struct Plugins {
    /// Plugin GUIDs to ignore.
    pub guid_ignores: Vec<String>,
    /// Plugin names to ignore.
    pub name_ignores: Vec<String>,
}

/// The configuration of the tool.
#[derive(Debug)]
pub struct Config {
    /// Project path patterns to skip.
    pub path_ignore_patterns: Vec<String>,
    /// Configuration related to projects.
    pub projects: Projects,
    /// Configuration related to plugins.
    pub plugins: Plugins,
}

impl Config {
    /// The configuration that reports every project and ignores nothing.
    pub open spec fn is_default(&self) -> bool {
        &&& self.path_ignore_patterns@.len() == 0
        &&& self.projects.report_32_bit
        &&& self.projects.report_64_bit
        &&& self.plugins.guid_ignores@.len() == 0
        &&& self.plugins.name_ignores@.len() == 0
    }

    /// A configuration that reports every project and ignores nothing.
    pub fn new() -> (r: Self)
        ensures
            r.is_default(),
    {
        Self {
            path_ignore_patterns: Vec::new(),
            projects: Projects { report_32_bit: true, report_64_bit: true },
            plugins: Plugins { guid_ignores: Vec::new(), name_ignores: Vec::new() },
        }
    }
}

impl Default for Config {
    fn default() -> (r: Self)
        ensures
            r.is_default(),
    {
        Self::new()
    }
}

} // verus!
