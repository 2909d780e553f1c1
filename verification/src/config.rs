//! Server settings and their defaults.

use vstd::prelude::*;

verus! {

/// Settings of one server instance.
///
/// Directories are kept as text; the program around the library turns them
/// into paths when it touches the file system.
#[derive(Debug, Clone)]
pub struct RAstraConfig {
    pub display_name: String,
    pub display_sub_name: String,
    pub threads: usize,
    pub log_to_file: bool,
    pub logs_directory: String,
    pub resource_packs_directory: String,
    pub behavior_packs_directory: String,
    pub level_name: String,
    pub level_seed: u64,
}

impl RAstraConfig {
    /// The directories that must exist before the server starts, in the order
    /// in which they are created.
    pub open spec fn spec_required_directories(&self) -> Seq<Seq<char>> {
        seq![
            self.logs_directory@,
            self.resource_packs_directory@,
            self.behavior_packs_directory@,
        ]
    }

    /// The directories that must exist before the server starts: logs,
    /// resource packs, behavior packs.
    pub fn required_directories(&self) -> (dirs: Vec<String>)
        ensures
            dirs.len() == 3,
            dirs@.map_values(|d: String| d@) == self.spec_required_directories(),
    {
        let mut dirs: Vec<String> = Vec::new();
        dirs.push(self.logs_directory.clone());
        dirs.push(self.resource_packs_directory.clone());
        dirs.push(self.behavior_packs_directory.clone());
        assert(dirs@.map_values(|d: String| d@) =~= self.spec_required_directories());
        dirs
    }
}

impl Default for RAstraConfig {
    /// The settings written out when no settings file exists yet.
    fn default() -> (config: Self)
        ensures
            config.display_name@ == "Dedicated Server"@,
            config.display_sub_name@ == "RAstra"@,
            config.threads == 4,
            config.log_to_file,
            config.logs_directory@ == "logs"@,
            config.resource_packs_directory@ == "resource_packs"@,
            config.behavior_packs_directory@ == "behavior_packs"@,
            config.level_name@ == "Bedrock Level"@,
            config.level_seed == 0,
    {
        RAstraConfig {
            display_name: "Dedicated Server".to_owned(),
            display_sub_name: "RAstra".to_owned(),
            threads: 4,
            log_to_file: true,
            logs_directory: "logs".to_owned(),
            resource_packs_directory: "resource_packs".to_owned(),
            behavior_packs_directory: "behavior_packs".to_owned(),
            level_name: "Bedrock Level".to_owned(),
            level_seed: 0,
        }
    }
}

} // verus!
