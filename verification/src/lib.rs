//! A KRunner plugin that lists the recent workspaces of every installed Zed channel.
//!
//! The library holds the plugin's logic, verified with Verus: which desktop entries
//! are Zed installations and where each keeps its workspace database (`desktop`,
//! `channel`), which workspaces become projects (`projects`), how a query is matched
//! and answered (`matching`), and how a chosen match is opened (`launch`). Reading
//! the disk and the database, D-Bus, and starting programs are left to the binary.
mod channel;
mod desktop;
mod launch;
mod matching;
mod paths;
mod projects;
mod text;

pub use channel::{
    channel_from_desktop, channel_from_lowercase, db_path_for_channel, db_path_for_exec,
    db_path_for_lowercase_exec, ZedChannel,
};
pub use desktop::{
    application_dirs, dedup_instances, instance_from_desktop_fields, zed_instance_from_desktop_file,
    DesktopFields, ZedInstance, SCHEMA_HANDLER_ID,
};
pub use projects::{project_name, query_projects, workspace_paths, Project};
pub use matching::{match_score, score_lowercased, InstanceProjects, MatchScore, RunnerMatch, ZedRunner, EXACT_MATCH_TYPE};
pub use launch::{parse_match_id, Command, LaunchPlan, MatchTarget};
pub use paths::{file_name_of, has_desktop_extension};
pub use text::is_white_space;
