//! Declarative symbolic-link installation: classification of link targets,
//! their ordering, the execution policies and the backup naming scheme.

pub mod backup;
pub mod cli;
pub mod dotfiles;
pub mod linker;
pub mod linker_stats;
pub mod linkfile;
pub mod paths;
pub mod stats;
