//! The verified core of a small code editor: text and path handling, searching,
//! ranking, git output, diffs, trees, terminal logic and the state of each panel.

pub mod agent;
pub mod badge;
pub mod changes;
pub mod chrome;
pub mod commit;
pub mod console;
pub mod diff;
pub mod diffwin;
pub mod docks;
pub mod filetree;
pub mod find;
pub mod finder;
pub mod frame;
pub mod git;
pub mod gitlog;
pub mod keys;
pub mod merge;
pub mod order;
pub mod outline;
pub mod palette;
pub mod path;
pub mod pr;
pub mod processes;
pub mod project;
pub mod prompts;
pub mod push;
pub mod repo;
pub mod review;
pub mod screen;
pub mod search;
pub mod storm;
pub mod syntax;
pub mod tabs;
pub mod term;
pub mod text;
pub mod theme;
pub mod unified;
pub mod vt;
pub mod workspace;
