//! The verified core of a command-line bridge between a local git
//! repository and a remote issue tracker: it composes search filters into a
//! JQL query and a search URL, classifies the tracker's response, decides
//! what each command does with it, and derives branch names from issue
//! titles and version suffixes. All I/O - the HTTP call, configuration
//! lookup, and the git subprocess - stays outside this crate and hands in
//! plain values.

pub mod cli;
pub mod commands;
pub mod jira;
pub mod text;
pub mod utils;
