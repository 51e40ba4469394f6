//! Batch renaming and copying of files by regular-expression substitution on
//! their file names: the plan of moves, its safety check, the command line
//! and the journal, each with a contract that its code is proved to meet.
pub mod cli;
pub mod graph;
pub mod logger;
pub mod network;
pub mod paths;
pub mod pattern;
pub mod structs;
pub mod textdiff;
