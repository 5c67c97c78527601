//! Insights into the history of a repository: who wrote the lines that
//! survive, who committed how often, who owns which file, and when commits
//! were made. The library takes the output of the history tool as text and
//! gives numbers and pictures; running the tool and showing the result are
//! left to the program around it.

pub mod blame;
pub mod civil;
pub mod cli;
pub mod code_frequency;
pub mod git;
pub mod ledger;
pub mod names;
pub mod output;
pub mod ownership;
pub mod render;
pub mod report;
pub mod scope;
pub mod stats;
pub mod tables;
pub mod text;
pub mod user;
pub mod visualize;
