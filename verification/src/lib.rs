//! Verified core of a process monitor: command-line and worker-command
//! parsing, settings resolution, time and size formatting, the replay
//! player's state machine, leak-confidence tracking across sampling cycles,
//! restart counting, process-tree utilities, the ordering and filtering of
//! the interface's tables, the leak report's grouping by allocation site,
//! the decisions of the sampling backend, and the grouping and splitting of
//! training runs.

pub mod error;
pub mod dto;
pub mod text;
pub mod pid_map;
pub mod gui_enums;
pub mod leaks;
pub mod timefmt;
pub mod units;
pub mod clock;
pub mod replay;
pub mod cli;
pub mod settings;
pub mod tree;
pub mod output;
pub mod gui_state;
pub mod hashing;
pub mod leak_report;
pub mod charts;
pub mod passwd;
pub mod trainer;
pub mod anomaly;
pub mod backend;
pub mod order;
pub mod leak_table;
pub mod process_table;
pub mod restarts;
pub mod line_groups;
pub mod datasets;
pub mod splits;
pub mod scan_marks;
pub mod view_models;
pub mod controls;
pub mod calendar;
pub mod double_ratio;
