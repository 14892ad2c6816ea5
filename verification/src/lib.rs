pub mod calendar;
pub mod controls;
pub mod display;
pub mod gitanalyzer;
pub mod history;
pub mod order;
pub mod paths;
pub mod procs;
pub mod ranking;
pub mod scanner;
pub mod tally;
pub mod text;
pub mod units;
