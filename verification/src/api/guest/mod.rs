pub mod report;
pub mod rtmr;
