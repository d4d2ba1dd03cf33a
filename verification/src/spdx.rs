pub mod details;
pub mod list;
pub mod ranking;
pub mod similarity;
