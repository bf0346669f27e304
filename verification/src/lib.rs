pub mod join;
pub mod laws;
pub mod pairs;
pub mod report;
pub mod stats;
pub mod table;
pub mod text;
pub mod value;
