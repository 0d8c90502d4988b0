//! Reading legacy split-timer save files into a run record, plus the pace
//! prediction helpers and components that read such a record.

pub mod current_pace;
pub mod model;
pub mod pace_component;
pub mod parser;
pub mod previous_segment;
pub mod reader;
pub mod text;
pub mod version;
pub mod xml;
