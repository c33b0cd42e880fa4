//! Writing packed data.

pub mod bitwriter;
pub mod move_score_list_writer;
pub mod training_data_writer;
