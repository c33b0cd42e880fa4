//! Reading packed data.

pub mod bitreader;
pub mod move_score_list_reader;
pub mod training_data_reader;
