pub mod answer;
pub mod file_laws;
pub mod filename;
pub mod files;
pub mod laws;
pub mod links;
pub mod pagelist;
pub mod pattern;
pub mod phase;
pub mod query;
pub mod row_laws;
pub mod run;
pub mod search_laws;
pub mod sort;
pub mod source_laws;
pub mod step_laws;
pub mod string_map;
pub mod text;
pub mod text_laws;
pub mod title;
pub mod wdfist;
