pub mod context;
pub mod fragment;
pub mod icode_source;
pub mod local_id_generator;
pub mod nested_counter;
