pub mod context;
