pub mod function_capture;
