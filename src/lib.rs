pub mod json_object;
pub mod scanner;
pub mod json;
pub mod helper;
pub mod file_content;
