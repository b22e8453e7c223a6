//! The verified core of iris, a tool that photographs live web pages.

pub mod address;
pub mod clip;
pub mod course;
pub mod double;
pub mod double_laws;
pub mod image;
pub mod json;
pub mod mode;
pub mod output;
pub mod outside;
pub mod paths;
pub mod plan;
pub mod reply;
pub mod report;
pub mod request;
pub mod script_laws;
pub mod scripts;
pub mod session;
pub mod text;
pub mod viewport;
