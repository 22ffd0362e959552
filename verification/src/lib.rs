pub mod app;
pub mod image;
pub mod link;
pub mod project;
pub mod response;
pub mod state;
