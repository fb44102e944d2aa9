pub mod generators;
pub mod id;
pub mod link;
pub mod pagination;
pub mod repository;
pub mod service;
pub mod laws;
pub mod utils;
pub mod wrappers;
pub mod request;
