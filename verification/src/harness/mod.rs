//! What tools and requests to a model are made of.

pub mod request;
pub mod skills;
pub mod tools;
