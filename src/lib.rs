pub mod tree;
pub mod query;
pub mod forms;
pub mod cookies;
pub mod login;
