pub mod text;
pub mod models;
pub mod author;
pub mod db;
pub mod handlers;
pub mod laws;
