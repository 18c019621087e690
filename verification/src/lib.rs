pub mod ads;
pub mod dom;
pub mod extract;
pub mod encoding;
pub mod error;
pub mod table;
pub mod text;
