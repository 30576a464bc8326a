pub mod csv;
pub mod table;
