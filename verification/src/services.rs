pub mod accounts;
pub mod boards;
pub mod tickets;
