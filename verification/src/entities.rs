pub mod account;
pub mod board;
pub mod ticket;
