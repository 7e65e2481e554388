pub mod checkout;
pub mod command;
pub mod errors;
pub mod manifest;
pub mod profile;
pub mod replay;
pub mod text;
