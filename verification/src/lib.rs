pub mod error;
pub mod vault;
pub mod vault_model;
pub mod bare;
pub mod identifiers;
pub mod change;
pub mod encoding;
pub mod history;
pub mod contact;
pub mod authentication;
pub mod profile;
pub mod vault_worker;
