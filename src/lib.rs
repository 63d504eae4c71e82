pub mod bytes;
pub mod context;
pub mod error;
pub mod gas;
pub mod le;
pub mod host_storage;
pub mod ledger;
pub mod memory;
pub mod output;
pub mod outside;
pub mod promises;
pub mod registers;
pub mod storage;
pub mod vm;
