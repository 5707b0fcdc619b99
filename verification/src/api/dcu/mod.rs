pub mod address_set;
pub mod collection;
pub mod discovery;
pub mod hyflash;
pub mod pci;
pub mod query;
pub mod security;
pub mod topology;
pub mod verification;
