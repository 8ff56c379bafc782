//! A declarative database proxy core: versions, the query catalog, argument
//! binding and the startup migration plan that reconciles a store's recorded
//! version with the conversions a specification declares.

pub mod catalog;
pub mod entries;
pub mod error;
pub mod migration;
pub mod text;
pub mod version;
