//! Process-wide services: client configuration, JSON reading, the store database, MAA's configuration,
//! logging and notifications.

pub mod config;
pub mod json;
pub mod logging;
pub mod maa;
pub mod notification;
pub mod store;
