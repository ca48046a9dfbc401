//! A small task-list library: a store of titled, free-text tasks with a
//! verified JSON encoding, mutation operations that keep task ids unique,
//! and a command dispatcher that maps an action name and arguments to one
//! store operation.

pub mod codec;
pub mod dispatch;
pub mod render;
pub mod store;
pub mod task;
