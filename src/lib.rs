//! Per-server custom text commands: a registry from (tenant, trigger) to a
//! record with its reply, author and invocation count; the stored text form of
//! a record; and the decisions and replies of the chat event handlers.

pub mod codec;
pub mod dispatch;
pub mod laws;
pub mod record;
pub mod registry;
