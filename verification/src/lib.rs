//! A chat-bot command dispatcher for managing topic group chats.
//!
//! Inbound text messages are parsed into [`types::Command`] values, routed to
//! a handler by command name, and the handler's optional reply is returned to
//! the originating chat.  Handlers may read and write a namespaced
//! topic-group registry (group name to invite URL, scoped by the owning
//! chat).  Every function carries a contract describing exactly what it
//! returns; the surrounding process (transport polling, worker pool, real
//! registry backend) lives outside this library and drives it through the
//! decision functions in [`dispatch`].

pub mod commands;
pub mod datastore;
pub mod dispatch;
pub mod errors;
pub mod types;
pub mod utils;
