pub mod connection_manager;
pub mod connector;
pub mod event_emitter;
pub mod message;
pub mod message_type;
