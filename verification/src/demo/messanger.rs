pub mod connection_processor;
pub mod file_models;
pub mod log_message;
pub mod log_message_connector_events_adapter;
pub mod message;
pub mod message_type;
pub mod network_file_info;
