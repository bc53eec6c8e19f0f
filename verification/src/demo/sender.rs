pub mod message_subscriber;
pub mod rrtp_application;
pub mod status;
