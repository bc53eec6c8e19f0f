pub mod messanger;
pub mod sender;
