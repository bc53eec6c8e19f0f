pub use crate::transport_layer::frame_status::FrameStatus;
