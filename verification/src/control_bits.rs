pub use crate::transport_layer::control_bits::ControlBits;
