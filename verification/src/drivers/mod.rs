//! Device drivers.

pub mod framebuffer;
pub mod uart_16650;
