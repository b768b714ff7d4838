//! Wire protocol: target addresses, request frames and spec inputs.

pub mod frame_laws;
pub mod request;
pub mod spec_input;
pub mod util;
