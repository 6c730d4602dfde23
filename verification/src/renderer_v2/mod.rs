//! Renderer V2 planning and state: the physical environment resource plan,
//! the instanced GPU scene plan, and the temporal presentation lifecycle.

pub mod atmosphere;
pub mod temporal;
pub mod scene;
