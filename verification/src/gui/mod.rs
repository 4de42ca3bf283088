//! The desktop: windows on a picture of the screen, drawn from back to front,
//! with a task bar and a start menu.

pub mod rect;
pub mod term_state;
pub mod scene;
pub mod actions;
pub mod paint;
pub mod calls;
pub mod desk_laws;
pub mod frame_laws;
pub mod term_laws;
pub mod terms;
pub mod draw;
pub mod desktop;
pub mod session;
pub mod show_laws;
pub mod laws;
