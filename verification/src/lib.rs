//! Thumbnails of the windows and monitors of a Wayland session.

pub mod course;
pub mod desktop;
pub mod develop;
pub mod globals;
pub mod jobs;
pub mod picture;
pub mod pixels;
pub mod run;
pub mod scale;
pub mod session;
pub mod text;
