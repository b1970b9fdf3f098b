//! Verified core of a screen recorder with automatic zoom: the zoom
//! keyframe planner, the camera and cursor timelines, the project model,
//! and the text formats and frame arithmetic around capture and export.

pub mod text;
pub mod project;
pub mod zoom;
pub mod camera;
pub mod cursor;
pub mod style;
pub mod capture;
pub mod input;
pub mod frame;
pub mod export;
pub mod preview;
