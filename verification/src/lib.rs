pub mod canvas;
pub mod fixed;
pub mod render;
pub mod scene;
pub mod shade;
pub mod trace;
pub mod vec3;
