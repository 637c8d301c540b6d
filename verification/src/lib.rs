//! Scene-side logic of a small OpenGL renderer: which texture files a
//! model's materials ask for, how loaded textures are looked up when a mesh
//! is drawn, which shader sources the built-in shaders use, and how keyboard
//! and window input drive the main loop and the camera.

pub mod material;
pub mod texture;
pub mod input;
pub mod shader;
pub mod matrix;
