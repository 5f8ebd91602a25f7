pub mod text;
pub mod math;
pub mod html;
pub mod warnings;
pub mod classify;
pub mod paths;
pub mod markdown;
pub mod assets;
pub mod size;
pub mod render;
pub mod cli;
pub mod window;
pub mod restore;
