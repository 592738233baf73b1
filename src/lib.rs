//! Builds base16 theme files: expands scheme colors into template variables,
//! renders templates and plans where each (scheme, template) output goes.

pub mod builder;
pub mod color;
pub mod model;
pub mod render;
pub mod schemes;
pub mod sources;
pub mod templates;
pub mod text;
pub mod yaml;
