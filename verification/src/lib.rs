//! Wallpaper scenes: value encodings, property bindings, pass planning and
//! the decisions a renderer takes per object and per frame.
pub mod assets;
pub mod blend;
pub mod bloom;
pub mod building;
pub mod bundle;
pub mod compose;
pub mod error;
pub mod fields;
pub mod glyphs;
pub mod json;
pub mod literal;
pub mod live;
pub mod load;
pub mod material;
pub mod number;
pub mod object;
pub mod order;
pub mod params;
pub mod parse_error;
pub mod parse_laws;
pub mod particle;
pub mod pipeline;
pub mod plan;
pub mod property;
pub mod registry;
pub mod renderer;
pub mod resolve;
pub mod resolve_laws;
pub mod scene;
pub mod script_host;
pub mod scripting;
pub mod table;
pub mod text;
pub mod texture;
pub mod user;
pub mod value;
pub mod varying;
