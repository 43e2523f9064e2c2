//! What can go wrong when a scene is loaded and its renderer is built.
use vstd::prelude::*;

use crate::json::decimal_text;

verus! {

/// What can go wrong when a renderer is built from a resolved scene.
#[derive(Clone, Copy, Debug, PartialEq, Eq, Structural)]
pub enum SceneError {
    /// No object of the scene can be drawn.
    NoRenderableObjects,
    /// The projection has no extent along some axis.
    BadProjection {
        /// Width of the projection.
        width: u32,
        /// Height of the projection.
        height: u32,
    },
}

/// The message of a [`SceneError`].
pub open spec fn scene_message(e: SceneError) -> Seq<char> {
    match e {
        SceneError::NoRenderableObjects => "scene has no renderable objects"@,
        SceneError::BadProjection { width, height } => "scene projection size is degenerate ("@
            + crate::json::decimal(width as nat) + "x"@ + crate::json::decimal(height as nat)
            + ")"@,
    }
}

impl SceneError {
    /// The message for a user.
    pub fn message(&self) -> (r: String)
        ensures
            r@ == scene_message(*self),
    {
        match self {
            SceneError::NoRenderableObjects => "scene has no renderable objects".to_owned(),
            SceneError::BadProjection { width, height } => {
                let mut s = "scene projection size is degenerate (".to_owned();
                let w = decimal_text(*width as u64);
                let h = decimal_text(*height as u64);
                s.append(w.as_str());
                s.append("x");
                s.append(h.as_str());
                s.append(")");
                s
            },
        }
    }
}

/// What can go wrong when a scene is loaded from its package.
#[derive(Debug)]
pub enum SceneLoadError {
    /// The package could not be opened.
    Pkg(String),
    /// The scene description could not be read from the package.
    SceneJson(String),
    /// The scene description could not be parsed.
    Parse(String),
    /// The renderer could not be built.
    Build(SceneError),
}

/// The message of a [`SceneLoadError`].
pub open spec fn load_message(e: SceneLoadError) -> Seq<char> {
    match e {
        SceneLoadError::Pkg(s) => "cannot open scene.pkg: "@ + s@,
        SceneLoadError::SceneJson(s) => "cannot read scene.json from scene.pkg: "@ + s@,
        SceneLoadError::Parse(s) => "cannot parse scene.json: "@ + s@,
        SceneLoadError::Build(e) => "cannot build scene renderer: "@ + scene_message(e),
    }
}

impl SceneLoadError {
    /// The message for a user.
    pub fn message(&self) -> (r: String)
        ensures
            r@ == load_message(*self),
    {
        match self {
            SceneLoadError::Pkg(e) => joined_message("cannot open scene.pkg: ", e.as_str()),
            SceneLoadError::SceneJson(e) => joined_message(
                "cannot read scene.json from scene.pkg: ",
                e.as_str(),
            ),
            SceneLoadError::Parse(e) => joined_message("cannot parse scene.json: ", e.as_str()),
            SceneLoadError::Build(e) => {
                let m = e.message();
                joined_message("cannot build scene renderer: ", m.as_str())
            },
        }
    }
}

/// Two texts, one after the other.
pub fn joined_message(head: &str, tail: &str) -> (r: String)
    ensures
        r@ == head@ + tail@,
{
    let mut s = head.to_owned();
    s.append(tail);
    s
}

/// A message names what went wrong: the size of a projection without extent, and
/// why a package, a description or a renderer failed.
pub proof fn law_messages_name_causes(width: u32, height: u32, why: String, e: SceneError)
    ensures
        scene_message(SceneError::NoRenderableObjects) == "scene has no renderable objects"@,
        scene_message(SceneError::BadProjection { width, height })
            == "scene projection size is degenerate ("@ + crate::json::decimal(width as nat)
            + "x"@ + crate::json::decimal(height as nat) + ")"@,
        load_message(SceneLoadError::Pkg(why)) == "cannot open scene.pkg: "@ + why@,
        load_message(SceneLoadError::SceneJson(why)) == "cannot read scene.json from scene.pkg: "@
            + why@,
        load_message(SceneLoadError::Parse(why)) == "cannot parse scene.json: "@ + why@,
        load_message(SceneLoadError::Build(e)) == "cannot build scene renderer: "@ + scene_message(
            e,
        ),
{
}

} // verus!
