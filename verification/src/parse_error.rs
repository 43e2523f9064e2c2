//! What can go wrong when a scene description is parsed.
use vstd::prelude::*;

use crate::error::joined_message;
use crate::value::VecError;

verus! {

/// What can go wrong when a scene description is parsed.
#[derive(Debug)]
pub enum SceneError {
    /// The bytes are not JSON.
    Json(String),
    /// The root is not an object.
    NotAnObject,
    /// A required section is missing.
    MissingSection(String),
    /// A required field of the camera is missing.
    MissingCameraField(String),
    /// A vector of the camera does not parse.
    CameraVec {
        /// The field.
        field: String,
        /// What is wrong with it.
        source: VecError,
    },
}

/// The message of a [`SceneError`].
pub open spec fn parse_message(e: SceneError) -> Seq<char> {
    match e {
        SceneError::Json(s) => "invalid JSON: "@ + s@,
        SceneError::NotAnObject => "scene.json root is not a JSON object"@,
        SceneError::MissingSection(s) => "required section `"@ + s@ + "` missing"@,
        SceneError::MissingCameraField(s) => "camera field `"@ + s@ + "` missing"@,
        SceneError::CameraVec { field, source } => "camera field `"@ + field@ + "`: "@
            + crate::value::vec_message(source),
    }
}

impl SceneError {
    /// The message for a user.
    pub fn message(&self) -> (r: String)
        ensures
            r@ == parse_message(*self),
    {
        match self {
            SceneError::Json(s) => joined_message("invalid JSON: ", s.as_str()),
            SceneError::NotAnObject => "scene.json root is not a JSON object".to_owned(),
            SceneError::MissingSection(s) => {
                let mut m = joined_message("required section `", s.as_str());
                m.append("` missing");
                m
            },
            SceneError::MissingCameraField(s) => {
                let mut m = joined_message("camera field `", s.as_str());
                m.append("` missing");
                m
            },
            SceneError::CameraVec { field, source } => {
                let mut m = joined_message("camera field `", field.as_str());
                m.append("`: ");
                let tail = source.message();
                m.append(tail.as_str());
                m
            },
        }
    }
}

} // verus!
