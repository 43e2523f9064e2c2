//! The scene graph: camera, general settings and objects.
use vstd::prelude::*;

use crate::number::{Scalar, ScalarView};
use crate::object::{Object, ObjectView};
use crate::user::{SettingView, UserSetting};
use crate::value::{Color, Vec3};

verus! {

/// How the scene is projected.
#[derive(Clone, Copy, Debug, PartialEq, Eq, Structural)]
pub enum Projection {
    /// The size follows from the extents of the images.
    Auto,
    /// An explicit size.
    Orthogonal {
        /// Width in pixels.
        width: i64,
        /// Height in pixels.
        height: i64,
    },
}

/// The scene camera.
#[derive(Debug)]
pub struct Camera {
    /// Eye position.
    pub eye: Vec3,
    /// Point looked at.
    pub center: Vec3,
    /// Up direction.
    pub up: Vec3,
    /// Field of view.
    pub fov: UserSetting<Scalar>,
    /// Near plane.
    pub nearz: Scalar,
    /// Far plane.
    pub farz: Scalar,
    /// Projection.
    pub projection: Projection,
}

/// Settings of the scene as a whole.
#[derive(Debug)]
pub struct General {
    /// Ambient light color.
    pub ambientcolor: UserSetting<Color>,
    /// Sky light color.
    pub skylightcolor: UserSetting<Color>,
    /// Color the frame is cleared to.
    pub clearcolor: UserSetting<Color>,
    /// Camera fade.
    pub camerafade: UserSetting<bool>,
    /// Bloom.
    pub bloom: UserSetting<bool>,
    /// Bloom strength.
    pub bloomstrength: UserSetting<Scalar>,
    /// Bloom threshold.
    pub bloomthreshold: UserSetting<Scalar>,
    /// Camera parallax.
    pub cameraparallax: UserSetting<bool>,
    /// Camera parallax amount.
    pub cameraparallaxamount: UserSetting<Scalar>,
    /// Camera parallax delay.
    pub cameraparallaxdelay: UserSetting<Scalar>,
    /// Influence of the pointer on the camera.
    pub cameraparallaxmouseinfluence: UserSetting<Scalar>,
    /// Camera shake.
    pub camerashake: UserSetting<bool>,
    /// Camera shake amplitude.
    pub camerashakeamplitude: UserSetting<Scalar>,
    /// Camera shake roughness.
    pub camerashakeroughness: UserSetting<Scalar>,
    /// Camera shake speed.
    pub camerashakespeed: UserSetting<Scalar>,
    /// Whether objects draw by their `sortorder`.
    pub customsortorder: bool,
}

/// A scene.
#[derive(Debug)]
pub struct Scene {
    /// The camera.
    pub camera: Camera,
    /// Settings of the scene as a whole.
    pub general: General,
    /// The objects, in declaration order.
    pub objects: Vec<Object>,
}

/// What a value of [`General`] holds.
pub struct GeneralView {
    /// Ambient light color.
    pub ambientcolor: SettingView<Seq<ScalarView>>,
    /// Sky light color.
    pub skylightcolor: SettingView<Seq<ScalarView>>,
    /// Color the frame is cleared to.
    pub clearcolor: SettingView<Seq<ScalarView>>,
    /// Camera fade.
    pub camerafade: SettingView<bool>,
    /// Bloom.
    pub bloom: SettingView<bool>,
    /// Bloom strength.
    pub bloomstrength: SettingView<ScalarView>,
    /// Bloom threshold.
    pub bloomthreshold: SettingView<ScalarView>,
    /// Camera parallax.
    pub cameraparallax: SettingView<bool>,
    /// Camera parallax amount.
    pub cameraparallaxamount: SettingView<ScalarView>,
    /// Camera parallax delay.
    pub cameraparallaxdelay: SettingView<ScalarView>,
    /// Influence of the pointer on the camera.
    pub cameraparallaxmouseinfluence: SettingView<ScalarView>,
    /// Camera shake.
    pub camerashake: SettingView<bool>,
    /// Camera shake amplitude.
    pub camerashakeamplitude: SettingView<ScalarView>,
    /// Camera shake roughness.
    pub camerashakeroughness: SettingView<ScalarView>,
    /// Camera shake speed.
    pub camerashakespeed: SettingView<ScalarView>,
    /// Whether objects draw by their `sortorder`.
    pub customsortorder: bool,
}

impl View for General {
    type V = GeneralView;

    open spec fn view(&self) -> GeneralView {
        GeneralView {
            ambientcolor: crate::user::setting(self.ambientcolor),
            skylightcolor: crate::user::setting(self.skylightcolor),
            clearcolor: crate::user::setting(self.clearcolor),
            camerafade: crate::user::setting(self.camerafade),
            bloom: crate::user::setting(self.bloom),
            bloomstrength: crate::user::setting(self.bloomstrength),
            bloomthreshold: crate::user::setting(self.bloomthreshold),
            cameraparallax: crate::user::setting(self.cameraparallax),
            cameraparallaxamount: crate::user::setting(self.cameraparallaxamount),
            cameraparallaxdelay: crate::user::setting(self.cameraparallaxdelay),
            cameraparallaxmouseinfluence: crate::user::setting(self.cameraparallaxmouseinfluence),
            camerashake: crate::user::setting(self.camerashake),
            camerashakeamplitude: crate::user::setting(self.camerashakeamplitude),
            camerashakeroughness: crate::user::setting(self.camerashakeroughness),
            camerashakespeed: crate::user::setting(self.camerashakespeed),
            customsortorder: self.customsortorder,
        }
    }
}

/// What a value of [`Camera`] holds.
pub struct CameraView {
    /// Eye position.
    pub eye: Seq<ScalarView>,
    /// Point looked at.
    pub center: Seq<ScalarView>,
    /// Up direction.
    pub up: Seq<ScalarView>,
    /// Field of view.
    pub fov: SettingView<ScalarView>,
    /// Near plane.
    pub nearz: ScalarView,
    /// Far plane.
    pub farz: ScalarView,
    /// Projection.
    pub projection: Projection,
}

impl View for Camera {
    type V = CameraView;

    open spec fn view(&self) -> CameraView {
        CameraView {
            eye: crate::number::scalars(self.eye@),
            center: crate::number::scalars(self.center@),
            up: crate::number::scalars(self.up@),
            fov: crate::user::setting(self.fov),
            nearz: self.nearz@,
            farz: self.farz@,
            projection: self.projection,
        }
    }
}

/// What a value of [`Scene`] holds.
pub struct SceneView {
    /// The camera.
    pub camera: CameraView,
    /// Settings of the scene as a whole.
    pub general: GeneralView,
    /// The objects.
    pub objects: Seq<ObjectView>,
}

/// What a list of objects holds.
pub open spec fn object_views(v: Seq<Object>) -> Seq<ObjectView> {
    Seq::new(v.len(), |i: int| v[i]@)
}

impl View for Scene {
    type V = SceneView;

    open spec fn view(&self) -> SceneView {
        SceneView {
            camera: self.camera@,
            general: self.general@,
            objects: object_views(self.objects@),
        }
    }
}

impl Scene {
    /// Every object is well formed.
    pub open spec fn wf(&self) -> bool {
        objects_wf(self.objects@)
    }
}

/// Every object is well formed.
pub open spec fn objects_wf(v: Seq<Object>) -> bool {
    forall|i: int| 0 <= i < v.len() ==> (#[trigger] v[i]).wf()
}

} // verus!
