//! The assembled render configuration: image, scene and camera
//! descriptors as plain values.  Coordinates are stored fixed-point
//! integers ([`crate::math::SCALE`] units to one); parsing text into
//! these values is the caller's concern.

use vstd::prelude::*;

verus! {

#[derive(Debug)]
pub struct Config {
    pub image: ImageConfig,
    pub scene: SceneConfig,
    pub camera: CameraConfig,
}

#[derive(Clone, Copy, Debug, PartialEq, Eq)]
pub struct CameraConfig {
    pub origin: [i64; 3],
    pub view: [i64; 3],
    pub up: [i64; 3],
}

#[derive(Debug)]
pub struct ImageConfig {
    pub name: String,
    pub width: usize,
    pub height: usize,
}

#[derive(Debug)]
pub struct SceneConfig {
    pub spheres: Vec<SphereConfig>,
    pub lights: Vec<LightConfig>,
}

#[derive(Clone, Copy, Debug, PartialEq, Eq)]
pub struct SphereConfig {
    pub center: [i64; 3],
    pub radius: i64,
    pub properties: ObjProperties,
}

#[derive(Clone, Copy, Debug, PartialEq, Eq)]
pub struct ObjProperties {
    pub color: [u8; 3],
    pub diffuse: Option<i64>,
    pub reflection: Option<i64>,
}

#[derive(Clone, Copy, Debug, PartialEq, Eq)]
pub struct LightConfig {
    pub origin: [i64; 3],
}

} // verus!
