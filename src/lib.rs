//! Conversion of character models and animations between a game's binary
//! mesh (`.p3m`) and keyframe (`.frm`) formats and the glTF interchange format.
//!
//! Every format is converted through one [`scene::Scene`]. Floating-point
//! values are carried as their IEEE-754 single-precision bit patterns (`u32`);
//! the arithmetic on them is done by `glam` and the processor, behind
//! functions whose results are named in the contracts.
//!
//! - [`le`], [`text`], [`geometry`]: the fields of the binary formats.
//! - [`p3m`], [`frm`]: the game's model and animation files.
//! - [`scene`]: the scene model.
//! - [`skeleton`], [`skinning`], [`animation`]: between the game's files and scenes.
//! - [`transform`]: between left-handed scenes and right-handed glTF.
//! - [`gltf`], [`glb`]: the glTF document, its buffer, and its binary container.
//! - [`gltf_import`]: what reading a glTF document decides.
//! - [`asset`], [`convert`]: files, importers, exporters and merging.

pub mod le;
pub mod text;
pub mod geometry;
pub mod p3m;
pub mod frm;
pub mod scene;
pub mod skeleton;
pub mod skinning;
pub mod animation;
pub mod transform;
pub mod gltf;
pub mod glb;
pub mod gltf_import;
pub mod asset;
pub mod convert;
