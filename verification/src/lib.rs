//! Reader for structure-from-motion reconstructions: calibrated cameras,
//! posed images, and a sparse 3D point cloud with visibility tracks, decoded
//! from either a text or a binary encoding into one common data model.

pub mod bin;
pub mod cameras;
pub mod foreign;
pub mod images;
pub mod laws;
pub mod lex;
pub mod model;
pub mod points;

pub use crate::cameras::read_cameras;
pub use crate::images::read_images;
pub use crate::lex::parse;
pub use crate::model::Camera;
pub use crate::model::CameraModel;
pub use crate::model::DecodeError;
pub use crate::model::Image;
pub use crate::model::Point3D;
pub use crate::model::QuatBits;
pub use crate::model::Vec2Bits;
pub use crate::model::Vec3Bits;
pub use crate::points::read_points3d;
