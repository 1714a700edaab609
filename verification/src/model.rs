//! The data model: the camera-model registry (a closed enumeration of the
//! supported camera models, each with a fixed numeric id, a fixed symbolic
//! name, and a fixed parameter count), the three decoded entity kinds, and
//! the two decode-failure families.
//!
//! Floating-point fields are carried as IEEE-754 bit patterns: `u64` for
//! 64-bit fields, `u32` for the 32-bit fields that the binary encoding
//! narrows and the text encoding parses at single precision.

use vstd::prelude::*;
use crate::foreign::f32_bits_of_f64_bits;
use crate::foreign::narrow_f64_bits;

verus! {

/// The eleven supported camera models.
#[derive(Debug, Clone, Copy, PartialEq, Eq, Structural)]
pub enum CameraModel {
    SimplePinhole,
    Pinhole,
    SimpleRadial,
    Radial,
    OpenCV,
    OpenCvFishEye,
    FullOpenCV,
    Fov,
    SimpleRadialFisheye,
    RadialFisheye,
    ThinPrismFisheye,
}

/// The model a numeric id stands for, if any; ids outside `0 ..= 10` stand
/// for no model.
pub open spec fn model_of_id(id: int) -> Option<CameraModel> {
    if id == 0 {
        Some(CameraModel::SimplePinhole)
    } else if id == 1 {
        Some(CameraModel::Pinhole)
    } else if id == 2 {
        Some(CameraModel::SimpleRadial)
    } else if id == 3 {
        Some(CameraModel::Radial)
    } else if id == 4 {
        Some(CameraModel::OpenCV)
    } else if id == 5 {
        Some(CameraModel::OpenCvFishEye)
    } else if id == 6 {
        Some(CameraModel::FullOpenCV)
    } else if id == 7 {
        Some(CameraModel::Fov)
    } else if id == 8 {
        Some(CameraModel::SimpleRadialFisheye)
    } else if id == 9 {
        Some(CameraModel::RadialFisheye)
    } else if id == 10 {
        Some(CameraModel::ThinPrismFisheye)
    } else {
        None
    }
}

/// The numeric id of each model; inverse of `model_of_id` on `0 ..= 10`.
pub open spec fn model_id(m: CameraModel) -> int {
    match m {
        CameraModel::SimplePinhole => 0,
        CameraModel::Pinhole => 1,
        CameraModel::SimpleRadial => 2,
        CameraModel::Radial => 3,
        CameraModel::OpenCV => 4,
        CameraModel::OpenCvFishEye => 5,
        CameraModel::FullOpenCV => 6,
        CameraModel::Fov => 7,
        CameraModel::SimpleRadialFisheye => 8,
        CameraModel::RadialFisheye => 9,
        CameraModel::ThinPrismFisheye => 10,
    }
}

/// The fixed number of intrinsic parameters of each model.
pub open spec fn param_count(m: CameraModel) -> nat {
    match m {
        CameraModel::SimplePinhole => 3,
        CameraModel::Pinhole => 4,
        CameraModel::SimpleRadial => 4,
        CameraModel::Radial => 5,
        CameraModel::OpenCV => 8,
        CameraModel::OpenCvFishEye => 8,
        CameraModel::FullOpenCV => 12,
        CameraModel::Fov => 5,
        CameraModel::SimpleRadialFisheye => 4,
        CameraModel::RadialFisheye => 5,
        CameraModel::ThinPrismFisheye => 12,
    }
}

impl CameraModel {
    /// Looks a model up by its numeric id.
    pub fn from_id(id: i32) -> (r: Option<CameraModel>)
        ensures
            r == model_of_id(id as int),
    {
        match id {
            0 => Some(Self::SimplePinhole),
            1 => Some(Self::Pinhole),
            2 => Some(Self::SimpleRadial),
            3 => Some(Self::Radial),
            4 => Some(Self::OpenCV),
            5 => Some(Self::OpenCvFishEye),
            6 => Some(Self::FullOpenCV),
            7 => Some(Self::Fov),
            8 => Some(Self::SimpleRadialFisheye),
            9 => Some(Self::RadialFisheye),
            10 => Some(Self::ThinPrismFisheye),
            _ => None,
        }
    }

    /// The fixed number of intrinsic parameters of this model.
    pub fn num_params(&self) -> (n: usize)
        ensures
            n == param_count(*self),
    {
        match self {
            Self::SimplePinhole => 3,
            Self::Pinhole => 4,
            Self::SimpleRadial => 4,
            Self::Radial => 5,
            Self::OpenCV => 8,
            Self::OpenCvFishEye => 8,
            Self::FullOpenCV => 12,
            Self::Fov => 5,
            Self::SimpleRadialFisheye => 4,
            Self::RadialFisheye => 5,
            Self::ThinPrismFisheye => 12,
        }
    }
}

/// The model a symbolic name stands for, if any.
pub open spec fn model_of_name(s: Seq<char>) -> Option<CameraModel> {
    if s == "SIMPLE_PINHOLE"@ {
        Some(CameraModel::SimplePinhole)
    } else if s == "PINHOLE"@ {
        Some(CameraModel::Pinhole)
    } else if s == "SIMPLE_RADIAL"@ {
        Some(CameraModel::SimpleRadial)
    } else if s == "RADIAL"@ {
        Some(CameraModel::Radial)
    } else if s == "OPENCV"@ {
        Some(CameraModel::OpenCV)
    } else if s == "OPENCV_FISHEYE"@ {
        Some(CameraModel::OpenCvFishEye)
    } else if s == "FULL_OPENCV"@ {
        Some(CameraModel::FullOpenCV)
    } else if s == "FOV"@ {
        Some(CameraModel::Fov)
    } else if s == "SIMPLE_RADIAL_FISHEYE"@ {
        Some(CameraModel::SimpleRadialFisheye)
    } else if s == "RADIAL_FISHEYE"@ {
        Some(CameraModel::RadialFisheye)
    } else if s == "THIN_PRISM_FISHEYE"@ {
        Some(CameraModel::ThinPrismFisheye)
    } else {
        None
    }
}

impl CameraModel {
    /// Looks a model up by its symbolic name.
    pub fn from_name(name: &str) -> (r: Option<CameraModel>)
        ensures
            r == model_of_name(name@),
    {
        let n = name.to_owned();
        if n == "SIMPLE_PINHOLE".to_owned() {
            Some(Self::SimplePinhole)
        } else if n == "PINHOLE".to_owned() {
            Some(Self::Pinhole)
        } else if n == "SIMPLE_RADIAL".to_owned() {
            Some(Self::SimpleRadial)
        } else if n == "RADIAL".to_owned() {
            Some(Self::Radial)
        } else if n == "OPENCV".to_owned() {
            Some(Self::OpenCV)
        } else if n == "OPENCV_FISHEYE".to_owned() {
            Some(Self::OpenCvFishEye)
        } else if n == "FULL_OPENCV".to_owned() {
            Some(Self::FullOpenCV)
        } else if n == "FOV".to_owned() {
            Some(Self::Fov)
        } else if n == "SIMPLE_RADIAL_FISHEYE".to_owned() {
            Some(Self::SimpleRadialFisheye)
        } else if n == "RADIAL_FISHEYE".to_owned() {
            Some(Self::RadialFisheye)
        } else if n == "THIN_PRISM_FISHEYE".to_owned() {
            Some(Self::ThinPrismFisheye)
        } else {
            None
        }
    }
}

/// Every id in `0 ..= 10` names exactly one model, distinct ids name distinct
/// models, and no id outside that range names any.
pub proof fn lemma_model_table_total()
    ensures
        forall|id: int| 0 <= id <= 10 ==> (#[trigger] model_of_id(id)) is Some,
        forall|id: int| !(0 <= id <= 10) ==> (#[trigger] model_of_id(id)) is None,
        forall|a: int, b: int|
            0 <= a <= 10 && 0 <= b <= 10 && a != b ==> model_of_id(a) != model_of_id(b),
{
}

/// The two failure families of a decode: invalid data, or a source exhausted
/// before a record was complete.
pub enum Fail {
    Data,
    Io,
}

/// A decode error; the string is a human-readable reason.
#[derive(Debug, Clone, PartialEq, Eq)]
pub enum DecodeError {
    Data(String),
    Io(String),
}

impl DecodeError {
    /// The family this error belongs to.
    pub open spec fn fail(&self) -> Fail {
        match self {
            DecodeError::Data(_) => Fail::Data,
            DecodeError::Io(_) => Fail::Io,
        }
    }

    /// Whether this is a data-validity error (as opposed to an exhausted or
    /// failed source).
    pub fn is_data(&self) -> (r: bool)
        ensures
            r == (self.fail() == Fail::Data),
    {
        match self {
            DecodeError::Data(_) => true,
            DecodeError::Io(_) => false,
        }
    }

    /// The human-readable reason: the string the error was built with.
    pub fn reason(&self) -> (r: &String)
        ensures
            match *self {
                DecodeError::Data(s) => *r == s,
                DecodeError::Io(s) => *r == s,
            },
    {
        match self {
            DecodeError::Data(s) => s,
            DecodeError::Io(s) => s,
        }
    }
}

pub(crate) fn data_err(msg: &str) -> (e: DecodeError)
    ensures
        e.fail() == Fail::Data,
{
    DecodeError::Data(msg.to_owned())
}

pub(crate) fn io_err(msg: &str) -> (e: DecodeError)
    ensures
        e.fail() == Fail::Io,
{
    DecodeError::Io(msg.to_owned())
}

/// A 32-bit 2-vector as IEEE-754 single bit patterns.
#[derive(Debug, Clone, Copy, PartialEq, Eq, Structural)]
pub struct Vec2Bits {
    pub x: u32,
    pub y: u32,
}

/// A 32-bit 3-vector as IEEE-754 single bit patterns.
#[derive(Debug, Clone, Copy, PartialEq, Eq, Structural)]
pub struct Vec3Bits {
    pub x: u32,
    pub y: u32,
    pub z: u32,
}

/// A quaternion as IEEE-754 single bit patterns, stored vector-first
/// (x, y, z, w); both encodings carry it scalar-first (w, x, y, z) and are
/// reordered on decode.
#[derive(Debug, Clone, Copy, PartialEq, Eq, Structural)]
pub struct QuatBits {
    pub x: u32,
    pub y: u32,
    pub z: u32,
    pub w: u32,
}

/// A calibrated camera. `params` holds the model's intrinsic parameters as
/// IEEE-754 double bit patterns, in encoding order.
#[derive(Debug, Clone)]
pub struct Camera {
    pub id: i32,
    pub model: CameraModel,
    pub width: u64,
    pub height: u64,
    pub params: Vec<u64>,
}

/// A posed image: orientation, position, a camera reference, a name, and the
/// parallel 2D-observation sequences.
#[derive(Debug, Clone)]
pub struct Image {
    pub quat: QuatBits,
    pub tvec: Vec3Bits,
    pub camera_id: i32,
    pub name: String,
    pub xys: Vec<Vec2Bits>,
    pub point3d_ids: Vec<i64>,
}

/// A sparse 3D point: position, color, reprojection error (a double bit
/// pattern), and the parallel visibility-track sequences.
#[derive(Debug, Clone)]
pub struct Point3D {
    pub xyz: Vec3Bits,
    pub rgb: [u8; 3],
    pub error: u64,
    pub image_ids: Vec<i32>,
    pub point2d_idxs: Vec<i32>,
}

/// The mathematical value of a `Camera`.
pub ghost struct CameraV {
    pub id: i32,
    pub model: CameraModel,
    pub width: u64,
    pub height: u64,
    pub params: Seq<u64>,
}

impl CameraV {
    /// A camera carries exactly its model's number of parameters.
    pub open spec fn wf(&self) -> bool {
        self.params.len() == param_count(self.model)
    }
}

impl View for Camera {
    type V = CameraV;

    open spec fn view(&self) -> CameraV {
        CameraV {
            id: self.id,
            model: self.model,
            width: self.width,
            height: self.height,
            params: self.params@,
        }
    }
}

/// The mathematical value of an `Image`.
pub ghost struct ImageV {
    pub quat: QuatBits,
    pub tvec: Vec3Bits,
    pub camera_id: i32,
    pub name: Seq<char>,
    pub xys: Seq<Vec2Bits>,
    pub point3d_ids: Seq<i64>,
}

impl ImageV {
    /// The observation sequences run in parallel.
    pub open spec fn wf(&self) -> bool {
        self.xys.len() == self.point3d_ids.len()
    }
}

impl View for Image {
    type V = ImageV;

    open spec fn view(&self) -> ImageV {
        ImageV {
            quat: self.quat,
            tvec: self.tvec,
            camera_id: self.camera_id,
            name: self.name@,
            xys: self.xys@,
            point3d_ids: self.point3d_ids@,
        }
    }
}

/// The mathematical value of a `Point3D`.
pub ghost struct PointV {
    pub xyz: Vec3Bits,
    pub rgb: Seq<u8>,
    pub error: u64,
    pub image_ids: Seq<i32>,
    pub point2d_idxs: Seq<i32>,
}

impl PointV {
    /// The track sequences run in parallel.
    pub open spec fn wf(&self) -> bool {
        self.image_ids.len() == self.point2d_idxs.len() && self.rgb.len() == 3
    }
}

impl View for Point3D {
    type V = PointV;

    open spec fn view(&self) -> PointV {
        PointV {
            xyz: self.xyz,
            rgb: self.rgb@,
            error: self.error,
            image_ids: self.image_ids@,
            point2d_idxs: self.point2d_idxs@,
        }
    }
}

/// The view of a decoded map: each entity replaced by its mathematical value.
pub open spec fn view_map<K, T: View>(m: Map<K, T>) -> Map<K, T::V> {
    m.map_values(|t: T| t@)
}

/// How a decoder's result must relate to the mathematical decode of its
/// input: the same entries on success, an error of the same family on
/// failure.
pub open spec fn outcome_matches<K, T: View>(
    sr: Result<Map<K, T::V>, Fail>,
    r: Result<std::collections::HashMap<K, T>, DecodeError>,
) -> bool {
    match r {
        Ok(m) => sr matches Ok(sm) && m@.dom() == sm.dom() && (forall|k: K|
            #[trigger] sm.dom().contains(k) ==> m@[k]@ == sm[k]),
        Err(e) => sr matches Err(f) && f == e.fail(),
    }
}

/// Index of the parameter that holds the focal length along y, per model.
pub open spec fn focal_y_index(m: CameraModel) -> int {
    match m {
        CameraModel::SimplePinhole => 0,
        CameraModel::Pinhole => 1,
        CameraModel::SimpleRadial => 0,
        CameraModel::Radial => 0,
        CameraModel::OpenCV => 1,
        CameraModel::OpenCvFishEye => 1,
        CameraModel::FullOpenCV => 1,
        CameraModel::Fov => 1,
        CameraModel::SimpleRadialFisheye => 0,
        CameraModel::RadialFisheye => 0,
        CameraModel::ThinPrismFisheye => 1,
    }
}

/// Index of the parameter that holds the principal point along x, per model;
/// the y coordinate follows at the next index.
pub open spec fn principal_x_index(m: CameraModel) -> int {
    match m {
        CameraModel::SimplePinhole => 1,
        CameraModel::Pinhole => 2,
        CameraModel::SimpleRadial => 1,
        CameraModel::Radial => 1,
        CameraModel::OpenCV => 2,
        CameraModel::OpenCvFishEye => 2,
        CameraModel::FullOpenCV => 2,
        CameraModel::Fov => 2,
        CameraModel::SimpleRadialFisheye => 1,
        CameraModel::RadialFisheye => 1,
        CameraModel::ThinPrismFisheye => 2,
    }
}

impl Camera {
    /// A camera carries exactly its model's number of parameters.
    pub open spec fn wf(&self) -> bool {
        self@.wf()
    }

    /// Focal length along x and y, as double bit patterns.
    pub fn focal(&self) -> (r: (u64, u64))
        requires
            self.wf(),
        ensures
            r.0 == self@.params[0],
            r.1 == self@.params[focal_y_index(self.model)],
    {
        let x = *self.params.get(0).unwrap();
        let yi: usize = match self.model {
            CameraModel::SimplePinhole => 0,
            CameraModel::Pinhole => 1,
            CameraModel::SimpleRadial => 0,
            CameraModel::Radial => 0,
            CameraModel::OpenCV => 1,
            CameraModel::OpenCvFishEye => 1,
            CameraModel::FullOpenCV => 1,
            CameraModel::Fov => 1,
            CameraModel::SimpleRadialFisheye => 0,
            CameraModel::RadialFisheye => 0,
            CameraModel::ThinPrismFisheye => 1,
        };
        let y = *self.params.get(yi).unwrap();
        (x, y)
    }

    /// Principal point, narrowed to single bit patterns as the compact
    /// binary image fields are.
    pub fn principal_point(&self) -> (r: Vec2Bits)
        requires
            self.wf(),
        ensures
            r.x == f32_bits_of_f64_bits(self@.params[principal_x_index(self.model)]),
            r.y == f32_bits_of_f64_bits(self@.params[principal_x_index(self.model) + 1]),
    {
        let xi: usize = match self.model {
            CameraModel::SimplePinhole => 1,
            CameraModel::Pinhole => 2,
            CameraModel::SimpleRadial => 1,
            CameraModel::Radial => 1,
            CameraModel::OpenCV => 2,
            CameraModel::OpenCvFishEye => 2,
            CameraModel::FullOpenCV => 2,
            CameraModel::Fov => 2,
            CameraModel::SimpleRadialFisheye => 1,
            CameraModel::RadialFisheye => 1,
            CameraModel::ThinPrismFisheye => 2,
        };
        let x = narrow_f64_bits(*self.params.get(xi).unwrap());
        let y = narrow_f64_bits(*self.params.get(xi + 1).unwrap());
        Vec2Bits { x, y }
    }
}

} // verus!
