//! Tests of the camera-model registry and the integer token parser.

use colmap_reader::CameraModel;
use colmap_reader::parse;

#[test]
fn from_id_covers_all_eleven_ids() {
    assert!(matches!(CameraModel::from_id(0), Some(CameraModel::SimplePinhole)));
    assert!(matches!(CameraModel::from_id(1), Some(CameraModel::Pinhole)));
    assert!(matches!(CameraModel::from_id(2), Some(CameraModel::SimpleRadial)));
    assert!(matches!(CameraModel::from_id(3), Some(CameraModel::Radial)));
    assert!(matches!(CameraModel::from_id(4), Some(CameraModel::OpenCV)));
    assert!(matches!(CameraModel::from_id(5), Some(CameraModel::OpenCvFishEye)));
    assert!(matches!(CameraModel::from_id(6), Some(CameraModel::FullOpenCV)));
    assert!(matches!(CameraModel::from_id(7), Some(CameraModel::Fov)));
    assert!(matches!(CameraModel::from_id(8), Some(CameraModel::SimpleRadialFisheye)));
    assert!(matches!(CameraModel::from_id(9), Some(CameraModel::RadialFisheye)));
    assert!(matches!(CameraModel::from_id(10), Some(CameraModel::ThinPrismFisheye)));
}

#[test]
fn from_id_rejects_all_other_ids() {
    assert!(CameraModel::from_id(-1).is_none());
    assert!(CameraModel::from_id(11).is_none());
    assert!(CameraModel::from_id(99).is_none());
    assert!(CameraModel::from_id(i32::MIN).is_none());
    assert!(CameraModel::from_id(i32::MAX).is_none());
}

#[test]
fn from_name_covers_all_names() {
    assert!(matches!(CameraModel::from_name("SIMPLE_PINHOLE"), Some(CameraModel::SimplePinhole)));
    assert!(matches!(CameraModel::from_name("PINHOLE"), Some(CameraModel::Pinhole)));
    assert!(matches!(CameraModel::from_name("SIMPLE_RADIAL"), Some(CameraModel::SimpleRadial)));
    assert!(matches!(CameraModel::from_name("RADIAL"), Some(CameraModel::Radial)));
    assert!(matches!(CameraModel::from_name("OPENCV"), Some(CameraModel::OpenCV)));
    assert!(matches!(CameraModel::from_name("OPENCV_FISHEYE"), Some(CameraModel::OpenCvFishEye)));
    assert!(matches!(CameraModel::from_name("FULL_OPENCV"), Some(CameraModel::FullOpenCV)));
    assert!(matches!(CameraModel::from_name("FOV"), Some(CameraModel::Fov)));
    assert!(matches!(
        CameraModel::from_name("SIMPLE_RADIAL_FISHEYE"),
        Some(CameraModel::SimpleRadialFisheye)
    ));
    assert!(matches!(CameraModel::from_name("RADIAL_FISHEYE"), Some(CameraModel::RadialFisheye)));
    assert!(matches!(
        CameraModel::from_name("THIN_PRISM_FISHEYE"),
        Some(CameraModel::ThinPrismFisheye)
    ));
    assert!(CameraModel::from_name("PINHOLE2").is_none());
    assert!(CameraModel::from_name("pinhole").is_none());
    assert!(CameraModel::from_name("").is_none());
}

#[test]
fn num_params_matches_declared_arities() {
    assert_eq!(CameraModel::SimplePinhole.num_params(), 3);
    assert_eq!(CameraModel::Pinhole.num_params(), 4);
    assert_eq!(CameraModel::SimpleRadial.num_params(), 4);
    assert_eq!(CameraModel::Radial.num_params(), 5);
    assert_eq!(CameraModel::OpenCV.num_params(), 8);
    assert_eq!(CameraModel::OpenCvFishEye.num_params(), 8);
    assert_eq!(CameraModel::FullOpenCV.num_params(), 12);
    assert_eq!(CameraModel::Fov.num_params(), 5);
    assert_eq!(CameraModel::SimpleRadialFisheye.num_params(), 4);
    assert_eq!(CameraModel::RadialFisheye.num_params(), 5);
    assert_eq!(CameraModel::ThinPrismFisheye.num_params(), 12);
}

#[test]
fn parse_reads_signed_decimal_tokens() {
    assert_eq!(parse(b"0"), Some(0));
    assert_eq!(parse(b"123"), Some(123));
    assert_eq!(parse(b"-5"), Some(-5));
    assert_eq!(parse(b"+7"), Some(7));
    assert_eq!(parse(b"9223372036854775807"), Some(i64::MAX));
    assert_eq!(parse(b"-9223372036854775808"), Some(i64::MIN));
}

#[test]
fn parse_rejects_malformed_tokens() {
    assert_eq!(parse(b""), None);
    assert_eq!(parse(b"-"), None);
    assert_eq!(parse(b"+"), None);
    assert_eq!(parse(b"12a"), None);
    assert_eq!(parse(b"a12"), None);
    assert_eq!(parse(b"1.5"), None);
    assert_eq!(parse(b"9223372036854775808"), None);
    assert_eq!(parse(b"-9223372036854775809"), None);
    assert_eq!(parse(b"--3"), None);
}
