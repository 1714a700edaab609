//! Tests of the text and binary decoders and of the format dispatcher.

use colmap_reader::CameraModel;
use colmap_reader::DecodeError;
use colmap_reader::read_cameras;
use colmap_reader::read_images;
use colmap_reader::read_points3d;

fn push_u64(out: &mut Vec<u8>, v: u64) {
    out.extend_from_slice(&v.to_le_bytes());
}

fn push_i64(out: &mut Vec<u8>, v: i64) {
    out.extend_from_slice(&v.to_le_bytes());
}

fn push_i32(out: &mut Vec<u8>, v: i32) {
    out.extend_from_slice(&v.to_le_bytes());
}

fn push_f64(out: &mut Vec<u8>, v: f64) {
    out.extend_from_slice(&v.to_bits().to_le_bytes());
}

fn is_data(e: &DecodeError) -> bool {
    matches!(e, DecodeError::Data(_))
}

fn is_io(e: &DecodeError) -> bool {
    matches!(e, DecodeError::Io(_))
}

#[test]
fn text_camera_simple_pinhole_line() {
    let m = read_cameras(b"0 SIMPLE_PINHOLE 100 100 50 50 50", false).unwrap();
    assert_eq!(m.len(), 1);
    let c = &m[&0];
    assert_eq!(c.id, 0);
    assert!(matches!(c.model, CameraModel::SimplePinhole));
    assert_eq!(c.width, 100);
    assert_eq!(c.height, 100);
    assert_eq!(c.params, vec![50f64.to_bits(); 3]);
}

#[test]
fn text_cameras_skip_comments_and_collect_all() {
    let src = b"# cameras\n# id model w h params\n1 PINHOLE 640 480 500 500 320 240\n2 SIMPLE_RADIAL 10 20 1.5 2.5 3.5 -0.25\n";
    let m = read_cameras(src, false).unwrap();
    assert_eq!(m.len(), 2);
    assert!(matches!(m[&1].model, CameraModel::Pinhole));
    assert_eq!(m[&1].params.len(), 4);
    assert!(matches!(m[&2].model, CameraModel::SimpleRadial));
    assert_eq!(m[&2].params, vec![
        1.5f64.to_bits(),
        2.5f64.to_bits(),
        3.5f64.to_bits(),
        (-0.25f64).to_bits(),
    ]);
}

#[test]
fn text_camera_wrong_arity_fails_whole_read() {
    // A valid camera first, then one with a missing parameter: the whole
    // call fails, so no partial mapping is observable.
    let src = b"1 PINHOLE 640 480 500 500 320 240\n0 SIMPLE_PINHOLE 100 100 50 50\n";
    let e = read_cameras(src, false).unwrap_err();
    assert!(is_data(&e));
}

#[test]
fn text_camera_unknown_model_fails() {
    let e = read_cameras(b"0 NOT_A_MODEL 100 100 50 50 50", false).unwrap_err();
    assert!(is_data(&e));
}

#[test]
fn text_camera_short_line_fails() {
    let e = read_cameras(b"0 PINHOLE 640", false).unwrap_err();
    assert!(is_data(&e));
}

#[test]
fn text_camera_bad_number_fails() {
    let e = read_cameras(b"zero SIMPLE_PINHOLE 100 100 50 50 50", false).unwrap_err();
    assert!(is_data(&e));
}

fn one_camera_binary() -> Vec<u8> {
    let mut out = Vec::new();
    push_u64(&mut out, 1);
    push_i32(&mut out, 2);
    push_i32(&mut out, 1); // PINHOLE
    push_u64(&mut out, 1920);
    push_u64(&mut out, 1080);
    for p in [500.25, 501.75, 960.0, 540.0] {
        push_f64(&mut out, p);
    }
    out
}

#[test]
fn binary_camera_round_trip() {
    let m = read_cameras(&one_camera_binary(), true).unwrap();
    assert_eq!(m.len(), 1);
    let c = &m[&2];
    assert_eq!(c.id, 2);
    assert!(matches!(c.model, CameraModel::Pinhole));
    assert_eq!(c.width, 1920);
    assert_eq!(c.height, 1080);
    assert_eq!(c.params, vec![
        500.25f64.to_bits(),
        501.75f64.to_bits(),
        960f64.to_bits(),
        540f64.to_bits(),
    ]);
}

#[test]
fn binary_camera_unknown_model_id_fails() {
    let mut out = Vec::new();
    push_u64(&mut out, 1);
    push_i32(&mut out, 7);
    push_i32(&mut out, 99);
    push_u64(&mut out, 10);
    push_u64(&mut out, 10);
    let e = read_cameras(&out, true).unwrap_err();
    assert!(is_data(&e));
}

#[test]
fn binary_camera_truncated_fails_as_io() {
    let mut bytes = one_camera_binary();
    bytes.truncate(bytes.len() - 3);
    let e = read_cameras(&bytes, true).unwrap_err();
    assert!(is_io(&e));
    let e = read_cameras(&bytes[..4], true).unwrap_err();
    assert!(is_io(&e));
}

#[test]
fn cross_format_cameras_agree() {
    let text = b"2 PINHOLE 1920 1080 500.25 501.75 960 540";
    let from_text = read_cameras(text, false).unwrap();
    let from_binary = read_cameras(&one_camera_binary(), true).unwrap();
    let a = &from_text[&2];
    let b = &from_binary[&2];
    assert_eq!(a.id, b.id);
    assert_eq!(a.width, b.width);
    assert_eq!(a.height, b.height);
    assert_eq!(a.params, b.params);
    assert!(matches!(a.model, CameraModel::Pinhole));
    assert!(matches!(b.model, CameraModel::Pinhole));
}

#[test]
fn text_image_record_pair() {
    let src = b"1 0.5 0.25 -0.125 0.75 1.5 2.5 3.5 7 img.png\n10.5 20.5 8 30.5 40.5 -1\n";
    let m = read_images(src, false).unwrap();
    assert_eq!(m.len(), 1);
    let img = &m[&1];
    // The quaternion is scalar-first on disk and vector-first in memory.
    assert_eq!(img.quat.w, 0.5f32.to_bits());
    assert_eq!(img.quat.x, 0.25f32.to_bits());
    assert_eq!(img.quat.y, (-0.125f32).to_bits());
    assert_eq!(img.quat.z, 0.75f32.to_bits());
    assert_eq!(img.tvec.x, 1.5f32.to_bits());
    assert_eq!(img.tvec.y, 2.5f32.to_bits());
    assert_eq!(img.tvec.z, 3.5f32.to_bits());
    assert_eq!(img.camera_id, 7);
    assert_eq!(img.name, "img.png");
    assert_eq!(img.xys.len(), 2);
    assert_eq!(img.xys[0].x, 10.5f32.to_bits());
    assert_eq!(img.xys[0].y, 20.5f32.to_bits());
    assert_eq!(img.point3d_ids, vec![8, -1]);
}

#[test]
fn text_image_observation_group_of_four_tokens_fails() {
    let src = b"1 0.5 0.25 0.125 0.75 1.5 2.5 3.5 7 img.png\n10.5 20.5 8 30.5\n";
    let e = read_images(src, false).unwrap_err();
    assert!(is_data(&e));
}

#[test]
fn text_image_without_observation_line_has_empty_observations() {
    let src = b"1 0.5 0.25 0.125 0.75 1.5 2.5 3.5 7 img.png";
    let m = read_images(src, false).unwrap();
    assert_eq!(m[&1].xys.len(), 0);
    assert_eq!(m[&1].point3d_ids.len(), 0);
}

fn one_image_binary(name: &[u8]) -> Vec<u8> {
    let mut out = Vec::new();
    push_u64(&mut out, 1);
    push_i32(&mut out, 4);
    for q in [0.5, 0.25, -0.125, 0.75] {
        push_f64(&mut out, q);
    }
    for t in [1.5, 2.5, 3.5] {
        push_f64(&mut out, t);
    }
    push_i32(&mut out, 9);
    out.extend_from_slice(name);
    push_u64(&mut out, 2);
    for (x, y, pid) in [(10.5, 20.5, 8i64), (30.5, 40.5, -1i64)] {
        push_f64(&mut out, x);
        push_f64(&mut out, y);
        push_i64(&mut out, pid);
    }
    out
}

#[test]
fn binary_image_record() {
    let m = read_images(&one_image_binary(b"cam0.png\0"), true).unwrap();
    assert_eq!(m.len(), 1);
    let img = &m[&4];
    // Binary pose fields are doubles narrowed to single width on decode.
    assert_eq!(img.quat.w, (0.5f64 as f32).to_bits());
    assert_eq!(img.quat.x, (0.25f64 as f32).to_bits());
    assert_eq!(img.quat.y, (-0.125f64 as f32).to_bits());
    assert_eq!(img.quat.z, (0.75f64 as f32).to_bits());
    assert_eq!(img.tvec.x, 1.5f32.to_bits());
    assert_eq!(img.camera_id, 9);
    assert_eq!(img.name, "cam0.png");
    assert_eq!(img.xys.len(), 2);
    assert_eq!(img.xys[1].x, 30.5f32.to_bits());
    assert_eq!(img.point3d_ids, vec![8, -1]);
}

#[test]
fn binary_image_narrowing_loses_double_precision() {
    // A value with more precision than a single can hold: the stored single
    // bit pattern must be the correctly rounded narrowing, not the raw bits.
    let fine = 1.0 + 1e-12;
    let mut out = Vec::new();
    push_u64(&mut out, 1);
    push_i32(&mut out, 1);
    for q in [fine, 0.0, 0.0, 0.0] {
        push_f64(&mut out, q);
    }
    for _ in 0..3 {
        push_f64(&mut out, fine);
    }
    push_i32(&mut out, 1);
    out.extend_from_slice(b"a\0");
    push_u64(&mut out, 0);
    let m = read_images(&out, true).unwrap();
    let img = &m[&1];
    assert_eq!(img.quat.w, (fine as f32).to_bits());
    assert_eq!(img.quat.w, 1.0f32.to_bits());
    assert_eq!(img.tvec.x, 1.0f32.to_bits());
}

#[test]
fn binary_image_name_without_terminator_fails_as_io() {
    let mut out = one_image_binary(b"cam0.png\0");
    // Cut the stream inside the name, before any terminator.
    out.truncate(8 + 4 + 32 + 24 + 4 + 3);
    let e = read_images(&out, true).unwrap_err();
    assert!(is_io(&e));
}

#[test]
fn binary_image_invalid_utf8_name_fails_as_data() {
    let e = read_images(&one_image_binary(b"\xff\xfe\0"), true).unwrap_err();
    assert!(is_data(&e));
}

#[test]
fn text_point_record() {
    let src = b"# points\n5 1.5 2.5 3.5 10 20 30 0.5 1 2 3 4\n";
    let m = read_points3d(src, false).unwrap();
    assert_eq!(m.len(), 1);
    let p = &m[&5];
    assert_eq!(p.xyz.x, 1.5f32.to_bits());
    assert_eq!(p.xyz.y, 2.5f32.to_bits());
    assert_eq!(p.xyz.z, 3.5f32.to_bits());
    assert_eq!(p.rgb, [10, 20, 30]);
    assert_eq!(p.error, 0.5f64.to_bits());
    assert_eq!(p.image_ids, vec![1, 3]);
    assert_eq!(p.point2d_idxs, vec![2, 4]);
}

#[test]
fn text_point_odd_track_tail_fails() {
    let src = b"5 1.5 2.5 3.5 10 20 30 0.5 1 2 3\n";
    let e = read_points3d(src, false).unwrap_err();
    assert!(is_data(&e));
}

#[test]
fn text_point_short_line_fails() {
    let e = read_points3d(b"5 1.5 2.5 3.5 10 20 30\n", false).unwrap_err();
    assert!(is_data(&e));
}

#[test]
fn text_point_color_out_of_range_fails() {
    let e = read_points3d(b"5 1.5 2.5 3.5 10 20 300 0.5\n", false).unwrap_err();
    assert!(is_data(&e));
}

#[test]
fn text_point_empty_track_is_fine() {
    let m = read_points3d(b"5 1.5 2.5 3.5 10 20 30 0.5\n", false).unwrap();
    assert_eq!(m[&5].image_ids.len(), 0);
}

fn one_point_binary() -> Vec<u8> {
    let mut out = Vec::new();
    push_u64(&mut out, 1);
    push_i64(&mut out, 5);
    for v in [1.5, 2.5, 3.5] {
        push_f64(&mut out, v);
    }
    out.extend_from_slice(&[10, 20, 30]);
    push_f64(&mut out, 0.5);
    push_u64(&mut out, 2);
    for (a, b) in [(1i32, 2i32), (3, 4)] {
        push_i32(&mut out, a);
        push_i32(&mut out, b);
    }
    out
}

#[test]
fn binary_point_record_with_track_of_two() {
    let m = read_points3d(&one_point_binary(), true).unwrap();
    assert_eq!(m.len(), 1);
    let p = &m[&5];
    assert_eq!(p.image_ids.len(), 2);
    assert_eq!(p.xyz.x, 1.5f32.to_bits());
    assert_eq!(p.rgb, [10, 20, 30]);
    assert_eq!(p.error, 0.5f64.to_bits());
    assert_eq!(p.image_ids, vec![1, 3]);
    assert_eq!(p.point2d_idxs, vec![2, 4]);
}

#[test]
fn binary_point_truncated_track_fails_as_io() {
    let mut bytes = one_point_binary();
    bytes.truncate(bytes.len() - 2);
    let e = read_points3d(&bytes, true).unwrap_err();
    assert!(is_io(&e));
}

#[test]
fn cross_format_points_agree() {
    let text = b"5 1.5 2.5 3.5 10 20 30 0.5 1 2 3 4";
    let a = read_points3d(text, false).unwrap();
    let b = read_points3d(&one_point_binary(), true).unwrap();
    assert_eq!(a[&5].xyz, b[&5].xyz);
    assert_eq!(a[&5].rgb, b[&5].rgb);
    assert_eq!(a[&5].error, b[&5].error);
    assert_eq!(a[&5].image_ids, b[&5].image_ids);
    assert_eq!(a[&5].point2d_idxs, b[&5].point2d_idxs);
}

#[test]
fn empty_text_sections_decode_to_empty_maps() {
    assert_eq!(read_cameras(b"", false).unwrap().len(), 0);
    assert_eq!(read_images(b"# nothing\n", false).unwrap().len(), 0);
    assert_eq!(read_points3d(b"", false).unwrap().len(), 0);
}

#[test]
fn empty_binary_input_fails_as_io() {
    let e = read_cameras(b"", true).unwrap_err();
    assert!(is_io(&e));
}

#[test]
fn camera_focal_and_principal_point() {
    let m = read_cameras(b"2 PINHOLE 1920 1080 500.25 501.75 960 540", false).unwrap();
    let c = &m[&2];
    let (fx, fy) = c.focal();
    assert_eq!(fx, 500.25f64.to_bits());
    assert_eq!(fy, 501.75f64.to_bits());
    let pp = c.principal_point();
    assert_eq!(pp.x, (960f64 as f32).to_bits());
    assert_eq!(pp.y, (540f64 as f32).to_bits());

    let m = read_cameras(b"3 SIMPLE_RADIAL 100 100 50 60 70 0.1", false).unwrap();
    let c = &m[&3];
    let (fx, fy) = c.focal();
    assert_eq!(fx, 50f64.to_bits());
    assert_eq!(fy, 50f64.to_bits());
    let pp = c.principal_point();
    assert_eq!(pp.x, (60f64 as f32).to_bits());
    assert_eq!(pp.y, (70f64 as f32).to_bits());
}

#[test]
fn errors_carry_a_reason() {
    let e = read_cameras(b"0 NOT_A_MODEL 100 100 50 50 50", false).unwrap_err();
    assert!(is_data(&e));
    assert!(!e.reason().is_empty());
    let e = read_cameras(b"", true).unwrap_err();
    assert!(!e.is_data());
    assert!(!e.reason().is_empty());
}

#[test]
fn text_float_tokens_parse_with_correct_rounding() {
    let m = read_cameras(b"0 SIMPLE_PINHOLE 10 10 0.1 1e10 -2.5e-3", false).unwrap();
    assert_eq!(m[&0].params, vec![
        0.1f64.to_bits(),
        1e10f64.to_bits(),
        (-2.5e-3f64).to_bits(),
    ]);
    // Positions in the text encoding parse at single precision directly.
    let p = read_points3d(b"1 0.1 0.2 0.3 1 2 3 0.1", false).unwrap();
    assert_eq!(p[&1].xyz.x, 0.1f32.to_bits());
    assert_eq!(p[&1].xyz.y, 0.2f32.to_bits());
    assert_eq!(p[&1].error, 0.1f64.to_bits());
}

#[test]
fn absurdly_long_float_token_is_invalid_data() {
    // The float-token parsers reject tokens over their length bound instead
    // of handing them to the outside parser.
    let mut src = b"0 SIMPLE_PINHOLE 100 100 50 50 ".to_vec();
    src.extend(std::iter::repeat(b'0').take(5000));
    let e = read_cameras(&src, false).unwrap_err();
    assert!(is_data(&e));
    // An ordinary long-ish token is still well within the bound.
    let mut ok = b"0 SIMPLE_PINHOLE 100 100 50 50 1".to_vec();
    ok.extend(std::iter::repeat(b'0').take(10));
    assert!(read_cameras(&ok, false).is_ok());
}
