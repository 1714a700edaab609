//! Decoding of the image section, from the text and the binary encoding.
//! An image is a pose (scalar-first quaternion and position on disk), a
//! camera reference, a name, and parallel 2D-observation sequences.

use vstd::prelude::*;
use std::collections::HashMap;
use crate::bin::Cursor;
use crate::bin::i32_of_le;
use crate::bin::i64_of_le;
use crate::bin::u64_of_le;
use crate::foreign::f32_bits_of_f64_bits;
use crate::foreign::f32_token_bits;
use crate::foreign::narrow_f64_bits;
use crate::foreign::parse_f32_token;
use crate::foreign::utf8_chars;
use crate::foreign::utf8_to_string;
use crate::lex::i32_token;
use crate::lex::i64_token;
use crate::lex::next_line;
use crate::lex::parse;
use crate::lex::parse_i32;
use crate::lex::run_len;
use crate::lex::take_line;
use crate::lex::tokenize;
use crate::lex::tokens_of;
use crate::model::DecodeError;
use crate::model::Fail;
use crate::model::Image;
use crate::model::ImageV;
use crate::model::QuatBits;
use crate::model::Vec2Bits;
use crate::model::Vec3Bits;
use crate::model::data_err;
use crate::model::io_err;
use crate::model::outcome_matches;
use crate::model::view_map;
use vstd::slice::slice_index_get;
use vstd::slice::slice_subrange;

verus! {

broadcast use vstd::std_specs::hash::group_hash_axioms;

/// The 64-bit field at `i`, narrowed to a single bit pattern.
pub open spec fn narrowed_at(s: Seq<u8>, i: int) -> u32 {
    f32_bits_of_f64_bits(u64_of_le(s, i))
}

/// One observation group of three tokens (x, y, associated point id) parses.
pub open spec fn obs_group_ok(t2: Seq<Seq<u8>>, q: int) -> bool {
    f32_token_bits(t2[3 * q]) is Some && f32_token_bits(t2[3 * q + 1]) is Some && i64_token(
        t2[3 * q + 2],
    ) is Some
}

/// The image a pair of text lines decodes to, given as their tokens. The
/// first line is id, scalar-first quaternion, position, camera id, name;
/// the second is a flat list of observation groups of three.
pub open spec fn img_of_lines(t1: Seq<Seq<u8>>, t2: Seq<Seq<u8>>) -> Result<(i32, ImageV), Fail> {
    if t1.len() < 10 {
        Err(Fail::Data)
    } else if i32_token(t1[0]) is None || f32_token_bits(t1[1]) is None || f32_token_bits(
        t1[2],
    ) is None || f32_token_bits(t1[3]) is None || f32_token_bits(t1[4]) is None || f32_token_bits(
        t1[5],
    ) is None || f32_token_bits(t1[6]) is None || f32_token_bits(t1[7]) is None || i32_token(
        t1[8],
    ) is None || utf8_chars(t1[9]) is None {
        Err(Fail::Data)
    } else if t2.len() % 3 != 0 {
        Err(Fail::Data)
    } else if !(forall|q: int| 0 <= q < t2.len() / 3 ==> #[trigger] obs_group_ok(t2, q)) {
        Err(Fail::Data)
    } else {
        let ngroups = t2.len() / 3;
        Ok(
            (
                i32_token(t1[0]).unwrap(),
                ImageV {
                    quat: QuatBits {
                        x: f32_token_bits(t1[2]).unwrap(),
                        y: f32_token_bits(t1[3]).unwrap(),
                        z: f32_token_bits(t1[4]).unwrap(),
                        w: f32_token_bits(t1[1]).unwrap(),
                    },
                    tvec: Vec3Bits {
                        x: f32_token_bits(t1[5]).unwrap(),
                        y: f32_token_bits(t1[6]).unwrap(),
                        z: f32_token_bits(t1[7]).unwrap(),
                    },
                    camera_id: i32_token(t1[8]).unwrap(),
                    name: utf8_chars(t1[9]).unwrap(),
                    xys: Seq::new(
                        ngroups as nat,
                        |q: int| Vec2Bits {
                            x: f32_token_bits(t2[3 * q]).unwrap(),
                            y: f32_token_bits(t2[3 * q + 1]).unwrap(),
                        },
                    ),
                    point3d_ids: Seq::new(ngroups as nat, |q: int| i64_token(t2[3 * q + 2]).unwrap()),
                },
            ),
        )
    }
}

/// The image section of a text input from position `p` on: each record is a
/// pose line followed by an observation line.
pub open spec fn text_imgs_from(s: Seq<u8>, p: int, acc: Map<i32, ImageV>) -> Result<
    Map<i32, ImageV>,
    Fail,
>
    decreases s.len() - p,
    via text_imgs_decreases
{
    if p < 0 || p >= s.len() {
        Ok(acc)
    } else {
        let e1 = next_line(s, p);
        let line1 = s.subrange(p, e1);
        if line1[0] == 35 {
            text_imgs_from(s, e1, acc)
        } else {
            let e2 = next_line(s, e1);
            let line2 = s.subrange(e1, e2);
            match img_of_lines(tokens_of(line1), tokens_of(line2)) {
                Ok(iv) => text_imgs_from(s, e2, acc.insert(iv.0, iv.1)),
                Err(f) => Err(f),
            }
        }
    }
}

#[via_fn]
proof fn text_imgs_decreases(s: Seq<u8>, p: int, acc: Map<i32, ImageV>) {
    if 0 <= p < s.len() {
        crate::lex::lemma_run_len_le(s.skip(p), 10);
        let e1 = next_line(s, p);
        if e1 <= s.len() {
            crate::lex::lemma_run_len_le(s.skip(e1), 10);
        }
    }
}

/// The whole image section of a text input.
pub open spec fn text_images(s: Seq<u8>) -> Result<Map<i32, ImageV>, Fail> {
    text_imgs_from(s, 0, Map::empty())
}

/// The image records of a binary input from position `p` on, `n` records
/// remaining. A record is a 32-bit id; quaternion (scalar first) and
/// position as 64-bit fields, each narrowed to a single bit pattern; a
/// 32-bit camera id; a `NUL`-terminated name; a 64-bit observation count;
/// then that many groups of two 64-bit fields (narrowed) and a 64-bit id.
pub open spec fn bin_imgs_from(s: Seq<u8>, p: int, n: nat, acc: Map<i32, ImageV>) -> Result<
    Map<i32, ImageV>,
    Fail,
>
    decreases n,
{
    if n == 0 {
        Ok(acc)
    } else if p + 64 > s.len() {
        Err(Fail::Io)
    } else {
        let k = run_len(s.skip(p + 64), 0) as int;
        if p + 64 + k >= s.len() {
            Err(Fail::Io)
        } else {
            match utf8_chars(s.subrange(p + 64, p + 64 + k)) {
                None => Err(Fail::Data),
                Some(nm) => {
                    let c = p + 64 + k + 1;
                    if c + 8 > s.len() {
                        Err(Fail::Io)
                    } else {
                        let cnt = u64_of_le(s, c) as int;
                        if c + 8 + 24 * cnt > s.len() {
                            Err(Fail::Io)
                        } else {
                            let iv = ImageV {
                                quat: QuatBits {
                                    x: narrowed_at(s, p + 12),
                                    y: narrowed_at(s, p + 20),
                                    z: narrowed_at(s, p + 28),
                                    w: narrowed_at(s, p + 4),
                                },
                                tvec: Vec3Bits {
                                    x: narrowed_at(s, p + 36),
                                    y: narrowed_at(s, p + 44),
                                    z: narrowed_at(s, p + 52),
                                },
                                camera_id: i32_of_le(s, p + 60),
                                name: nm,
                                xys: Seq::new(
                                    cnt as nat,
                                    |q: int| Vec2Bits {
                                        x: narrowed_at(s, c + 8 + 24 * q),
                                        y: narrowed_at(s, c + 8 + 24 * q + 8),
                                    },
                                ),
                                point3d_ids: Seq::new(
                                    cnt as nat,
                                    |q: int| i64_of_le(s, c + 8 + 24 * q + 16),
                                ),
                            };
                            bin_imgs_from(
                                s,
                                c + 8 + 24 * cnt,
                                (n - 1) as nat,
                                acc.insert(i32_of_le(s, p), iv),
                            )
                        }
                    }
                },
            }
        }
    }
}

/// The whole image section of a binary input: a 64-bit record count, then
/// that many records.
pub open spec fn bin_images(s: Seq<u8>) -> Result<Map<i32, ImageV>, Fail> {
    if s.len() < 8 {
        Err(Fail::Io)
    } else {
        bin_imgs_from(s, 8, u64_of_le(s, 0) as nat, Map::empty())
    }
}

/// What the chosen encoding of the image section decodes to.
pub open spec fn images_spec(s: Seq<u8>, binary: bool) -> Result<Map<i32, ImageV>, Fail> {
    if binary {
        bin_images(s)
    } else {
        text_images(s)
    }
}

/// Decodes one image record from its pose line and its observation line.
fn parse_image_lines(line1: &[u8], line2: &[u8]) -> (r: Result<(i32, Image), DecodeError>)
    ensures
        match r {
            Ok(iv) => img_of_lines(tokens_of(line1@), tokens_of(line2@)) == Ok::<
                (i32, ImageV),
                Fail,
            >((iv.0, iv.1@)),
            Err(e) => img_of_lines(tokens_of(line1@), tokens_of(line2@)) matches Err(f) && f
                == e.fail(),
        },
{
    let t1 = tokenize(line1);
    let ghost ts1 = tokens_of(line1@);
    if t1.len() < 10 {
        return Err(data_err("Invalid image data"));
    }
    proof {
        assert forall|k: int| 0 <= k < ts1.len() implies t1@[k].deep_view() =~= t1@[k]@ by {}
    }
    let id = match parse_i32(t1.get(0).unwrap().as_slice()) {
        Some(v) => v,
        None => {
            return Err(data_err("Parse error"));
        },
    };
    let qw = match parse_f32_token(t1.get(1).unwrap().as_slice()) {
        Some(v) => v,
        None => {
            return Err(data_err("Parse error"));
        },
    };
    let qx = match parse_f32_token(t1.get(2).unwrap().as_slice()) {
        Some(v) => v,
        None => {
            return Err(data_err("Parse error"));
        },
    };
    let qy = match parse_f32_token(t1.get(3).unwrap().as_slice()) {
        Some(v) => v,
        None => {
            return Err(data_err("Parse error"));
        },
    };
    let qz = match parse_f32_token(t1.get(4).unwrap().as_slice()) {
        Some(v) => v,
        None => {
            return Err(data_err("Parse error"));
        },
    };
    let tx = match parse_f32_token(t1.get(5).unwrap().as_slice()) {
        Some(v) => v,
        None => {
            return Err(data_err("Parse error"));
        },
    };
    let ty = match parse_f32_token(t1.get(6).unwrap().as_slice()) {
        Some(v) => v,
        None => {
            return Err(data_err("Parse error"));
        },
    };
    let tz = match parse_f32_token(t1.get(7).unwrap().as_slice()) {
        Some(v) => v,
        None => {
            return Err(data_err("Parse error"));
        },
    };
    let camera_id = match parse_i32(t1.get(8).unwrap().as_slice()) {
        Some(v) => v,
        None => {
            return Err(data_err("Parse error"));
        },
    };
    let name = match utf8_to_string(t1.get(9).unwrap().as_slice()) {
        Some(s) => s,
        None => {
            return Err(data_err("Invalid image name"));
        },
    };
    let t2 = tokenize(line2);
    let ghost ts2 = tokens_of(line2@);
    if t2.len() % 3 != 0 {
        return Err(data_err("Invalid image point data"));
    }
    let ngroups = t2.len() / 3;
    let nt2 = t2.len();
    let mut xys: Vec<Vec2Bits> = Vec::new();
    let mut point3d_ids: Vec<i64> = Vec::new();
    let mut k: usize = 0;
    while k < ngroups
        invariant
            k <= ngroups,
            nt2 == t2@.len(),
            ngroups == t2@.len() / 3,
            t2@.len() % 3 == 0,
            t2.deep_view() == ts2,
            ts2 == tokens_of(line2@),
            xys@.len() == k,
            point3d_ids@.len() == k,
            forall|q: int| 0 <= q < k ==> #[trigger] obs_group_ok(ts2, q),
            forall|q: int|
                0 <= q < k ==> xys@[q] == (Vec2Bits {
                    x: (#[trigger] f32_token_bits(ts2[3 * q])).unwrap(),
                    y: f32_token_bits(ts2[3 * q + 1]).unwrap(),
                }),
            forall|q: int|
                0 <= q < k ==> point3d_ids@[q] == (#[trigger] i64_token(ts2[3 * q + 2])).unwrap(),
        decreases ngroups - k,
    {
        proof {
            assert(t2@[3 * k].deep_view() =~= t2@[3 * k]@);
            assert(t2@[3 * k + 1].deep_view() =~= t2@[3 * k + 1]@);
            assert(t2@[3 * k + 2].deep_view() =~= t2@[3 * k + 2]@);
        }
        let ox = match parse_f32_token(t2.get(3 * k).unwrap().as_slice()) {
            Some(v) => v,
            None => {
                proof {
                    assert(!obs_group_ok(ts2, k as int));
                }
                return Err(data_err("Parse error"));
            },
        };
        let oy = match parse_f32_token(t2.get(3 * k + 1).unwrap().as_slice()) {
            Some(v) => v,
            None => {
                proof {
                    assert(!obs_group_ok(ts2, k as int));
                }
                return Err(data_err("Parse error"));
            },
        };
        let oid = match parse(t2.get(3 * k + 2).unwrap().as_slice()) {
            Some(v) => v,
            None => {
                proof {
                    assert(!obs_group_ok(ts2, k as int));
                }
                return Err(data_err("Parse error"));
            },
        };
        xys.push(Vec2Bits { x: ox, y: oy });
        point3d_ids.push(oid);
        k = k + 1;
    }
    let img = Image {
        quat: QuatBits { x: qx, y: qy, z: qz, w: qw },
        tvec: Vec3Bits { x: tx, y: ty, z: tz },
        camera_id,
        name,
        xys,
        point3d_ids,
    };
    proof {
        let ng = (ts2.len() / 3) as nat;
        assert(Seq::new(
            ng,
            |q: int| Vec2Bits {
                x: f32_token_bits(ts2[3 * q]).unwrap(),
                y: f32_token_bits(ts2[3 * q + 1]).unwrap(),
            },
        ) =~= img.xys@);
        assert(Seq::new(ng, |q: int| i64_token(ts2[3 * q + 2]).unwrap()) =~= img.point3d_ids@);
        assert(img_of_lines(ts1, ts2) == Ok::<(i32, ImageV), Fail>((id, img@)));
    }
    Ok((id, img))
}

/// Reads the text encoding of the image section: two lines per record.
pub fn read_images_text(data: &[u8]) -> (r: Result<HashMap<i32, Image>, DecodeError>)
    ensures
        outcome_matches(text_images(data@), r),
{
    let mut m: HashMap<i32, Image> = HashMap::new();
    let mut p: usize = 0;
    proof {
        assert(view_map(m@) =~= Map::<i32, ImageV>::empty());
    }
    while p < data.len()
        invariant
            p <= data@.len(),
            text_imgs_from(data@, p as int, view_map(m@)) == text_images(data@),
        decreases data@.len() - p,
    {
        let e1 = take_line(data, p);
        let line1 = slice_subrange(data, p, e1);
        if *slice_index_get(line1, 0) == 35 {
            p = e1;
        } else {
            let e2 = take_line(data, e1);
            let line2 = slice_subrange(data, e1, e2);
            match parse_image_lines(line1, line2) {
                Ok(iv) => {
                    let ghost pre = view_map(m@);
                    let ghost imv = iv.1@;
                    let id = iv.0;
                    m.insert(id, iv.1);
                    proof {
                        assert(view_map(m@) =~= pre.insert(id, imv));
                    }
                    p = e2;
                },
                Err(err) => {
                    return Err(err);
                },
            }
        }
    }
    proof {
        assert(view_map(m@).dom() =~= m@.dom());
    }
    Ok(m)
}

/// Reads the binary encoding of the image section.
pub fn read_images_binary(data: &[u8]) -> (r: Result<HashMap<i32, Image>, DecodeError>)
    ensures
        outcome_matches(bin_images(data@), r),
{
    let mut cur = Cursor::new(data);
    let n = match cur.read_u64_le() {
        Some(v) => v,
        None => {
            return Err(io_err("Failed to read image count"));
        },
    };
    let mut m: HashMap<i32, Image> = HashMap::new();
    proof {
        assert(view_map(m@) =~= Map::<i32, ImageV>::empty());
    }
    let mut i: u64 = 0;
    while i < n
        invariant
            cur.wf(),
            cur.data() == data@,
            i <= n,
            bin_imgs_from(data@, cur.pos(), (n - i) as nat, view_map(m@)) == bin_images(data@),
        decreases n - i,
    {
        let ghost p = cur.pos();
        let id = match cur.read_i32_le() {
            Some(v) => v,
            None => {
                return Err(io_err("Failed to read image"));
            },
        };
        let qw = match cur.read_u64_le() {
            Some(v) => narrow_f64_bits(v),
            None => {
                return Err(io_err("Failed to read image"));
            },
        };
        let qx = match cur.read_u64_le() {
            Some(v) => narrow_f64_bits(v),
            None => {
                return Err(io_err("Failed to read image"));
            },
        };
        let qy = match cur.read_u64_le() {
            Some(v) => narrow_f64_bits(v),
            None => {
                return Err(io_err("Failed to read image"));
            },
        };
        let qz = match cur.read_u64_le() {
            Some(v) => narrow_f64_bits(v),
            None => {
                return Err(io_err("Failed to read image"));
            },
        };
        let tx = match cur.read_u64_le() {
            Some(v) => narrow_f64_bits(v),
            None => {
                return Err(io_err("Failed to read image"));
            },
        };
        let ty = match cur.read_u64_le() {
            Some(v) => narrow_f64_bits(v),
            None => {
                return Err(io_err("Failed to read image"));
            },
        };
        let tz = match cur.read_u64_le() {
            Some(v) => narrow_f64_bits(v),
            None => {
                return Err(io_err("Failed to read image"));
            },
        };
        let camera_id = match cur.read_i32_le() {
            Some(v) => v,
            None => {
                return Err(io_err("Failed to read image"));
            },
        };
        let name_bytes = match cur.read_until_nul() {
            Some(v) => v,
            None => {
                return Err(io_err("Failed to read image name"));
            },
        };
        let name = match utf8_to_string(name_bytes.as_slice()) {
            Some(s) => s,
            None => {
                return Err(data_err("Invalid image name"));
            },
        };
        let ghost c = cur.pos();
        let cnt = match cur.read_u64_le() {
            Some(v) => v,
            None => {
                return Err(io_err("Failed to read image"));
            },
        };
        let mut xys: Vec<Vec2Bits> = Vec::new();
        let mut point3d_ids: Vec<i64> = Vec::new();
        let mut k: u64 = 0;
        while k < cnt
            invariant
                cur.wf(),
                cur.data() == data@,
                k <= cnt,
                cur.pos() == c + 8 + 24 * k,
                c + 8 <= data@.len(),
                p + 64 <= c - 1,
                c == p + 64 + run_len(data@.skip(p + 64), 0) + 1,
                c - 1 < data@.len(),
                i < n,
                bin_imgs_from(data@, p, (n - i) as nat, view_map(m@)) == bin_images(data@),
                id == i32_of_le(data@, p),
                qw == narrowed_at(data@, p + 4),
                qx == narrowed_at(data@, p + 12),
                qy == narrowed_at(data@, p + 20),
                qz == narrowed_at(data@, p + 28),
                tx == narrowed_at(data@, p + 36),
                ty == narrowed_at(data@, p + 44),
                tz == narrowed_at(data@, p + 52),
                camera_id == i32_of_le(data@, p + 60),
                utf8_chars(data@.subrange(p + 64, c - 1)) == Some(name@),
                cnt == u64_of_le(data@, c),
                xys@.len() == k,
                point3d_ids@.len() == k,
                forall|q: int|
                    0 <= q < k ==> xys@[q] == (Vec2Bits {
                        x: narrowed_at(data@, c + 8 + 24 * q),
                        y: narrowed_at(data@, c + 8 + 24 * q + 8),
                    }),
                forall|q: int| 0 <= q < k ==> point3d_ids@[q] == i64_of_le(data@, c + 8 + 24 * q + 16),
            decreases cnt - k,
        {
            let ox = match cur.read_u64_le() {
                Some(v) => narrow_f64_bits(v),
                None => {
                    return Err(io_err("Failed to read image"));
                },
            };
            let oy = match cur.read_u64_le() {
                Some(v) => narrow_f64_bits(v),
                None => {
                    return Err(io_err("Failed to read image"));
                },
            };
            let oid = match cur.read_i64_le() {
                Some(v) => v,
                None => {
                    return Err(io_err("Failed to read image"));
                },
            };
            xys.push(Vec2Bits { x: ox, y: oy });
            point3d_ids.push(oid);
            k = k + 1;
        }
        let img = Image {
            quat: QuatBits { x: qx, y: qy, z: qz, w: qw },
            tvec: Vec3Bits { x: tx, y: ty, z: tz },
            camera_id,
            name,
            xys,
            point3d_ids,
        };
        proof {
            assert(Seq::new(
                cnt as nat,
                |q: int| Vec2Bits {
                    x: narrowed_at(data@, c + 8 + 24 * q),
                    y: narrowed_at(data@, c + 8 + 24 * q + 8),
                },
            ) =~= img.xys@);
            assert(Seq::new(cnt as nat, |q: int| i64_of_le(data@, c + 8 + 24 * q + 16))
                =~= img.point3d_ids@);
        }
        let ghost pre = view_map(m@);
        let ghost imv = img@;
        m.insert(id, img);
        proof {
            assert(view_map(m@) =~= pre.insert(id, imv));
        }
        i = i + 1;
    }
    proof {
        assert(view_map(m@).dom() =~= m@.dom());
    }
    Ok(m)
}

/// Reads the image section in the chosen encoding.
pub fn read_images(data: &[u8], binary: bool) -> (r: Result<HashMap<i32, Image>, DecodeError>)
    ensures
        outcome_matches(images_spec(data@, binary), r),
{
    if binary {
        read_images_binary(data)
    } else {
        read_images_text(data)
    }
}

} // verus!
