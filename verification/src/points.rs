//! Decoding of the sparse 3D point section, from the text and the binary
//! encoding.

use vstd::prelude::*;
use std::collections::HashMap;
use crate::bin::Cursor;
use crate::bin::i32_of_le;
use crate::bin::i64_of_le;
use crate::bin::u64_of_le;
use crate::foreign::f32_bits_of_f64_bits;
use crate::foreign::f32_token_bits;
use crate::foreign::f64_token_bits;
use crate::foreign::narrow_f64_bits;
use crate::foreign::parse_f32_token;
use crate::foreign::parse_f64_token;
use crate::lex::i32_token;
use crate::lex::i64_token;
use crate::lex::next_line;
use crate::lex::parse;
use crate::lex::parse_i32;
use crate::lex::parse_u8;
use crate::lex::take_line;
use crate::lex::tokenize;
use crate::lex::tokens_of;
use crate::lex::u8_token;
use crate::model::DecodeError;
use crate::model::Fail;
use crate::model::Point3D;
use crate::model::PointV;
use crate::model::Vec3Bits;
use crate::model::data_err;
use crate::model::io_err;
use crate::model::outcome_matches;
use crate::model::view_map;
use vstd::slice::slice_index_get;
use vstd::slice::slice_subrange;

verus! {

broadcast use vstd::std_specs::hash::group_hash_axioms;

/// The point a non-comment text line decodes to, given as its tokens: id,
/// position, color, reprojection error, then a track of (image id,
/// observation index) pairs; an odd tail is rejected.
pub open spec fn point_of_tokens(toks: Seq<Seq<u8>>) -> Result<(i64, PointV), Fail> {
    if toks.len() < 8 {
        Err(Fail::Data)
    } else if i64_token(toks[0]) is None || f32_token_bits(toks[1]) is None || f32_token_bits(
        toks[2],
    ) is None || f32_token_bits(toks[3]) is None || u8_token(toks[4]) is None || u8_token(
        toks[5],
    ) is None || u8_token(toks[6]) is None || f64_token_bits(toks[7]) is None {
        Err(Fail::Data)
    } else if (toks.len() - 8) % 2 != 0 {
        Err(Fail::Data)
    } else if !(forall|j: int| 8 <= j < toks.len() ==> (#[trigger] i32_token(toks[j])) is Some) {
        Err(Fail::Data)
    } else {
        let npairs = (toks.len() - 8) / 2;
        Ok(
            (
                i64_token(toks[0]).unwrap(),
                PointV {
                    xyz: Vec3Bits {
                        x: f32_token_bits(toks[1]).unwrap(),
                        y: f32_token_bits(toks[2]).unwrap(),
                        z: f32_token_bits(toks[3]).unwrap(),
                    },
                    rgb: seq![
                        u8_token(toks[4]).unwrap(),
                        u8_token(toks[5]).unwrap(),
                        u8_token(toks[6]).unwrap(),
                    ],
                    error: f64_token_bits(toks[7]).unwrap(),
                    image_ids: Seq::new(npairs as nat, |k: int| i32_token(toks[8 + 2 * k]).unwrap()),
                    point2d_idxs: Seq::new(
                        npairs as nat,
                        |k: int| i32_token(toks[8 + 2 * k + 1]).unwrap(),
                    ),
                },
            ),
        )
    }
}

/// The point section of a text input from position `p` on, folded onto the
/// points decoded so far.
pub open spec fn text_points_from(s: Seq<u8>, p: int, acc: Map<i64, PointV>) -> Result<
    Map<i64, PointV>,
    Fail,
>
    decreases s.len() - p,
    via text_points_decreases
{
    if p < 0 || p >= s.len() {
        Ok(acc)
    } else {
        let e = next_line(s, p);
        let line = s.subrange(p, e);
        if line[0] == 35 {
            text_points_from(s, e, acc)
        } else {
            match point_of_tokens(tokens_of(line)) {
                Ok(pt) => text_points_from(s, e, acc.insert(pt.0, pt.1)),
                Err(f) => Err(f),
            }
        }
    }
}

#[via_fn]
proof fn text_points_decreases(s: Seq<u8>, p: int, acc: Map<i64, PointV>) {
    if 0 <= p < s.len() {
        crate::lex::lemma_run_len_le(s.skip(p), 10);
    }
}

/// The whole point section of a text input.
pub open spec fn text_points(s: Seq<u8>) -> Result<Map<i64, PointV>, Fail> {
    text_points_from(s, 0, Map::empty())
}

/// The point records of a binary input from position `p` on, `n` records
/// remaining. A record is a 64-bit id, three 64-bit position fields (each
/// narrowed to a single bit pattern), three color bytes, a 64-bit error
/// field, a 64-bit track length, then that many pairs of 32-bit fields.
pub open spec fn bin_points_from(s: Seq<u8>, p: int, n: nat, acc: Map<i64, PointV>) -> Result<
    Map<i64, PointV>,
    Fail,
>
    decreases n,
{
    if n == 0 {
        Ok(acc)
    } else if p + 51 > s.len() {
        Err(Fail::Io)
    } else {
        let cnt = u64_of_le(s, p + 43) as int;
        if p + 51 + 8 * cnt > s.len() {
            Err(Fail::Io)
        } else {
            let pv = PointV {
                xyz: Vec3Bits {
                    x: f32_bits_of_f64_bits(u64_of_le(s, p + 8)),
                    y: f32_bits_of_f64_bits(u64_of_le(s, p + 16)),
                    z: f32_bits_of_f64_bits(u64_of_le(s, p + 24)),
                },
                rgb: seq![s[p + 32], s[p + 33], s[p + 34]],
                error: u64_of_le(s, p + 35),
                image_ids: Seq::new(cnt as nat, |k: int| i32_of_le(s, p + 51 + 8 * k)),
                point2d_idxs: Seq::new(cnt as nat, |k: int| i32_of_le(s, p + 51 + 8 * k + 4)),
            };
            bin_points_from(s, p + 51 + 8 * cnt, (n - 1) as nat, acc.insert(i64_of_le(s, p), pv))
        }
    }
}

/// The whole point section of a binary input: a 64-bit record count, then
/// that many records.
pub open spec fn bin_points(s: Seq<u8>) -> Result<Map<i64, PointV>, Fail> {
    if s.len() < 8 {
        Err(Fail::Io)
    } else {
        bin_points_from(s, 8, u64_of_le(s, 0) as nat, Map::empty())
    }
}

/// What the chosen encoding of the point section decodes to.
pub open spec fn points_spec(s: Seq<u8>, binary: bool) -> Result<Map<i64, PointV>, Fail> {
    if binary {
        bin_points(s)
    } else {
        text_points(s)
    }
}

/// Decodes one non-comment point line.
fn parse_point_line(line: &[u8]) -> (r: Result<(i64, Point3D), DecodeError>)
    ensures
        match r {
            Ok(pt) => point_of_tokens(tokens_of(line@)) == Ok::<(i64, PointV), Fail>(
                (pt.0, pt.1@),
            ),
            Err(e) => point_of_tokens(tokens_of(line@)) matches Err(f) && f == e.fail(),
        },
{
    let toks = tokenize(line);
    let ghost ts = tokens_of(line@);
    if toks.len() < 8 {
        return Err(data_err("Invalid point3D data"));
    }
    proof {
        assert forall|k: int| 0 <= k < ts.len() implies toks@[k].deep_view() =~= toks@[k]@ by {}
    }
    let id = match parse(toks.get(0).unwrap().as_slice()) {
        Some(v) => v,
        None => {
            return Err(data_err("Parse error"));
        },
    };
    let x = match parse_f32_token(toks.get(1).unwrap().as_slice()) {
        Some(v) => v,
        None => {
            return Err(data_err("Parse error"));
        },
    };
    let y = match parse_f32_token(toks.get(2).unwrap().as_slice()) {
        Some(v) => v,
        None => {
            return Err(data_err("Parse error"));
        },
    };
    let z = match parse_f32_token(toks.get(3).unwrap().as_slice()) {
        Some(v) => v,
        None => {
            return Err(data_err("Parse error"));
        },
    };
    let cr = match parse_u8(toks.get(4).unwrap().as_slice()) {
        Some(v) => v,
        None => {
            return Err(data_err("Parse error"));
        },
    };
    let cg = match parse_u8(toks.get(5).unwrap().as_slice()) {
        Some(v) => v,
        None => {
            return Err(data_err("Parse error"));
        },
    };
    let cb = match parse_u8(toks.get(6).unwrap().as_slice()) {
        Some(v) => v,
        None => {
            return Err(data_err("Parse error"));
        },
    };
    let error = match parse_f64_token(toks.get(7).unwrap().as_slice()) {
        Some(v) => v,
        None => {
            return Err(data_err("Parse error"));
        },
    };
    if (toks.len() - 8) % 2 != 0 {
        return Err(data_err("Invalid point3D track data"));
    }
    let npairs = (toks.len() - 8) / 2;
    let ntoks = toks.len();
    let mut image_ids: Vec<i32> = Vec::new();
    let mut point2d_idxs: Vec<i32> = Vec::new();
    let mut k: usize = 0;
    while k < npairs
        invariant
            k <= npairs,
            ntoks == toks@.len(),
            npairs == (toks@.len() - 8) / 2,
            (toks@.len() - 8) % 2 == 0,
            toks@.len() >= 8,
            toks.deep_view() == ts,
            ts == tokens_of(line@),
            i64_token(ts[0]) == Some(id),
            f32_token_bits(ts[1]) == Some(x),
            f32_token_bits(ts[2]) == Some(y),
            f32_token_bits(ts[3]) == Some(z),
            u8_token(ts[4]) == Some(cr),
            u8_token(ts[5]) == Some(cg),
            u8_token(ts[6]) == Some(cb),
            f64_token_bits(ts[7]) == Some(error),
            image_ids@.len() == k,
            point2d_idxs@.len() == k,
            forall|q: int|
                0 <= q < k ==> (#[trigger] i32_token(ts[8 + 2 * q])) is Some && image_ids@[q]
                    == i32_token(ts[8 + 2 * q]).unwrap(),
            forall|q: int|
                0 <= q < k ==> (#[trigger] i32_token(ts[8 + 2 * q + 1])) is Some
                    && point2d_idxs@[q] == i32_token(ts[8 + 2 * q + 1]).unwrap(),
        decreases npairs - k,
    {
        proof {
            assert(toks@[8 + 2 * k].deep_view() =~= toks@[8 + 2 * k]@);
            assert(toks@[8 + 2 * k + 1].deep_view() =~= toks@[8 + 2 * k + 1]@);
        }
        let a = match parse_i32(toks.get(8 + 2 * k).unwrap().as_slice()) {
            Some(v) => v,
            None => {
                proof {
                    assert(!(forall|j: int|
                        8 <= j < ts.len() ==> (#[trigger] i32_token(ts[j])) is Some)) by {
                        assert(i32_token(ts[8 + 2 * k]) is None);
                    }
                }
                return Err(data_err("Parse error"));
            },
        };
        let b = match parse_i32(toks.get(8 + 2 * k + 1).unwrap().as_slice()) {
            Some(v) => v,
            None => {
                proof {
                    assert(!(forall|j: int|
                        8 <= j < ts.len() ==> (#[trigger] i32_token(ts[j])) is Some)) by {
                        assert(i32_token(ts[8 + 2 * k + 1]) is None);
                    }
                }
                return Err(data_err("Parse error"));
            },
        };
        image_ids.push(a);
        point2d_idxs.push(b);
        k = k + 1;
    }
    let pt = Point3D {
        xyz: Vec3Bits { x, y, z },
        rgb: [cr, cg, cb],
        error,
        image_ids,
        point2d_idxs,
    };
    proof {
        assert forall|j: int| 8 <= j < ts.len() implies (#[trigger] i32_token(ts[j])) is Some by {
            if (j - 8) % 2 == 0 {
                assert(i32_token(ts[8 + 2 * ((j - 8) / 2)]) is Some);
            } else {
                assert(i32_token(ts[8 + 2 * ((j - 8) / 2) + 1]) is Some);
            }
        }
        let npr = (ts.len() - 8) / 2;
        assert(Seq::new(npr as nat, |q: int| i32_token(ts[8 + 2 * q]).unwrap())
            =~= pt.image_ids@);
        assert(Seq::new(npr as nat, |q: int| i32_token(ts[8 + 2 * q + 1]).unwrap())
            =~= pt.point2d_idxs@);
        assert(pt.rgb@ =~= seq![cr, cg, cb]);
        assert(point_of_tokens(ts) == Ok::<(i64, PointV), Fail>((id, pt@)));
    }
    Ok((id, pt))
}

/// Reads the text encoding of the point section: one point per non-comment
/// line.
pub fn read_points3d_text(data: &[u8]) -> (r: Result<HashMap<i64, Point3D>, DecodeError>)
    ensures
        outcome_matches(text_points(data@), r),
{
    let mut m: HashMap<i64, Point3D> = HashMap::new();
    let mut p: usize = 0;
    proof {
        assert(view_map(m@) =~= Map::<i64, PointV>::empty());
    }
    while p < data.len()
        invariant
            p <= data@.len(),
            text_points_from(data@, p as int, view_map(m@)) == text_points(data@),
        decreases data@.len() - p,
    {
        let e = take_line(data, p);
        let line = slice_subrange(data, p, e);
        if *slice_index_get(line, 0) == 35 {
            p = e;
        } else {
            match parse_point_line(line) {
                Ok(pt) => {
                    let ghost pre = view_map(m@);
                    let ghost pv = pt.1@;
                    let id = pt.0;
                    m.insert(id, pt.1);
                    proof {
                        assert(view_map(m@) =~= pre.insert(id, pv));
                    }
                    p = e;
                },
                Err(err) => {
                    return Err(err);
                },
            }
        }
    }
    proof {
        assert(view_map(m@).dom() =~= m@.dom());
    }
    Ok(m)
}

/// Reads the binary encoding of the point section.
pub fn read_points3d_binary(data: &[u8]) -> (r: Result<HashMap<i64, Point3D>, DecodeError>)
    ensures
        outcome_matches(bin_points(data@), r),
{
    let mut cur = Cursor::new(data);
    let n = match cur.read_u64_le() {
        Some(v) => v,
        None => {
            return Err(io_err("Failed to read point count"));
        },
    };
    let mut m: HashMap<i64, Point3D> = HashMap::new();
    proof {
        assert(view_map(m@) =~= Map::<i64, PointV>::empty());
    }
    let mut i: u64 = 0;
    while i < n
        invariant
            cur.wf(),
            cur.data() == data@,
            i <= n,
            bin_points_from(data@, cur.pos(), (n - i) as nat, view_map(m@)) == bin_points(data@),
        decreases n - i,
    {
        let ghost p = cur.pos();
        let id = match cur.read_i64_le() {
            Some(v) => v,
            None => {
                return Err(io_err("Failed to read point"));
            },
        };
        let xb = match cur.read_u64_le() {
            Some(v) => narrow_f64_bits(v),
            None => {
                return Err(io_err("Failed to read point"));
            },
        };
        let yb = match cur.read_u64_le() {
            Some(v) => narrow_f64_bits(v),
            None => {
                return Err(io_err("Failed to read point"));
            },
        };
        let zb = match cur.read_u64_le() {
            Some(v) => narrow_f64_bits(v),
            None => {
                return Err(io_err("Failed to read point"));
            },
        };
        let cr = match cur.read_u8() {
            Some(v) => v,
            None => {
                return Err(io_err("Failed to read point"));
            },
        };
        let cg = match cur.read_u8() {
            Some(v) => v,
            None => {
                return Err(io_err("Failed to read point"));
            },
        };
        let cb = match cur.read_u8() {
            Some(v) => v,
            None => {
                return Err(io_err("Failed to read point"));
            },
        };
        let error = match cur.read_u64_le() {
            Some(v) => v,
            None => {
                return Err(io_err("Failed to read point"));
            },
        };
        let cnt = match cur.read_u64_le() {
            Some(v) => v,
            None => {
                return Err(io_err("Failed to read point"));
            },
        };
        let mut image_ids: Vec<i32> = Vec::new();
        let mut point2d_idxs: Vec<i32> = Vec::new();
        let mut k: u64 = 0;
        while k < cnt
            invariant
                cur.wf(),
                cur.data() == data@,
                k <= cnt,
                cur.pos() == p + 51 + 8 * k,
                p + 51 <= data@.len(),
                i < n,
                bin_points_from(data@, p, (n - i) as nat, view_map(m@)) == bin_points(data@),
                id == i64_of_le(data@, p),
                xb == f32_bits_of_f64_bits(u64_of_le(data@, p + 8)),
                yb == f32_bits_of_f64_bits(u64_of_le(data@, p + 16)),
                zb == f32_bits_of_f64_bits(u64_of_le(data@, p + 24)),
                cr == data@[p + 32],
                cg == data@[p + 33],
                cb == data@[p + 34],
                error == u64_of_le(data@, p + 35),
                cnt == u64_of_le(data@, p + 43),
                image_ids@.len() == k,
                point2d_idxs@.len() == k,
                forall|q: int| 0 <= q < k ==> image_ids@[q] == i32_of_le(data@, p + 51 + 8 * q),
                forall|q: int|
                    0 <= q < k ==> point2d_idxs@[q] == i32_of_le(data@, p + 51 + 8 * q + 4),
            decreases cnt - k,
        {
            let a = match cur.read_i32_le() {
                Some(v) => v,
                None => {
                    return Err(io_err("Failed to read point"));
                },
            };
            let b = match cur.read_i32_le() {
                Some(v) => v,
                None => {
                    return Err(io_err("Failed to read point"));
                },
            };
            image_ids.push(a);
            point2d_idxs.push(b);
            k = k + 1;
        }
        let pt = Point3D {
            xyz: Vec3Bits { x: xb, y: yb, z: zb },
            rgb: [cr, cg, cb],
            error,
            image_ids,
            point2d_idxs,
        };
        proof {
            assert(Seq::new(cnt as nat, |q: int| i32_of_le(data@, p + 51 + 8 * q))
                =~= pt.image_ids@);
            assert(Seq::new(cnt as nat, |q: int| i32_of_le(data@, p + 51 + 8 * q + 4))
                =~= pt.point2d_idxs@);
            assert(pt.rgb@ =~= seq![cr, cg, cb]);
        }
        let ghost pre = view_map(m@);
        let ghost pv = pt@;
        m.insert(id, pt);
        proof {
            assert(view_map(m@) =~= pre.insert(id, pv));
        }
        i = i + 1;
    }
    proof {
        assert(view_map(m@).dom() =~= m@.dom());
    }
    Ok(m)
}

/// Reads the point section in the chosen encoding.
pub fn read_points3d(data: &[u8], binary: bool) -> (r: Result<HashMap<i64, Point3D>, DecodeError>)
    ensures
        outcome_matches(points_spec(data@, binary), r),
{
    if binary {
        read_points3d_binary(data)
    } else {
        read_points3d_text(data)
    }
}

} // verus!
