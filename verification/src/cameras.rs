//! Decoding of the camera section, from the text and the binary encoding.

use vstd::prelude::*;
use std::collections::HashMap;
use crate::bin::Cursor;
use crate::bin::i32_of_le;
use crate::bin::u64_of_le;
use crate::foreign::f64_token_bits;
use crate::foreign::parse_f64_token;
use crate::foreign::utf8_chars;
use crate::foreign::utf8_to_string;
use crate::lex::i32_token;
use crate::lex::next_line;
use crate::lex::parse_i32;
use crate::lex::parse_u64;
use crate::lex::take_line;
use crate::lex::tokenize;
use crate::lex::tokens_of;
use crate::lex::u64_token;
use crate::model::Camera;
use crate::model::CameraModel;
use crate::model::CameraV;
use crate::model::DecodeError;
use crate::model::Fail;
use crate::model::data_err;
use crate::model::io_err;
use crate::model::model_of_id;
use crate::model::model_of_name;
use crate::model::outcome_matches;
use crate::model::param_count;
use crate::model::view_map;
use vstd::slice::slice_index_get;
use vstd::slice::slice_subrange;

verus! {

broadcast use vstd::std_specs::hash::group_hash_axioms;

/// The model a name token stands for: its bytes must be UTF-8 and decode to
/// a known symbolic name.
pub open spec fn model_of_name_bytes(t: Seq<u8>) -> Option<CameraModel> {
    match utf8_chars(t) {
        Some(cs) => model_of_name(cs),
        None => None,
    }
}

/// The camera a non-comment text line decodes to, given as its tokens:
/// id, model name, width, height, then exactly the model's parameters.
pub open spec fn cam_of_tokens(toks: Seq<Seq<u8>>) -> Result<CameraV, Fail> {
    if toks.len() < 4 {
        Err(Fail::Data)
    } else {
        match (i32_token(toks[0]), model_of_name_bytes(toks[1]), u64_token(toks[2]), u64_token(
            toks[3],
        )) {
            (Some(id), Some(m), Some(w), Some(h)) => {
                if !(forall|j: int|
                    4 <= j < toks.len() ==> (#[trigger] f64_token_bits(toks[j])) is Some) {
                    Err(Fail::Data)
                } else if toks.len() - 4 != param_count(m) {
                    Err(Fail::Data)
                } else {
                    Ok(
                        CameraV {
                            id,
                            model: m,
                            width: w,
                            height: h,
                            params: Seq::new(
                                param_count(m),
                                |j: int| f64_token_bits(toks[4 + j]).unwrap(),
                            ),
                        },
                    )
                }
            },
            _ => Err(Fail::Data),
        }
    }
}

/// The camera section of a text input from position `p` on, folded onto the
/// cameras decoded so far.
pub open spec fn text_cams_from(s: Seq<u8>, p: int, acc: Map<i32, CameraV>) -> Result<
    Map<i32, CameraV>,
    Fail,
>
    decreases s.len() - p,
    via text_cams_decreases
{
    if p < 0 || p >= s.len() {
        Ok(acc)
    } else {
        let e = next_line(s, p);
        let line = s.subrange(p, e);
        if line[0] == 35 {
            text_cams_from(s, e, acc)
        } else {
            match cam_of_tokens(tokens_of(line)) {
                Ok(c) => text_cams_from(s, e, acc.insert(c.id, c)),
                Err(f) => Err(f),
            }
        }
    }
}

#[via_fn]
proof fn text_cams_decreases(s: Seq<u8>, p: int, acc: Map<i32, CameraV>) {
    if 0 <= p < s.len() {
        crate::lex::lemma_run_len_le(s.skip(p), 10);
    }
}

/// The whole camera section of a text input.
pub open spec fn text_cameras(s: Seq<u8>) -> Result<Map<i32, CameraV>, Fail> {
    text_cams_from(s, 0, Map::empty())
}

/// The camera records of a binary input from position `p` on, `n` records
/// remaining, folded onto the cameras decoded so far. A record is id and
/// model id (32-bit), width and height (64-bit), then the model's parameters
/// as 64-bit fields.
pub open spec fn bin_cams_from(s: Seq<u8>, p: int, n: nat, acc: Map<i32, CameraV>) -> Result<
    Map<i32, CameraV>,
    Fail,
>
    decreases n,
{
    if n == 0 {
        Ok(acc)
    } else if p + 24 > s.len() {
        Err(Fail::Io)
    } else {
        match model_of_id(i32_of_le(s, p + 4) as int) {
            None => Err(Fail::Data),
            Some(m) => {
                if p + 24 + 8 * param_count(m) > s.len() {
                    Err(Fail::Io)
                } else {
                    let c = CameraV {
                        id: i32_of_le(s, p),
                        model: m,
                        width: u64_of_le(s, p + 8),
                        height: u64_of_le(s, p + 16),
                        params: Seq::new(param_count(m), |j: int| u64_of_le(s, p + 24 + 8 * j)),
                    };
                    bin_cams_from(s, p + 24 + 8 * param_count(m), (n - 1) as nat, acc.insert(c.id, c))
                }
            },
        }
    }
}

/// The whole camera section of a binary input: a 64-bit record count, then
/// that many records.
pub open spec fn bin_cameras(s: Seq<u8>) -> Result<Map<i32, CameraV>, Fail> {
    if s.len() < 8 {
        Err(Fail::Io)
    } else {
        bin_cams_from(s, 8, u64_of_le(s, 0) as nat, Map::empty())
    }
}

/// What the chosen encoding of the camera section decodes to.
pub open spec fn cameras_spec(s: Seq<u8>, binary: bool) -> Result<Map<i32, CameraV>, Fail> {
    if binary {
        bin_cameras(s)
    } else {
        text_cameras(s)
    }
}

/// Decodes one non-comment camera line.
fn parse_camera_line(line: &[u8]) -> (r: Result<Camera, DecodeError>)
    ensures
        match r {
            Ok(c) => cam_of_tokens(tokens_of(line@)) == Ok::<CameraV, Fail>(c@),
            Err(e) => cam_of_tokens(tokens_of(line@)) matches Err(f) && f == e.fail(),
        },
{
    let toks = tokenize(line);
    let ghost ts = tokens_of(line@);
    if toks.len() < 4 {
        return Err(data_err("Invalid camera data"));
    }
    proof {
        assert(toks@[0].deep_view() =~= toks@[0]@);
        assert(toks@[1].deep_view() =~= toks@[1]@);
        assert(toks@[2].deep_view() =~= toks@[2]@);
        assert(toks@[3].deep_view() =~= toks@[3]@);
    }
    let id = match parse_i32(toks.get(0).unwrap().as_slice()) {
        Some(v) => v,
        None => {
            return Err(data_err("Parse error"));
        },
    };
    let model = match utf8_to_string(toks.get(1).unwrap().as_slice()) {
        Some(name) => match CameraModel::from_name(name.as_str()) {
            Some(m) => m,
            None => {
                return Err(data_err("Invalid camera model"));
            },
        },
        None => {
            return Err(data_err("Invalid camera model"));
        },
    };
    let width = match parse_u64(toks.get(2).unwrap().as_slice()) {
        Some(v) => v,
        None => {
            return Err(data_err("Parse error"));
        },
    };
    let height = match parse_u64(toks.get(3).unwrap().as_slice()) {
        Some(v) => v,
        None => {
            return Err(data_err("Parse error"));
        },
    };
    let mut params: Vec<u64> = Vec::new();
    let mut j: usize = 4;
    while j < toks.len()
        invariant
            4 <= j <= toks@.len(),
            toks.deep_view() == ts,
            ts == tokens_of(line@),
            i32_token(ts[0]) == Some(id),
            model_of_name_bytes(ts[1]) == Some(model),
            u64_token(ts[2]) == Some(width),
            u64_token(ts[3]) == Some(height),
            params@.len() == j - 4,
            forall|k: int| 4 <= k < j ==> (#[trigger] f64_token_bits(ts[k])) is Some,
            forall|k: int|
                4 <= k < j ==> params@[k - 4] == f64_token_bits(#[trigger] ts[k]).unwrap(),
        decreases toks@.len() - j,
    {
        proof {
            assert(toks@[j as int].deep_view() =~= toks@[j as int]@);
        }
        match parse_f64_token(toks.get(j).unwrap().as_slice()) {
            Some(b) => params.push(b),
            None => {
                proof {
                    assert(!(forall|k: int|
                        4 <= k < ts.len() ==> (#[trigger] f64_token_bits(ts[k])) is Some)) by {
                        assert(f64_token_bits(ts[j as int]) is None);
                    }
                }
                return Err(data_err("Parse error"));
            },
        }
        j = j + 1;
    }
    if params.len() != model.num_params() {
        return Err(data_err("Invalid number of camera parameters"));
    }
    let c = Camera { id, model, width, height, params };
    proof {
        assert(Seq::new(param_count(model), |j: int| f64_token_bits(ts[4 + j]).unwrap())
            =~= c.params@);
        assert(cam_of_tokens(ts) == Ok::<CameraV, Fail>(c@));
    }
    Ok(c)
}

/// Reads the text encoding of the camera section: one camera per
/// non-comment line.
pub fn read_cameras_text(data: &[u8]) -> (r: Result<HashMap<i32, Camera>, DecodeError>)
    ensures
        outcome_matches(text_cameras(data@), r),
{
    let mut m: HashMap<i32, Camera> = HashMap::new();
    let mut p: usize = 0;
    proof {
        assert(view_map(m@) =~= Map::<i32, CameraV>::empty());
    }
    while p < data.len()
        invariant
            p <= data@.len(),
            text_cams_from(data@, p as int, view_map(m@)) == text_cameras(data@),
        decreases data@.len() - p,
    {
        let e = take_line(data, p);
        let line = slice_subrange(data, p, e);
        if *slice_index_get(line, 0) == 35 {
            p = e;
        } else {
            match parse_camera_line(line) {
                Ok(c) => {
                    let ghost pre = view_map(m@);
                    let ghost cv = c@;
                    let id = c.id;
                    m.insert(id, c);
                    proof {
                        assert(view_map(m@) =~= pre.insert(id, cv));
                    }
                    p = e;
                },
                Err(err) => {
                    return Err(err);
                },
            }
        }
    }
    proof {
        assert(view_map(m@).dom() =~= m@.dom());
    }
    Ok(m)
}

/// Reads the binary encoding of the camera section.
pub fn read_cameras_binary(data: &[u8]) -> (r: Result<HashMap<i32, Camera>, DecodeError>)
    ensures
        outcome_matches(bin_cameras(data@), r),
{
    let mut cur = Cursor::new(data);
    let n = match cur.read_u64_le() {
        Some(v) => v,
        None => {
            return Err(io_err("Failed to read camera count"));
        },
    };
    let mut m: HashMap<i32, Camera> = HashMap::new();
    proof {
        assert(view_map(m@) =~= Map::<i32, CameraV>::empty());
    }
    let mut i: u64 = 0;
    while i < n
        invariant
            cur.wf(),
            cur.data() == data@,
            i <= n,
            bin_cams_from(data@, cur.pos(), (n - i) as nat, view_map(m@)) == bin_cameras(data@),
        decreases n - i,
    {
        let ghost p = cur.pos();
        let id = match cur.read_i32_le() {
            Some(v) => v,
            None => {
                return Err(io_err("Failed to read camera"));
            },
        };
        let model_id = match cur.read_i32_le() {
            Some(v) => v,
            None => {
                return Err(io_err("Failed to read camera"));
            },
        };
        let width = match cur.read_u64_le() {
            Some(v) => v,
            None => {
                return Err(io_err("Failed to read camera"));
            },
        };
        let height = match cur.read_u64_le() {
            Some(v) => v,
            None => {
                return Err(io_err("Failed to read camera"));
            },
        };
        let model = match CameraModel::from_id(model_id) {
            Some(mo) => mo,
            None => {
                return Err(data_err("Invalid camera model"));
            },
        };
        let num_params = model.num_params();
        let mut params: Vec<u64> = Vec::new();
        let mut j: usize = 0;
        while j < num_params
            invariant
                cur.wf(),
                cur.data() == data@,
                j <= num_params,
                num_params == param_count(model),
                cur.pos() == p + 24 + 8 * j,
                p + 24 <= data@.len(),
                i < n,
                bin_cams_from(data@, p, (n - i) as nat, view_map(m@)) == bin_cameras(data@),
                model_of_id(i32_of_le(data@, p + 4) as int) == Some(model),
                id == i32_of_le(data@, p),
                width == u64_of_le(data@, p + 8),
                height == u64_of_le(data@, p + 16),
                params@.len() == j,
                forall|k: int| 0 <= k < j ==> params@[k] == u64_of_le(data@, p + 24 + 8 * k),
            decreases num_params - j,
        {
            match cur.read_u64_le() {
                Some(v) => params.push(v),
                None => {
                    return Err(io_err("Failed to read camera"));
                },
            }
            j = j + 1;
        }
        let c = Camera { id, model, width, height, params };
        proof {
            assert(Seq::new(param_count(model), |k: int| u64_of_le(data@, p + 24 + 8 * k))
                =~= c.params@);
        }
        let ghost pre = view_map(m@);
        let ghost cv = c@;
        let cid = c.id;
        m.insert(cid, c);
        proof {
            assert(view_map(m@) =~= pre.insert(cid, cv));
        }
        i = i + 1;
    }
    proof {
        assert(view_map(m@).dom() =~= m@.dom());
    }
    Ok(m)
}

/// Reads the camera section in the chosen encoding; downstream code never
/// cares which one it was.
pub fn read_cameras(data: &[u8], binary: bool) -> (r: Result<HashMap<i32, Camera>, DecodeError>)
    ensures
        outcome_matches(cameras_spec(data@, binary), r),
{
    if binary {
        read_cameras_binary(data)
    } else {
        read_cameras_text(data)
    }
}

} // verus!
