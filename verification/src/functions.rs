//! The batch orchestrator: per-frame processing (border, dual-sided
//! transform, compress, encode, record), data-parallel over the requested
//! index range, with per-frame failures folded into one reported error.
use vstd::prelude::*;

use rayon::iter::{
    IndexedParallelIterator, IntoParallelIterator, IntoParallelRefIterator, ParallelIterator,
};

use crate::config::{Config, ProjectConfig};
use crate::error::{CliError, ImplError, V2dfError};
use crate::monoframe::MonoFrame;
use crate::output::{
    OutputFile, b64_encode, deflate_of, frame_record_json, frame_record_text, grid_record_json,
    grid_record_text, tp_line, tp_line_text,
};
use crate::sdf::{binary_sdf, dual_sdf_byte};
use crate::output::compress_and_encode;
use crate::spiral::{index_to_spiral_coords, spiral_coords, lemma_spiral_coords_norm};
use crate::text::{dec_rep, push_u64, u64_to_string};

verus! {

/// The pixel buffer of `frame` after `add_border(b, c)`, row-major.
pub open spec fn bordered_data(frame: MonoFrame, b: int, c: u8) -> Seq<u8> {
    let nw = frame.width + 2 * b;
    let nh = frame.height + 2 * b;
    Seq::new((nw * nh) as nat, |i: int| frame.bordered_pixel(b, c, i / nw, i % nw))
}

/// The byte buffer of the dual-sided signed transform of a `w` by `h`
/// pixel buffer.
pub open spec fn dual_bytes(pixels: Seq<u8>, w: nat, h: nat) -> Seq<u8> {
    Seq::new(w * h, |i: int| dual_sdf_byte(pixels, w, h, i) as u8)
}

/// The encoded payload written for one frame: border it, run the
/// dual-sided transform, compress, and render as base64 text.
pub open spec fn expected_payload(frame: MonoFrame, b: int, c: u8) -> Seq<char> {
    b64_encode(
        deflate_of(
            dual_bytes(bordered_data(frame, b, c), (frame.width + 2 * b) as nat, (frame.height + 2
                * b) as nat),
        ),
    )
}

/// The bordered frame has at least one pixel, so the transform accepts it.
pub open spec fn positive_bordered_area(frame: MonoFrame, border_width: u16) -> bool {
    frame.width + 2 * border_width > 0 && frame.height + 2 * border_width > 0
}

/// What `process_single_frame` returns: the record for exactly this frame
/// under the 1-based index filename when the bordered frame has pixels,
/// and the zero-area rejection otherwise — nothing else can fail.
pub open spec fn process_result_spec(
    r: Result<OutputFile, ImplError>,
    frame: MonoFrame,
    frame_dim: (usize, usize),
    index: int,
    border_width: u16,
    border_color: u8,
) -> bool {
    &&& (r is Ok <==> positive_bordered_area(frame, border_width))
    &&& (r matches Ok(f) ==> {
        &&& f.path@ == dec_rep((index + 1) as nat) + ".json"@
        &&& f.contents@ == frame_record_text(frame_dim.0 as nat, frame_dim.1 as nat,
            expected_payload(frame, border_width as int, border_color))
    })
    &&& (r matches Err(e) ==> e == ImplError::EmptyDistanceField)
}

/// Pads one frame, applies the dual-sided transform, compresses and
/// encodes the result, and renders the per-frame JSON record, named by the
/// frame's 1-based index.
pub fn process_single_frame(
    frame: &MonoFrame,
    frame_dim: (usize, usize),
    index: usize,
    border_width: u16,
    border_color: u8,
) -> (r: Result<OutputFile, ImplError>)
    requires
        frame.well_formed(),
        frame.width + 2 * border_width <= u16::MAX,
        frame.height + 2 * border_width <= u16::MAX,
        index < usize::MAX,
    ensures
        process_result_spec(r, *frame, frame_dim, index as int, border_width, border_color),
{
    let bordered: MonoFrame = frame.add_border(border_width, border_color);
    proof {
        let b = border_width as int;
        let nw = frame.width + 2 * b;
        let nh = frame.height + 2 * b;
        assert(bordered.data@.len() == nw * nh);
        assert forall|i: int| 0 <= i < bordered.data@.len() implies bordered.data@[i]
            == bordered_data(*frame, b, border_color)[i] by {
            assert(nw > 0) by (nonlinear_arith)
                requires
                    0 <= i && i < nw * nh && nw >= 0,
            ;
            vstd::arithmetic::div_mod::lemma_fundamental_div_mod(i, nw);
            vstd::arithmetic::div_mod::lemma_multiply_divide_lt(i, nw, nh);
            assert(0 <= i % nw < nw) by {
                vstd::arithmetic::div_mod::lemma_mod_bound(i, nw);
            }
            assert(bordered.data@[(i / nw) * nw + (i % nw)] == frame.bordered_pixel(b,
                border_color, i / nw, i % nw));
        }
        assert(bordered.data@ =~= bordered_data(*frame, b, border_color));
    }
    let grad_frame: MonoFrame = match binary_sdf(&bordered) {
        Ok(g) => g,
        Err(e) => {
            return Err(e);
        },
    };
    proof {
        assert(grad_frame.data@ =~= dual_bytes(bordered.data@, bordered.width as nat,
            bordered.height as nat));
    }
    let payload: String = compress_and_encode(&grad_frame.data);
    let contents: String = frame_record_json(frame_dim.0, frame_dim.1, payload.as_str());
    let mut path: String = u64_to_string(index as u64 + 1);
    path.append(".json");
    Ok(OutputFile { path, contents })
}

/// How many frames a requested range `[start, end)` actually covers in a
/// collection of `len` frames: the range is clipped to the collection.
pub open spec fn batch_count(start: int, end: int, len: int) -> int {
    let stop = if end <= len {
        end
    } else {
        len
    };
    if start <= stop {
        stop - start
    } else {
        0
    }
}

/// Relies on rayon's indexed parallel iterators: zipping the index range
/// with the frames (clipped to whichever is shorter) and mapping
/// `process_single_frame` over the pairs collects, in index order, exactly
/// the results the sequential calls would give.
#[verifier::external_body]
fn par_process_frames(
    frames: &Vec<MonoFrame>,
    frame_dim: (usize, usize),
    start: usize,
    end: usize,
    border_width: u16,
    border_color: u8,
) -> (r: Vec<Result<OutputFile, ImplError>>)
    requires
        forall|i: int|
            start <= i < start + batch_count(start as int, end as int, frames@.len() as int)
                ==> (#[trigger] frames@[i]).well_formed() && frames@[i].width + 2 * border_width
                <= u16::MAX && frames@[i].height + 2 * border_width <= u16::MAX,
    ensures
        r@.len() == batch_count(start as int, end as int, frames@.len() as int),
        forall|k: int|
            0 <= k < r@.len() ==> process_result_spec(#[trigger] r@[k], frames@[start + k],
                frame_dim, start + k, border_width, border_color),
{
    (start..end)
        .into_par_iter()
        .zip(frames.par_iter().skip(start))
        .map(|(i, frame)| process_single_frame(frame, frame_dim, i, border_width, border_color))
        .collect()
}

/// The successful outputs of a batch, in order.
pub open spec fn ok_files(results: Seq<Result<OutputFile, ImplError>>) -> Seq<OutputFile>
    decreases results.len(),
{
    if results.len() == 0 {
        Seq::empty()
    } else if results.last() is Ok {
        ok_files(results.drop_last()).push(results.last()->Ok_0)
    } else {
        ok_files(results.drop_last())
    }
}

proof fn lemma_ok_files_all_ok(results: Seq<Result<OutputFile, ImplError>>)
    requires
        forall|k: int| 0 <= k < results.len() ==> results[k] is Ok,
    ensures
        ok_files(results).len() == results.len(),
        forall|k: int| 0 <= k < results.len() ==> ok_files(results)[k] == results[k]->Ok_0,
    decreases results.len(),
{
    if results.len() > 0 {
        assert(forall|k: int| 0 <= k < results.drop_last().len() ==> results.drop_last()[k]
            == results[k]);
        lemma_ok_files_all_ok(results.drop_last());
    }
}

/// Entry `k` of `ok_files` is the payload of some successful result.
pub open spec fn has_source(results: Seq<Result<OutputFile, ImplError>>, k: int) -> bool {
    exists|j: int|
        0 <= j < results.len() && (#[trigger] results[j]) is Ok && ok_files(results)[k]
            == results[j]->Ok_0
}

proof fn lemma_ok_files_len(results: Seq<Result<OutputFile, ImplError>>)
    ensures
        ok_files(results).len() <= results.len(),
    decreases results.len(),
{
    if results.len() > 0 {
        lemma_ok_files_len(results.drop_last());
    }
}

proof fn lemma_ok_files_len_lt(results: Seq<Result<OutputFile, ImplError>>, j: int)
    requires
        0 <= j < results.len(),
        results[j] is Err,
    ensures
        ok_files(results).len() < results.len(),
    decreases results.len(),
{
    lemma_ok_files_len(results.drop_last());
    if j == results.len() - 1 {
        assert(results.last() is Err);
    } else {
        assert(results.drop_last()[j] == results[j]);
        lemma_ok_files_len_lt(results.drop_last(), j);
    }
}

proof fn lemma_ok_files_member_at(results: Seq<Result<OutputFile, ImplError>>, k: int)
    requires
        0 <= k < ok_files(results).len(),
    ensures
        has_source(results, k),
    decreases results.len(),
{
    lemma_ok_files_len(results);
    let prev = ok_files(results.drop_last());
    if k < prev.len() {
        lemma_ok_files_member_at(results.drop_last(), k);
        let j = choose|j: int|
            0 <= j < results.drop_last().len() && (#[trigger] results.drop_last()[j]) is Ok
                && ok_files(results.drop_last())[k] == results.drop_last()[j]->Ok_0;
        assert(results[j] == results.drop_last()[j]);
        assert(ok_files(results)[k] == prev[k]);
        assert(0 <= j < results.len() && results[j] is Ok && ok_files(results)[k]
            == results[j]->Ok_0);
    } else {
        let j = results.len() - 1;
        assert(results.last() is Ok);
        assert(0 <= j < results.len() && results[j] is Ok && ok_files(results)[k]
            == results[j]->Ok_0);
    }
}

/// Folds a batch's per-frame results: keeps every successful output, in
/// order, and reports the first failure, if any; later failures are
/// discarded.
pub fn fold_batch(results: Vec<Result<OutputFile, ImplError>>) -> (r: (
    Vec<OutputFile>,
    Option<ImplError>,
))
    ensures
        r.0@ == ok_files(results@),
        r.1 is None <==> (forall|k: int| 0 <= k < results@.len() ==> results@[k] is Ok),
        r.1 matches Some(e) ==> exists|j: int|
            0 <= j < results@.len() && (#[trigger] results@[j]) is Err && e == results@[j]->Err_0
                && (forall|i: int| 0 <= i < j ==> results@[i] is Ok),
{
    let ghost orig: Seq<Result<OutputFile, ImplError>> = results@;
    let mut remaining: Vec<Result<OutputFile, ImplError>> = results;
    let mut files: Vec<OutputFile> = Vec::new();
    let mut first_err: Option<ImplError> = None;
    let mut done: usize = 0;
    let total: usize = remaining.len();
    proof {
        assert(orig.len() == total as int);
    }
    while remaining.len() > 0
        invariant
            orig.len() <= usize::MAX,
            done + remaining@.len() == orig.len(),
            remaining@ == orig.subrange(done as int, orig.len() as int),
            files@ == ok_files(orig.subrange(0, done as int)),
            first_err is None <==> (forall|k: int| 0 <= k < done ==> orig[k] is Ok),
            first_err matches Some(e) ==> exists|j: int|
                0 <= j < done && (#[trigger] orig[j]) is Err && e == orig[j]->Err_0 && (forall|
                    i: int,
                |
                    0 <= i < j ==> orig[i] is Ok),
        decreases remaining@.len(),
    {
        let item: Result<OutputFile, ImplError> = remaining.remove(0);
        proof {
            assert(item == orig[done as int]);
            assert(remaining@ =~= orig.subrange(done + 1, orig.len() as int));
            assert(orig.subrange(0, done + 1).drop_last() =~= orig.subrange(0, done as int));
            assert(orig.subrange(0, done + 1).last() == orig[done as int]);
        }
        match item {
            Ok(f) => {
                files.push(f);
            },
            Err(e) => {
                if first_err.is_none() {
                    first_err = Some(e);
                }
            },
        }
        done = done + 1;
    }
    proof {
        assert(orig.subrange(0, orig.len() as int) =~= orig);
    }
    (files, first_err)
}

/// `name` placed under `dir`.
pub open spec fn joined(dir: Seq<char>, name: Seq<char>) -> Seq<char> {
    dir + "/"@ + name
}

fn join_path(dir: &str, name: &str) -> (r: String)
    ensures
        r@ == joined(dir@, name@),
{
    let mut out: String = String::from_str(dir);
    out.append("/");
    out.append(name);
    proof {
        assert(out@ =~= joined(dir@, name@));
    }
    out
}

/// The per-frame reference prefix: `namespace`, a colon, the frame
/// directory with its leading `./` removed, and a trailing slash.
pub open spec fn df_namespace(namespace: Seq<char>, relative_path: Seq<char>) -> Seq<char> {
    namespace + ":"@ + relative_path.subrange(2, relative_path.len() as int) + "/"@
}

/// Builds the reference prefix for frame records inside a `./`-relative
/// frame directory.
pub fn create_df_namespace(namespace: &str, relative_path: &str) -> (r: String)
    requires
        relative_path@.len() >= 2,
        relative_path@[0] == '.',
        relative_path@[1] == '/',
    ensures
        r@ == df_namespace(namespace@, relative_path@),
{
    let mut out: String = String::from_str(namespace);
    out.append(":");
    let len: usize = relative_path.unicode_len();
    out.append(relative_path.substring_char(2, len));
    out.append("/");
    proof {
        assert(out@ =~= df_namespace(namespace@, relative_path@));
    }
    out
}

/// The record written for frame `i` of the batch, under `dir`.
pub open spec fn is_expected_frame_file(
    f: OutputFile,
    frame: MonoFrame,
    frame_dim: (usize, usize),
    i: int,
    border_width: u16,
    border_color: u8,
    dir: Seq<char>,
) -> bool {
    &&& f.path@ == joined(dir, dec_rep((i + 1) as nat) + ".json"@)
    &&& f.contents@ == frame_record_text(frame_dim.0 as nat, frame_dim.1 as nat, expected_payload(
        frame, border_width as int, border_color))
}

/// The file is the record of some frame index the batch covered.
pub open spec fn file_from_batch(
    f: OutputFile,
    frames: Seq<MonoFrame>,
    frame_dim: (usize, usize),
    start: int,
    count: int,
    border_width: u16,
    border_color: u8,
    dir: Seq<char>,
) -> bool {
    exists|i: int|
        start <= i < start + count && is_expected_frame_file(f, #[trigger] frames[i], frame_dim, i,
            border_width, border_color, dir)
}

/// Every frame the clipped range covers has a non-empty bordered buffer,
/// so every per-frame unit of the batch succeeds.
pub open spec fn batch_all_positive(
    frames: Seq<MonoFrame>,
    start: int,
    end: int,
    border_width: u16,
) -> bool {
    forall|i: int|
        start <= i < start + batch_count(start, end, frames.len() as int)
            ==> positive_bordered_area(#[trigger] frames[i], border_width)
}

/// Processes the requested frame range in parallel (border, dual-sided
/// transform, compress, encode, record), keeps every successful record in
/// index order under `output_dir`, and reports the first failure, if any;
/// the batch never stops early. It fails exactly when some covered frame
/// has a zero-area bordered buffer, and then some record is missing.
pub fn write_json_frames_parallel(
    frames: &Vec<MonoFrame>,
    frame_dim: (usize, usize),
    index_range: (usize, usize),
    border_width: u16,
    border_color: u8,
    output_dir: &str,
) -> (r: (Vec<OutputFile>, Option<ImplError>))
    requires
        forall|i: int|
            index_range.0 <= i < index_range.0 + batch_count(index_range.0 as int,
                index_range.1 as int, frames@.len() as int) ==> (
            #[trigger] frames@[i]).well_formed() && frames@[i].width + 2 * border_width
                <= u16::MAX && frames@[i].height + 2 * border_width <= u16::MAX,
    ensures
        r.0@.len() <= batch_count(index_range.0 as int, index_range.1 as int,
            frames@.len() as int),
        r.1 is None <==> batch_all_positive(frames@, index_range.0 as int, index_range.1 as int,
            border_width),
        r.1 is None ==> r.0@.len() == batch_count(index_range.0 as int, index_range.1 as int,
            frames@.len() as int) && (forall|k: int|
            0 <= k < r.0@.len() ==> is_expected_frame_file(#[trigger] r.0@[k],
                frames@[index_range.0 + k], frame_dim, index_range.0 + k, border_width,
                border_color, output_dir@)),
        r.1 matches Some(e) ==> e == ImplError::EmptyDistanceField && r.0@.len() < batch_count(
            index_range.0 as int, index_range.1 as int, frames@.len() as int),
        forall|k: int|
            0 <= k < r.0@.len() ==> file_from_batch(#[trigger] r.0@[k], frames@, frame_dim,
                index_range.0 as int, batch_count(index_range.0 as int, index_range.1 as int,
                    frames@.len() as int), border_width, border_color, output_dir@),
{
    let start: usize = index_range.0;
    let ghost count: int = batch_count(start as int, index_range.1 as int, frames@.len() as int);
    let results: Vec<Result<OutputFile, ImplError>> = par_process_frames(frames, frame_dim, start,
        index_range.1, border_width, border_color);
    let ghost resseq: Seq<Result<OutputFile, ImplError>> = results@;
    let (files, first_err) = fold_batch(results);
    let ghost bare: Seq<OutputFile> = files@;
    proof {
        lemma_ok_files_len(resseq);
        if first_err is None {
            lemma_ok_files_all_ok(resseq);
        }
    }
    let mut files: Vec<OutputFile> = files;
    let mut out: Vec<OutputFile> = Vec::new();
    let mut done: usize = 0;
    let total: usize = files.len();
    while files.len() > 0
        invariant
            bare.len() <= usize::MAX,
            done + files@.len() == bare.len(),
            files@ == bare.subrange(done as int, bare.len() as int),
            out@.len() == done,
            forall|k: int|
                0 <= k < done ==> (#[trigger] out@[k]).path@ == joined(output_dir@, bare[k].path@)
                    && out@[k].contents@ == bare[k].contents@,
        decreases files@.len(),
    {
        let f: OutputFile = files.remove(0);
        proof {
            assert(f == bare[done as int]);
            assert(files@ =~= bare.subrange(done + 1, bare.len() as int));
        }
        let path: String = join_path(output_dir, f.path.as_str());
        out.push(OutputFile { path, contents: f.contents });
        done = done + 1;
    }
    proof {
        assert(out@.len() == ok_files(resseq).len());
        assert forall|k: int| 0 <= k < out@.len() implies file_from_batch(#[trigger] out@[k],
            frames@, frame_dim, start as int, count, border_width, border_color, output_dir@) by {
            lemma_ok_files_member_at(resseq, k);
            let j = choose|j: int|
                0 <= j < resseq.len() && (#[trigger] resseq[j]) is Ok && ok_files(resseq)[k]
                    == resseq[j]->Ok_0;
            assert(process_result_spec(resseq[j], frames@[start + j], frame_dim, start + j,
                border_width, border_color));
            assert(bare[k] == resseq[j]->Ok_0);
            assert(is_expected_frame_file(out@[k], frames@[start + j], frame_dim, start + j,
                border_width, border_color, output_dir@));
        }
        if first_err is None {
            assert forall|k: int| 0 <= k < out@.len() implies is_expected_frame_file(
                #[trigger] out@[k], frames@[start as int + k], frame_dim, start as int + k,
                border_width, border_color, output_dir@) by {
                assert(bare[k] == resseq[k]->Ok_0);
                assert(process_result_spec(resseq[k], frames@[start + k], frame_dim, start + k,
                    border_width, border_color));
            }
            assert forall|i: int|
                start <= i < start + count implies positive_bordered_area(#[trigger] frames@[i],
                border_width) by {
                assert(resseq[i - start] is Ok);
                assert(process_result_spec(resseq[i - start], frames@[i], frame_dim, i,
                    border_width, border_color));
            }
        } else {
            let j = choose|j: int|
                0 <= j < resseq.len() && (#[trigger] resseq[j]) is Err && first_err->0
                    == resseq[j]->Err_0 && (forall|i: int| 0 <= i < j ==> resseq[i] is Ok);
            assert(process_result_spec(resseq[j], frames@[start + j], frame_dim, start + j,
                border_width, border_color));
            assert(!positive_bordered_area(frames@[start + j], border_width));
            assert(!batch_all_positive(frames@, start as int, index_range.1 as int, border_width));
            lemma_ok_files_len_lt(resseq, j);
        }
    }
    (out, first_err)
}

/// The requested index range as written (no clipping): how many placement
/// files are produced.
pub open spec fn range_count(start: int, end: int) -> int {
    if start <= end {
        end - start
    } else {
        0
    }
}

/// The world position of a spiral cell coordinate, for frames `dim` wide:
/// cells sit two frame-widths apart, offset by half a frame.
pub open spec fn world_coord(c: int, dim: int) -> int {
    c * 2 * dim + dim / 2
}

/// The placement command written for index `i`, under `dir`.
pub open spec fn is_expected_tp_file(
    f: OutputFile,
    i: int,
    frame_dim: (usize, usize),
    tp_height: i16,
    dir: Seq<char>,
) -> bool {
    &&& f.path@ == joined(dir, dec_rep((i + 1) as nat) + ".mcfunction"@)
    &&& f.contents@ == tp_line_text(world_coord(spiral_coords(i as nat).0, frame_dim.0 as int),
        tp_height as int, world_coord(spiral_coords(i as nat).1, frame_dim.1 as int))
}

/// Builds one placement command per index in the range: the spiral cell of
/// the index, scaled to world coordinates by the frame dimensions.
pub fn write_tp_functions(
    index_range: (usize, usize),
    frame_dim: (usize, usize),
    tp_height: i16,
    output_dir: &str,
) -> (r: Vec<OutputFile>)
    requires
        frame_dim.0 <= 196605,
        frame_dim.1 <= 196605,
    ensures
        r@.len() == range_count(index_range.0 as int, index_range.1 as int),
        forall|k: int|
            0 <= k < r@.len() ==> is_expected_tp_file(#[trigger] r@[k], index_range.0 + k,
                frame_dim, tp_height, output_dir@),
{
    let mut out: Vec<OutputFile> = Vec::new();
    let mut i: usize = index_range.0;
    if i >= index_range.1 {
        return out;
    }
    while i < index_range.1
        invariant
            index_range.0 <= i <= index_range.1,
            frame_dim.0 <= 196605,
            frame_dim.1 <= 196605,
            out@.len() == i - index_range.0,
            forall|k: int|
                0 <= k < out@.len() ==> is_expected_tp_file(#[trigger] out@[k], index_range.0 + k,
                    frame_dim, tp_height, output_dir@),
        decreases index_range.1 - i,
    {
        let coords: (isize, isize) = index_to_spiral_coords(i);
        proof {
            if i >= 1 {
                lemma_spiral_coords_norm(i as nat);
                crate::spiral::lemma_sqrt_floor_bounds(i as nat);
                let rt = crate::spiral::sqrt_floor(i as nat) as int;
                assert(usize::MAX == 0xffff_ffff || usize::MAX == 0xffff_ffff_ffff_ffff);
                assert(rt <= 0x1_0000_0000) by (nonlinear_arith)
                    requires
                        rt >= 0 && rt * rt <= usize::MAX && usize::MAX
                            <= 0xffff_ffff_ffff_ffff,
                ;
                vstd::arithmetic::div_mod::lemma_fundamental_div_mod(rt - 1, 2);
            }
            assert(-0x8000_0003 <= coords.0 as int <= 0x8000_0003);
            assert(-0x8000_0003 <= coords.1 as int <= 0x8000_0003);
            assert((coords.0 as int) * 2 * (frame_dim.0 as int) <= 0x10_0000_0000_0000
                && (coords.0 as int) * 2 * (frame_dim.0 as int) >= -0x10_0000_0000_0000)
                by (nonlinear_arith)
                requires
                    -0x8000_0003 <= coords.0 as int <= 0x8000_0003 && 0 <= frame_dim.0 <= 196605,
            ;
            assert((coords.1 as int) * 2 * (frame_dim.1 as int) <= 0x10_0000_0000_0000
                && (coords.1 as int) * 2 * (frame_dim.1 as int) >= -0x10_0000_0000_0000)
                by (nonlinear_arith)
                requires
                    -0x8000_0003 <= coords.1 as int <= 0x8000_0003 && 0 <= frame_dim.1 <= 196605,
            ;
        }
        let curr_x: i64 = coords.0 as i64 * 2 * (frame_dim.0 as i64) + (frame_dim.0 / 2) as i64;
        let curr_z: i64 = coords.1 as i64 * 2 * (frame_dim.1 as i64) + (frame_dim.1 / 2) as i64;
        let contents: String = tp_line(curr_x, tp_height, curr_z);
        let mut name: String = u64_to_string(i as u64 + 1);
        name.append(".mcfunction");
        let path: String = join_path(output_dir, name.as_str());
        proof {
            assert(name@ =~= dec_rep((i + 1) as nat) + ".mcfunction"@);
        }
        out.push(OutputFile { path, contents });
        i = i + 1;
    }
    out
}

/// Builds the grid record for the requested range, placed as
/// `all_frames.json` under `output_dir`: one reference per index of
/// `[index_range.0, index_range.1)`, each labelled with the index's
/// 1-based frame number.
pub fn write_json_grid(
    index_range: (usize, usize),
    frame_dim: (usize, usize),
    namespace: &str,
    output_dir: &str,
) -> (r: OutputFile)
    ensures
        r.path@ == joined(output_dir@, "all_frames.json"@),
        r.contents@ == grid_record_text(frame_dim.0 as nat, frame_dim.1 as nat, namespace@,
            index_range.0 as int, index_range.1 as int),
{
    let contents: String = grid_record_json(frame_dim.0, frame_dim.1, namespace, index_range.0,
        index_range.1);
    let path: String = join_path(output_dir, "all_frames.json");
    OutputFile { path, contents }
}

/// Every frame fits the project's border arithmetic: bordered dimensions
/// stay within `u16`.
pub open spec fn project_requires(frames: Seq<MonoFrame>, p: ProjectConfig) -> bool {
    forall|i: int|
        0 <= i < frames.len() ==> (#[trigger] frames[i]).well_formed() && frames[i].width + 2
            * p.border_width <= u16::MAX && frames[i].height + 2 * p.border_width <= u16::MAX
}

/// The bordered dimensions all of a project's records carry, taken from
/// the first frame.
pub open spec fn project_frame_dim(frames: Seq<MonoFrame>, p: ProjectConfig) -> (usize, usize) {
    (
        ((frames[0].width + 2 * p.border_width)) as usize,
        ((frames[0].height + 2 * p.border_width)) as usize,
    )
}

/// The resolved 0-based start of the requested range: `frame_start - 1`,
/// defaulting to the first frame.
pub open spec fn resolved_start(p: ProjectConfig) -> int {
    match p.frame_start {
        Some(v) => v - 1,
        None => 0,
    }
}

/// The resolved 0-based exclusive end of the requested range:
/// `frame_end - 1`, defaulting to the frame count.
pub open spec fn resolved_end(p: ProjectConfig, len: int) -> int {
    match p.frame_end {
        Some(v) => v - 1,
        None => len,
    }
}

/// The resolved 0-based test-frame index: `test_frame - 1`, defaulting to
/// the first frame.
pub open spec fn resolved_test(p: ProjectConfig) -> int {
    match p.test_frame {
        Some(v) => v - 1,
        None => 0,
    }
}

/// The full successful output of one project over the range
/// `[start, end)`: the per-frame records (when enabled), then the grid
/// record (when enabled), then the placement commands (when enabled).
pub open spec fn project_range_files_ok(
    frames: Seq<MonoFrame>,
    p: ProjectConfig,
    start: int,
    end: int,
    files: Seq<OutputFile>,
) -> bool {
    let len = frames.len() as int;
    let dim = project_frame_dim(frames, p);
    let fcount: int = if p.make_frames {
        batch_count(start, end, len)
    } else {
        0
    };
    let gcount: int = if p.make_grid {
        1
    } else {
        0
    };
    let tcount: int = if p.make_tp {
        range_count(start, end)
    } else {
        0
    };
    &&& files.len() == fcount + gcount + tcount
    &&& (forall|k: int|
        0 <= k < fcount ==> is_expected_frame_file(#[trigger] files[k], frames[start + k], dim,
            start + k, p.border_width, p.border_color, p.frame_dfs_dir@))
    &&& (p.make_grid ==> files[fcount].path@ == joined(p.grid_df_dir@, "all_frames.json"@)
        && files[fcount].contents@ == grid_record_text(dim.0 as nat, dim.1 as nat, df_namespace(
        p.namespace@, p.frame_dfs_dir@), start, end))
    &&& (forall|k: int|
        0 <= k < tcount ==> is_expected_tp_file(#[trigger] files[fcount + gcount + k], start + k,
            dim, p.tp_height, p.tp_dir@))
}

/// The successful output of one project over its configured range.
pub open spec fn project_files_ok(
    frames: Seq<MonoFrame>,
    p: ProjectConfig,
    files: Seq<OutputFile>,
) -> bool {
    project_range_files_ok(frames, p, resolved_start(p), resolved_end(p, frames.len() as int),
        files)
}

/// The frame batch over `[start, end)` fails only on a zero-area bordered
/// frame; the successful records, correct for indices of the clipped
/// range, are kept, and at least one record is missing.
pub open spec fn range_batch_failed(
    frames: Seq<MonoFrame>,
    p: ProjectConfig,
    start: int,
    end: int,
    files: Seq<OutputFile>,
    e: V2dfError,
) -> bool {
    let count = batch_count(start, end, frames.len() as int);
    &&& p.make_frames
    &&& !batch_all_positive(frames, start, end, p.border_width)
    &&& e == V2dfError::Impl(ImplError::EmptyDistanceField)
    &&& files.len() < count
    &&& (forall|k: int|
        0 <= k < files.len() ==> file_from_batch(#[trigger] files[k], frames, project_frame_dim(
            frames, p), start, count, p.border_width, p.border_color, p.frame_dfs_dir@))
}

/// The batch over the project's configured range failed.
pub open spec fn project_batch_failed(
    frames: Seq<MonoFrame>,
    p: ProjectConfig,
    files: Seq<OutputFile>,
    e: V2dfError,
) -> bool {
    range_batch_failed(frames, p, resolved_start(p), resolved_end(p, frames.len() as int), files,
        e)
}

/// Produces the output files of project `n`: per-frame records, the grid
/// record and placement commands, as the project's toggles ask. Successful
/// frame records are kept even when the batch reports a failure. The range
/// is rejected when `min(start, end)` exceeds the frame count.
#[verifier::rlimit(100)]
#[verifier::spinoff_prover]
pub fn write_project_n_from_config(frames: &Vec<MonoFrame>, n: usize, config: &Config) -> (r: (
    Vec<OutputFile>,
    Option<V2dfError>,
))
    requires
        config.well_formed(),
        forall|j: int|
            0 <= j < config.projects@.len() ==> project_requires(frames@,
                #[trigger] config.projects@[j]),
    ensures
        n >= config.projects@.len() ==> r.1 == Some(V2dfError::Impl(ImplError::AccessProjectConfig))
            && r.0@.len() == 0,
        n < config.projects@.len() && frames@.len() == 0 ==> r.1 == Some(V2dfError::Cli(
            CliError::EmptyFrameCollection)) && r.0@.len() == 0,
        n < config.projects@.len() && frames@.len() > 0 ==> {
            let p = config.projects@[n as int];
            let len = frames@.len() as int;
            let start = resolved_start(p);
            let end = resolved_end(p, len);
            let lo = if start <= end {
                start
            } else {
                end
            };
            &&& (lo > len ==> r.1 == Some(V2dfError::Cli(CliError::InvalidFrameRange((start
                + 1) as usize, (end + 1) as usize, frames@.len() as usize))) && r.0@.len() == 0)
            &&& (lo <= len ==> {
                &&& (r.1 is None <==> (!p.make_frames || batch_all_positive(frames@, start, end,
                    p.border_width)))
                &&& (r.1 is None ==> project_files_ok(frames@, p, r.0@))
                &&& (r.1 matches Some(e) ==> project_batch_failed(frames@, p, r.0@, e))
            })
        },
{
    let num_projects: usize = config.projects.len();
    if n >= num_projects {
        return (Vec::new(), Some(V2dfError::Impl(ImplError::AccessProjectConfig)));
    }
    let project: &ProjectConfig = &config.projects[n];
    if frames.len() == 0 {
        return (Vec::new(), Some(V2dfError::Cli(CliError::EmptyFrameCollection)));
    }
    let border_width: usize = project.border_width as usize;
    let frame_dim: (usize, usize) = (
        frames[0].width as usize + border_width * 2,
        frames[0].height as usize + border_width * 2,
    );
    let index_start: usize = match project.frame_start {
        None => 0,
        Some(frame_start) => (frame_start - 1) as usize,
    };
    let index_end: usize = match project.frame_end {
        None => frames.len(),
        Some(frame_end) => (frame_end - 1) as usize,
    };
    let min_requested: usize = if index_start < index_end {
        index_start
    } else {
        index_end
    };
    if min_requested > frames.len() {
        proof {
            assert(project.frame_start is Some);
            assert(project.frame_end is Some);
        }
        return (
            Vec::new(),
            Some(
                V2dfError::Cli(
                    CliError::InvalidFrameRange(index_start + 1, index_end + 1, frames.len()),
                ),
            ),
        );
    }
    let frame_namespace: String = create_df_namespace(
        project.namespace.as_str(),
        project.frame_dfs_dir.as_str(),
    );
    let mut all: Vec<OutputFile> = Vec::new();
    if project.make_frames {
        let (mut files, err) = write_json_frames_parallel(
            frames,
            frame_dim,
            (index_start, index_end),
            project.border_width,
            project.border_color,
            project.frame_dfs_dir.as_str(),
        );
        match err {
            Some(e) => {
                return (files, Some(V2dfError::Impl(e)));
            },
            None => {
                all.append(&mut files);
            },
        }
    }
    if project.make_grid {
        let grid: OutputFile = write_json_grid(
            (index_start, index_end),
            frame_dim,
            frame_namespace.as_str(),
            project.grid_df_dir.as_str(),
        );
        all.push(grid);
    }
    if project.make_tp {
        let mut tp_files: Vec<OutputFile> = write_tp_functions(
            (index_start, index_end),
            frame_dim,
            project.tp_height,
            project.tp_dir.as_str(),
        );
        all.append(&mut tp_files);
    }
    proof {
        assert(project_files_ok(frames@, config.projects@[n as int], all@));
    }
    (all, None)
}

/// The output of project `n` in single-frame test mode: the same record
/// kinds, over the one-frame range at the test index.
#[verifier::rlimit(100)]
#[verifier::spinoff_prover]
pub fn test_project_n_from_config(frames: &Vec<MonoFrame>, n: usize, config: &Config) -> (r: (
    Vec<OutputFile>,
    Option<V2dfError>,
))
    requires
        config.well_formed(),
        forall|j: int|
            0 <= j < config.projects@.len() ==> project_requires(frames@,
                #[trigger] config.projects@[j]),
    ensures
        n >= config.projects@.len() ==> r.1 == Some(V2dfError::Impl(ImplError::AccessProjectConfig))
            && r.0@.len() == 0,
        n < config.projects@.len() && frames@.len() == 0 ==> r.1 == Some(V2dfError::Cli(
            CliError::EmptyFrameCollection)) && r.0@.len() == 0,
        n < config.projects@.len() && frames@.len() > 0 ==> {
            let p = config.projects@[n as int];
            let len = frames@.len() as int;
            let idx = resolved_test(p);
            &&& (idx >= len ==> r.1 == Some(V2dfError::Cli(CliError::InvalidTestFrame((idx
                + 1) as usize, frames@.len() as usize))) && r.0@.len() == 0)
            &&& (idx < len ==> {
                &&& (r.1 is None <==> (!p.make_frames || batch_all_positive(frames@, idx, idx + 1,
                    p.border_width)))
                &&& (r.1 is None ==> project_range_files_ok(frames@, p, idx, idx + 1, r.0@))
                &&& (r.1 matches Some(e) ==> range_batch_failed(frames@, p, idx, idx + 1, r.0@,
                    e))
            })
        },
{
    let num_projects: usize = config.projects.len();
    if n >= num_projects {
        return (Vec::new(), Some(V2dfError::Impl(ImplError::AccessProjectConfig)));
    }
    let project: &ProjectConfig = &config.projects[n];
    if frames.len() == 0 {
        return (Vec::new(), Some(V2dfError::Cli(CliError::EmptyFrameCollection)));
    }
    let border_width: usize = project.border_width as usize;
    let frame_dim: (usize, usize) = (
        frames[0].width as usize + border_width * 2,
        frames[0].height as usize + border_width * 2,
    );
    let test_frame_index: usize = match project.test_frame {
        None => 0,
        Some(test_frame) => (test_frame - 1) as usize,
    };
    if test_frame_index >= frames.len() {
        return (
            Vec::new(),
            Some(
                V2dfError::Cli(CliError::InvalidTestFrame(test_frame_index + 1, frames.len())),
            ),
        );
    }
    let index_range: (usize, usize) = (test_frame_index, test_frame_index + 1);
    let frame_namespace: String = create_df_namespace(
        project.namespace.as_str(),
        project.frame_dfs_dir.as_str(),
    );
    let mut all: Vec<OutputFile> = Vec::new();
    if project.make_frames {
        let (mut files, err) = write_json_frames_parallel(
            frames,
            frame_dim,
            index_range,
            project.border_width,
            project.border_color,
            project.frame_dfs_dir.as_str(),
        );
        match err {
            Some(e) => {
                return (files, Some(V2dfError::Impl(e)));
            },
            None => {
                all.append(&mut files);
            },
        }
    }
    if project.make_grid {
        let grid: OutputFile = write_json_grid(
            index_range,
            frame_dim,
            frame_namespace.as_str(),
            project.grid_df_dir.as_str(),
        );
        all.push(grid);
    }
    if project.make_tp {
        let mut tp_files: Vec<OutputFile> = write_tp_functions(
            index_range,
            frame_dim,
            project.tp_height,
            project.tp_dir.as_str(),
        );
        all.append(&mut tp_files);
    }
    proof {
        assert(project_range_files_ok(frames@, config.projects@[n as int],
            test_frame_index as int, test_frame_index + 1, all@));
    }
    (all, None)
}

/// `files` is, in order, the full successful output of the first `m`
/// projects.
pub open spec fn projects_prefix_ok(
    frames: Seq<MonoFrame>,
    config: Config,
    m: int,
    files: Seq<OutputFile>,
) -> bool
    decreases m,
{
    if m <= 0 {
        files.len() == 0
    } else {
        exists|k: int|
            0 <= k <= files.len() && projects_prefix_ok(frames, config, m - 1, #[trigger]
            files.subrange(0, k)) && project_files_ok(frames, config.projects@[m - 1],
                files.subrange(k, files.len() as int))
    }
}

/// `files` is, in order, the full test-mode output of the first `m`
/// projects.
pub open spec fn test_projects_prefix_ok(
    frames: Seq<MonoFrame>,
    config: Config,
    m: int,
    files: Seq<OutputFile>,
) -> bool
    decreases m,
{
    if m <= 0 {
        files.len() == 0
    } else {
        exists|k: int|
            0 <= k <= files.len() && test_projects_prefix_ok(frames, config, m - 1, #[trigger]
            files.subrange(0, k)) && project_range_files_ok(frames, config.projects@[m - 1],
                resolved_test(config.projects@[m - 1]), resolved_test(config.projects@[m - 1]) + 1,
                files.subrange(k, files.len() as int))
    }
}

/// The ways one project of a batch run fails: an empty frame collection,
/// an out-of-range request (each before any file is produced), or a frame
/// batch with a zero-area bordered frame, whose successful records are
/// kept.
pub open spec fn project_step_err(
    frames: Seq<MonoFrame>,
    p: ProjectConfig,
    files: Seq<OutputFile>,
    e: V2dfError,
) -> bool {
    let len = frames.len() as int;
    let start = resolved_start(p);
    let end = resolved_end(p, len);
    let lo = if start <= end {
        start
    } else {
        end
    };
    ||| (frames.len() == 0 && e == V2dfError::Cli(CliError::EmptyFrameCollection) && files.len()
        == 0)
    ||| (frames.len() > 0 && lo > len && e == V2dfError::Cli(CliError::InvalidFrameRange((start
        + 1) as usize, (end + 1) as usize, frames.len() as usize)) && files.len() == 0)
    ||| (frames.len() > 0 && lo <= len && project_batch_failed(frames, p, files, e))
}

/// The ways one project of a test-mode run fails.
pub open spec fn test_step_err(
    frames: Seq<MonoFrame>,
    p: ProjectConfig,
    files: Seq<OutputFile>,
    e: V2dfError,
) -> bool {
    let len = frames.len() as int;
    let idx = resolved_test(p);
    ||| (frames.len() == 0 && e == V2dfError::Cli(CliError::EmptyFrameCollection) && files.len()
        == 0)
    ||| (frames.len() > 0 && idx >= len && e == V2dfError::Cli(CliError::InvalidTestFrame((idx
        + 1) as usize, frames.len() as usize)) && files.len() == 0)
    ||| (frames.len() > 0 && idx < len && range_batch_failed(frames, p, idx, idx + 1, files, e))
}

/// A failed batch run: the full output of the projects before the failing
/// one, then that project's failure, which names the error reported.
pub open spec fn projects_prefix_err(
    frames: Seq<MonoFrame>,
    config: Config,
    files: Seq<OutputFile>,
    e: V2dfError,
) -> bool {
    exists|m: int, k: int|
        #![trigger projects_prefix_ok(frames, config, m, files.subrange(0, k))]
        0 <= m < config.projects@.len() && 0 <= k <= files.len() && projects_prefix_ok(frames,
            config, m, files.subrange(0, k)) && project_step_err(frames, config.projects@[m],
            files.subrange(k, files.len() as int), e)
}

/// A failed test-mode run, split the same way.
pub open spec fn test_projects_prefix_err(
    frames: Seq<MonoFrame>,
    config: Config,
    files: Seq<OutputFile>,
    e: V2dfError,
) -> bool {
    exists|m: int, k: int|
        #![trigger test_projects_prefix_ok(frames, config, m, files.subrange(0, k))]
        0 <= m < config.projects@.len() && 0 <= k <= files.len() && test_projects_prefix_ok(
            frames, config, m, files.subrange(0, k)) && test_step_err(frames,
            config.projects@[m], files.subrange(k, files.len() as int), e)
}

/// Produces the outputs of every project in order, stopping at the first
/// project whose batch reports an error; that error is returned along with
/// every file produced up to it.
pub fn write_projects_from_config(frames: &Vec<MonoFrame>, config: &Config) -> (r: (
    Vec<OutputFile>,
    Option<V2dfError>,
))
    requires
        config.well_formed(),
        forall|j: int|
            0 <= j < config.projects@.len() ==> project_requires(frames@,
                #[trigger] config.projects@[j]),
    ensures
        r.1 is None ==> projects_prefix_ok(frames@, *config, config.projects@.len() as int, r.0@),
        r.1 matches Some(e) ==> projects_prefix_err(frames@, *config, r.0@, e),
        config.projects@.len() == 0 ==> r.1 is None && r.0@.len() == 0,
{
    let num_projects: usize = config.projects.len();
    let mut all: Vec<OutputFile> = Vec::new();
    let mut n: usize = 0;
    while n < num_projects
        invariant
            num_projects == config.projects@.len(),
            n <= num_projects,
            config.well_formed(),
            forall|j: int|
                0 <= j < config.projects@.len() ==> project_requires(frames@,
                    #[trigger] config.projects@[j]),
            projects_prefix_ok(frames@, *config, n as int, all@),
        decreases num_projects - n,
    {
        let ghost before: Seq<OutputFile> = all@;
        let (mut files, err) = write_project_n_from_config(frames, n, config);
        let ghost segment: Seq<OutputFile> = files@;
        match err {
            Some(e) => {
                all.append(&mut files);
                proof {
                    assert(all@.subrange(0, before.len() as int) =~= before);
                    assert(all@.subrange(before.len() as int, all@.len() as int) =~= segment);
                    assert(project_step_err(frames@, config.projects@[n as int], all@.subrange(
                        before.len() as int, all@.len() as int), e));
                    assert(projects_prefix_ok(frames@, *config, n as int, all@.subrange(0,
                        before.len() as int)));
                    assert(projects_prefix_err(frames@, *config, all@, e));
                }
                return (all, Some(e));
            },
            None => {
                all.append(&mut files);
                proof {
                    assert(frames@.len() > 0);
                    assert(all@.subrange(0, before.len() as int) =~= before);
                    assert(all@.subrange(before.len() as int, all@.len() as int) =~= segment);
                    assert(project_files_ok(frames@, config.projects@[n as int], all@.subrange(
                        before.len() as int, all@.len() as int)));
                    assert(projects_prefix_ok(frames@, *config, n + 1, all@));
                }
            },
        }
        n = n + 1;
    }
    (all, None)
}

/// Produces the single-frame test outputs of every project in order,
/// stopping at the first project that reports an error.
pub fn test_projects_from_config(frames: &Vec<MonoFrame>, config: &Config) -> (r: (
    Vec<OutputFile>,
    Option<V2dfError>,
))
    requires
        config.well_formed(),
        forall|j: int|
            0 <= j < config.projects@.len() ==> project_requires(frames@,
                #[trigger] config.projects@[j]),
    ensures
        r.1 is None ==> test_projects_prefix_ok(frames@, *config,
            config.projects@.len() as int, r.0@),
        r.1 matches Some(e) ==> test_projects_prefix_err(frames@, *config, r.0@, e),
        config.projects@.len() == 0 ==> r.1 is None && r.0@.len() == 0,
{
    let num_projects: usize = config.projects.len();
    let mut all: Vec<OutputFile> = Vec::new();
    let mut n: usize = 0;
    while n < num_projects
        invariant
            num_projects == config.projects@.len(),
            n <= num_projects,
            config.well_formed(),
            forall|j: int|
                0 <= j < config.projects@.len() ==> project_requires(frames@,
                    #[trigger] config.projects@[j]),
            test_projects_prefix_ok(frames@, *config, n as int, all@),
        decreases num_projects - n,
    {
        let ghost before: Seq<OutputFile> = all@;
        let (mut files, err) = test_project_n_from_config(frames, n, config);
        let ghost segment: Seq<OutputFile> = files@;
        match err {
            Some(e) => {
                all.append(&mut files);
                proof {
                    assert(all@.subrange(0, before.len() as int) =~= before);
                    assert(all@.subrange(before.len() as int, all@.len() as int) =~= segment);
                    assert(test_step_err(frames@, config.projects@[n as int], all@.subrange(
                        before.len() as int, all@.len() as int), e));
                    assert(test_projects_prefix_ok(frames@, *config, n as int, all@.subrange(0,
                        before.len() as int)));
                    assert(test_projects_prefix_err(frames@, *config, all@, e));
                }
                return (all, Some(e));
            },
            None => {
                all.append(&mut files);
                proof {
                    assert(frames@.len() > 0);
                    assert(all@.subrange(0, before.len() as int) =~= before);
                    assert(all@.subrange(before.len() as int, all@.len() as int) =~= segment);
                    assert(project_range_files_ok(frames@, config.projects@[n as int],
                        resolved_test(config.projects@[n as int]), resolved_test(
                        config.projects@[n as int]) + 1, all@.subrange(before.len() as int,
                        all@.len() as int)));
                    assert(test_projects_prefix_ok(frames@, *config, n + 1, all@));
                }
            },
        }
        n = n + 1;
    }
    (all, None)
}

} // verus!
