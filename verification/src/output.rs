//! Output encoding: zlib compression and base64 text encoding of frame
//! payloads, and the exact text of the JSON and placement-command records.
use vstd::prelude::*;

use base64::Engine;

use crate::text::{dec_rep, json_escaped, push_json_escaped, push_u64, int_rep, push_i64};

verus! {

/// A file the batch asks its caller to write: a path relative to the
/// project's output root, and the full contents.
pub struct OutputFile {
    pub path: String,
    pub contents: String,
}

/// The base64 alphabet of RFC 4648 (the standard one, `+` and `/`).
pub open spec fn b64_alphabet() -> Seq<char> {
    seq![
        'A', 'B', 'C', 'D', 'E', 'F', 'G', 'H', 'I', 'J', 'K', 'L', 'M', 'N', 'O', 'P', 'Q', 'R',
        'S', 'T', 'U', 'V', 'W', 'X', 'Y', 'Z', 'a', 'b', 'c', 'd', 'e', 'f', 'g', 'h', 'i', 'j',
        'k', 'l', 'm', 'n', 'o', 'p', 'q', 'r', 's', 't', 'u', 'v', 'w', 'x', 'y', 'z', '0', '1',
        '2', '3', '4', '5', '6', '7', '8', '9', '+', '/',
    ]
}

pub open spec fn b64_char(v: int) -> char {
    b64_alphabet()[v]
}

/// Standard base64 with `=` padding: each group of three bytes becomes
/// four alphabet characters; a final group of one or two bytes is padded.
pub open spec fn b64_encode(bytes: Seq<u8>) -> Seq<char>
    decreases bytes.len(),
{
    if bytes.len() == 0 {
        Seq::empty()
    } else if bytes.len() == 1 {
        let b0 = bytes[0] as int;
        seq![b64_char(b0 / 4), b64_char((b0 % 4) * 16), '=', '=']
    } else if bytes.len() == 2 {
        let b0 = bytes[0] as int;
        let b1 = bytes[1] as int;
        seq![b64_char(b0 / 4), b64_char((b0 % 4) * 16 + b1 / 16), b64_char((b1 % 16) * 4), '=']
    } else {
        let b0 = bytes[0] as int;
        let b1 = bytes[1] as int;
        let b2 = bytes[2] as int;
        seq![
            b64_char(b0 / 4),
            b64_char((b0 % 4) * 16 + b1 / 16),
            b64_char((b1 % 16) * 4 + b2 / 64),
            b64_char(b2 % 64),
        ] + b64_encode(bytes.skip(3))
    }
}

/// What the zlib stream compressor produces for the given input at the
/// default compression level: a fixed function of the bytes alone.
pub uninterp spec fn deflate_of(bytes: Seq<u8>) -> Seq<u8>;

/// Relies on flate2's `ZlibEncoder` (default compression): writing the
/// whole payload and finishing yields the zlib stream for it, here named
/// `deflate_of`. With a `Vec` sink the call cannot fail: the sink's writes
/// always succeed in full, and the deflate backend reports no errors on
/// this call pattern, so `write_all` and `finish` always return `Ok`.
#[verifier::external_body]
fn compress_zlib(bytes: &Vec<u8>) -> (r: Vec<u8>)
    ensures
        r@ == deflate_of(bytes@),
{
    let mut encoder = flate2::write::ZlibEncoder::new(Vec::new(), flate2::Compression::default());
    std::io::Write::write_all(&mut encoder, bytes).expect("writing to a Vec cannot fail");
    encoder.finish().expect("writing to a Vec cannot fail")
}

/// Relies on base64's `STANDARD` engine: RFC 4648 base64 with padding,
/// exactly as `b64_encode` states it.
#[verifier::external_body]
fn base64_standard(bytes: &Vec<u8>) -> (r: String)
    ensures
        r@ == b64_encode(bytes@),
{
    base64::engine::general_purpose::STANDARD.encode(bytes)
}

/// Compresses the payload with zlib and renders the result as base64 text.
pub fn compress_and_encode(bytes: &Vec<u8>) -> (r: String)
    ensures
        r@ == b64_encode(deflate_of(bytes@)),
{
    let compressed: Vec<u8> = compress_zlib(bytes);
    base64_standard(&compressed)
}

/// The per-frame record: the tessellation primitive wrapped in the two
/// caching primitives, pretty-printed with two-space indentation and keys
/// in sorted order.
pub open spec fn frame_record_text(x_size: nat, z_size: nat, payload: Seq<char>) -> Seq<char> {
    "{\n  \"argument\": {\n    \"argument\": {\n      \"deflated_frame_data\": \""@
        + json_escaped(payload)
        + "\",\n      \"type\": \"moredfs:single_channel_image_tessellation\",\n      \"x_size\": "@
        + dec_rep(x_size) + ",\n      \"z_size\": "@ + dec_rep(z_size)
        + "\n    },\n    \"type\": \"minecraft:cache_2d\"\n  },\n  \"type\": \"minecraft:flat_cache\"\n}"@
}

/// Renders the per-frame JSON record for a payload string.
pub fn frame_record_json(x_size: usize, z_size: usize, payload: &str) -> (r: String)
    ensures
        r@ == frame_record_text(x_size as nat, z_size as nat, payload@),
{
    let mut out: String = String::new();
    out.append(
        "{\n  \"argument\": {\n    \"argument\": {\n      \"deflated_frame_data\": \"",
    );
    push_json_escaped(&mut out, payload);
    out.append(
        "\",\n      \"type\": \"moredfs:single_channel_image_tessellation\",\n      \"x_size\": ",
    );
    push_u64(&mut out, x_size as u64);
    out.append(",\n      \"z_size\": ");
    push_u64(&mut out, z_size as u64);
    out.append(
        "\n    },\n    \"type\": \"minecraft:cache_2d\"\n  },\n  \"type\": \"minecraft:flat_cache\"\n}",
    );
    proof {
        assert(out@ =~= frame_record_text(x_size as nat, z_size as nat, payload@));
    }
    out
}

/// One reference entry of the grid record, on its own indented line: the
/// namespace followed by the 1-based frame number of index `i`.
pub open spec fn grid_entry_text(namespace: Seq<char>, i: int) -> Seq<char> {
    "    \""@ + json_escaped(namespace + dec_rep((i + 1) as nat)) + "\""@
}

/// The reference entries, one per index `i` in `lo .. hi`, joined by
/// `",\n"`.
pub open spec fn grid_entries_text(namespace: Seq<char>, lo: int, hi: int) -> Seq<char>
    decreases hi - lo,
{
    if hi <= lo {
        Seq::empty()
    } else if hi == lo + 1 {
        grid_entry_text(namespace, lo)
    } else {
        grid_entry_text(namespace, lo) + ",\n"@ + grid_entries_text(namespace, lo + 1, hi)
    }
}

proof fn lemma_grid_entries_snoc(namespace: Seq<char>, lo: int, hi: int)
    requires
        lo < hi,
    ensures
        grid_entries_text(namespace, lo, hi + 1) == grid_entries_text(namespace, lo, hi) + ",\n"@
            + grid_entry_text(namespace, hi),
    decreases hi - lo,
{
    if hi == lo + 1 {
        assert(grid_entries_text(namespace, hi, hi + 1) == grid_entry_text(namespace, hi));
        assert(grid_entries_text(namespace, lo, hi + 1) == grid_entry_text(namespace, lo) + ",\n"@
            + grid_entries_text(namespace, hi, hi + 1));
        assert(grid_entries_text(namespace, lo, hi + 1) =~= grid_entries_text(namespace, lo, hi)
            + ",\n"@ + grid_entry_text(namespace, hi));
    } else {
        lemma_grid_entries_snoc(namespace, lo + 1, hi);
        assert(grid_entries_text(namespace, lo, hi + 1) =~= grid_entries_text(namespace, lo, hi)
            + ",\n"@ + grid_entry_text(namespace, hi));
    }
}

/// The grid-cell argument array, pretty-printed; `[]` when empty.
pub open spec fn grid_args_block(namespace: Seq<char>, lo: int, hi: int) -> Seq<char> {
    if hi <= lo {
        "[]"@
    } else {
        "[\n"@ + grid_entries_text(namespace, lo, hi) + "\n  ]"@
    }
}

/// The grid record: the spiral-grid primitive with its spacing, sizes,
/// out-of-bounds sentinel and the ordered reference list, pretty-printed
/// with keys in sorted order.
pub open spec fn grid_record_text(x_size: nat, z_size: nat, namespace: Seq<char>, lo: int, hi: int)
    -> Seq<char> {
    "{\n  \"grid_cell_args\": "@ + grid_args_block(namespace, lo, hi)
        + ",\n  \"out_of_bounds_argument\": 256,\n  \"spacing\": 1,\n  \"type\": \"moredfs:gapped_grid_square_spiral\",\n  \"x_size\": "@
        + dec_rep(x_size) + ",\n  \"z_size\": "@ + dec_rep(z_size) + "\n}"@
}

/// Renders the grid JSON record, with one reference entry per index in
/// `lo .. hi` (each the namespace followed by the index's 1-based frame
/// number).
pub fn grid_record_json(x_size: usize, z_size: usize, namespace: &str, lo: usize, hi: usize) -> (r:
    String)
    ensures
        r@ == grid_record_text(x_size as nat, z_size as nat, namespace@, lo as int, hi as int),
{
    let mut out: String = String::new();
    out.append("{\n  \"grid_cell_args\": ");
    if hi <= lo {
        out.append("[]");
    } else {
        out.append("[\n");
        let mut i: usize = lo;
        while i < hi
            invariant
                lo <= i <= hi,
                lo < hi,
                out@ == "{\n  \"grid_cell_args\": "@ + "[\n"@ + grid_entries_text(namespace@,
                    lo as int, i as int),
            decreases hi - i,
        {
            if i > lo {
                out.append(",\n");
            }
            out.append("    \"");
            let mut entry: String = String::new();
            entry.append(namespace);
            push_u64(&mut entry, i as u64 + 1);
            proof {
                assert(entry@ =~= namespace@ + dec_rep((i + 1) as nat));
            }
            push_json_escaped(&mut out, entry.as_str());
            out.append("\"");
            proof {
                if i > lo {
                    lemma_grid_entries_snoc(namespace@, lo as int, i as int);
                }
                assert(out@ =~= "{\n  \"grid_cell_args\": "@ + "[\n"@ + grid_entries_text(
                    namespace@, lo as int, i + 1));
            }
            i = i + 1;
        }
        out.append("\n  ]");
        proof {
            assert(out@ =~= "{\n  \"grid_cell_args\": "@ + grid_args_block(namespace@, lo as int,
                hi as int));
        }
    }
    out.append(
        ",\n  \"out_of_bounds_argument\": 256,\n  \"spacing\": 1,\n  \"type\": \"moredfs:gapped_grid_square_spiral\",\n  \"x_size\": ",
    );
    push_u64(&mut out, x_size as u64);
    out.append(",\n  \"z_size\": ");
    push_u64(&mut out, z_size as u64);
    out.append("\n}");
    proof {
        assert(out@ =~= grid_record_text(x_size as nat, z_size as nat, namespace@, lo as int,
            hi as int));
    }
    out
}

/// One placement command: teleport to the world position, with the fixed
/// trailing view angles.
pub open spec fn tp_line_text(x: int, height: int, z: int) -> Seq<char> {
    "tp @a "@ + int_rep(x) + " "@ + int_rep(height) + " "@ + int_rep(z) + " 180 90"@
}

/// Renders one placement command line.
pub fn tp_line(x: i64, height: i16, z: i64) -> (r: String)
    ensures
        r@ == tp_line_text(x as int, height as int, z as int),
{
    let mut out: String = String::new();
    out.append("tp @a ");
    push_i64(&mut out, x);
    out.append(" ");
    push_i64(&mut out, height as i64);
    out.append(" ");
    push_i64(&mut out, z);
    out.append(" 180 90");
    proof {
        assert(out@ =~= tp_line_text(x as int, height as int, z as int));
    }
    out
}

} // verus!
