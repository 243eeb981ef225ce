use vstd::prelude::*;
use vstd::slice::slice_subrange;
use vstd::utf8::{decode_utf8, valid_utf8};
use crate::error::PointCloudError;
use crate::paths::{extension, extension_bounds};
use crate::ply::{
    ascii_bytes, find_line_end, flatten, lemma_ascii_bytes_concat, lemma_line_bytes,
    lemma_line_end_bounds, line_end, well_formed_line,
};
use crate::ply_write::{
    lemma_preamble_well_formed, lemma_property_lines_well_formed, lemma_vertex_property_words,
    mesh_header_lines, point_cloud_header_lines, preamble_lines, property_lines,
    vertex_properties, property_line,
};
use crate::reconstruction::ReconstructionAlgorithm;
use crate::text::{
    chars_contains_str, chars_eq_str, chars_starts_with_str, chars_to_string, concat_chars,
    contains, is_ws, join_words, lower, proper_words, starts_with, str_chars, lower_str,
    sub_chars, text_line, trim, trim_chars, trim_end, trim_start, utf8_decode,
};

verus! {

// ---------------------------------------------------------------------------
// What a conversion needs
// ---------------------------------------------------------------------------

/// A conversion estimates normals when asked to, or when it reconstructs
/// with Poisson or ball pivoting.
pub fn needs_normals(reconstruct: Option<ReconstructionAlgorithm>, normals_k: Option<usize>) -> (r:
    bool)
    ensures
        r == (normals_k is Some || reconstruct == Some(ReconstructionAlgorithm::Poisson)
            || reconstruct == Some(ReconstructionAlgorithm::BallPivoting)),
{
    match reconstruct {
        Some(ReconstructionAlgorithm::Poisson) | Some(ReconstructionAlgorithm::BallPivoting) => true,
        _ => normals_k.is_some(),
    }
}

/// The lower-cased extension of `p`, or of the empty string when it has
/// none.
pub open spec fn lower_extension(p: Seq<char>) -> Seq<char> {
    match extension(p) {
        Some(e) => lower(e),
        None => lower(Seq::<char>::empty()),
    }
}

/// The lower-cased extension of `path` (of the empty string when it has
/// none).
pub fn lower_extension_of(path: &str) -> (r: String)
    ensures
        r@ == lower_extension(path@),
{
    let p = str_chars(path);
    let e = match extension_bounds(p.as_slice()) {
        Some((a, b)) => chars_to_string(sub_chars(p.as_slice(), a, b).as_slice()),
        None => {
            let s = String::new();
            assert(s@ =~= Seq::<char>::empty());
            s
        },
    };
    lower_str(e.as_str())
}

/// The message of the error for a point cloud output that is not PLY.
pub open spec fn point_cloud_output_message(ext: Seq<char>) -> Seq<char> {
    "不支持的点云输出格式: ."@ + ext + " (不做重建时仅支持 .ply 点云输出)"@
}

/// A conversion without reconstruction writes a point cloud, which it can
/// only write as PLY.
pub fn check_point_cloud_output(path: &str) -> (r: Result<(), PointCloudError>)
    ensures
        lower_extension(path@) == "ply"@ ==> r is Ok,
        lower_extension(path@) != "ply"@ ==> (r matches Err(PointCloudError::ConfigError(m)) && m@
            == point_cloud_output_message(lower_extension(path@))),
{
    let ext = lower_extension_of(path);
    let e = str_chars(ext.as_str());
    if chars_eq_str(e.as_slice(), "ply") {
        Ok(())
    } else {
        let a = concat_chars(str_chars("不支持的点云输出格式: .").as_slice(), e.as_slice());
        let b = concat_chars(a.as_slice(), str_chars(" (不做重建时仅支持 .ply 点云输出)").as_slice());
        Err(PointCloudError::ConfigError(chars_to_string(b.as_slice())))
    }
}

// ---------------------------------------------------------------------------
// The coordinate precision of a file
// ---------------------------------------------------------------------------

/// Where the coordinate precision of a file comes from.
#[derive(Debug, Clone, PartialEq, Eq)]
pub enum PrecisionSource {
    /// The property lines of its PLY header.
    PlyHeader,
    /// Its format alone.
    Known(String),
    /// Nothing: the format is not one the tool knows.
    Unknown,
}

/// The coordinate precision a format implies, for the formats other than PLY.
pub open spec fn known_precision(ext: Seq<char>) -> Option<Seq<char>> {
    if ext == "xyz"@ {
        Some("float64 (ascii)"@)
    } else if ext == "pcd"@ {
        Some("float32"@)
    } else if ext == "las"@ || ext == "laz"@ {
        Some("int32_scaled"@)
    } else if ext == "obj"@ || ext == "stl"@ {
        Some("float64 (ascii/混合)"@)
    } else {
        None
    }
}

/// Where the coordinate precision of the file at `path` comes from, by its
/// lower-cased extension.
pub fn precision_source(path: &str) -> (r: PrecisionSource)
    ensures
        lower_extension(path@) == "ply"@ ==> r == PrecisionSource::PlyHeader,
        lower_extension(path@) != "ply"@ ==> match known_precision(lower_extension(path@)) {
            Some(p) => r matches PrecisionSource::Known(s) && s@ == p,
            None => r == PrecisionSource::Unknown,
        },
{
    let ext = lower_extension_of(path);
    let e = str_chars(ext.as_str());
    let e = e.as_slice();
    let known = if chars_eq_str(e, "ply") {
        return PrecisionSource::PlyHeader;
    } else if chars_eq_str(e, "xyz") {
        "float64 (ascii)"
    } else if chars_eq_str(e, "pcd") {
        "float32"
    } else if chars_eq_str(e, "las") || chars_eq_str(e, "laz") {
        "int32_scaled"
    } else if chars_eq_str(e, "obj") || chars_eq_str(e, "stl") {
        "float64 (ascii/混合)"
    } else {
        return PrecisionSource::Unknown;
    };
    PrecisionSource::Known(chars_to_string(str_chars(known).as_slice()))
}

/// The precision a trimmed PLY header line declares for the coordinates,
/// if it is a property line of x, y or z that names one.
pub open spec fn line_precision(t: Seq<char>) -> Option<Seq<char>> {
    if starts_with(t, "property "@) && (contains(t, " x"@) || contains(t, " y"@) || contains(
        t,
        " z"@,
    )) {
        if contains(t, "float64"@) || contains(t, "double"@) {
            Some("float64"@)
        } else if contains(t, "float32"@) || contains(t, "float "@) {
            Some("float32"@)
        } else {
            None
        }
    } else {
        None
    }
}

/// The coordinate precision the PLY header lines from byte `pos` on
/// declare: the first coordinate property line that names one, up to the
/// `end_header` line, the end of the data or a line that is not UTF-8.
pub open spec fn ply_precision_from(data: Seq<u8>, pos: int) -> Option<Seq<char>>
    decreases data.len() - pos,
{
    if pos < 0 || pos >= data.len() {
        None
    } else {
        let e = line_end(data, pos);
        proof {
            lemma_line_end_bounds(data, pos);
        }
        let bytes = data.subrange(pos, e);
        if !valid_utf8(bytes) {
            None
        } else {
            let t = trim(decode_utf8(bytes));
            if t == "end_header"@ {
                None
            } else if line_precision(t) is Some {
                line_precision(t)
            } else {
                ply_precision_from(data, e)
            }
        }
    }
}

/// The coordinate precision the header of the PLY file `data` declares.
pub fn ply_float_precision(data: &[u8]) -> (r: Option<String>)
    ensures
        match ply_precision_from(data@, 0) {
            None => r is None,
            Some(p) => r matches Some(s) && s@ == p,
        },
{
    let mut pos: usize = 0;
    while pos < data.len()
        invariant
            pos <= data.len(),
            ply_precision_from(data@, 0) == ply_precision_from(data@, pos as int),
        decreases data.len() - pos,
    {
        let e = find_line_end(data, pos);
        let bytes = slice_subrange(data, pos, e);
        let s = match utf8_decode(bytes) {
            None => {
                return None;
            },
            Some(s) => s,
        };
        let line = str_chars(s);
        let t = trim_chars(line.as_slice());
        let t = t.as_slice();
        if chars_eq_str(t, "end_header") {
            return None;
        }
        if chars_starts_with_str(t, "property ") && (chars_contains_str(t, " x")
            || chars_contains_str(t, " y") || chars_contains_str(t, " z")) {
            if chars_contains_str(t, "float64") || chars_contains_str(t, "double") {
                return Some(chars_to_string(str_chars("float64").as_slice()));
            } else if chars_contains_str(t, "float32") || chars_contains_str(t, "float ") {
                return Some(chars_to_string(str_chars("float32").as_slice()));
            }
        }
        pos = e;
    }
    None
}

// ---------------------------------------------------------------------------
// Precision loss of a conversion
// ---------------------------------------------------------------------------

/// The note for doubles written as singles.
pub open spec fn truncation_note() -> Seq<char> {
    "float64 → float32 可能存在数值截断"@
}

/// The note for floating point written as scaled integers.
pub open spec fn scaled_note() -> Seq<char> {
    "浮点 → 整数缩放编码 存在精度损失"@
}

/// The note for a reconstructed surface.
pub open spec fn reconstruction_note() -> Seq<char> {
    "表面重建是近似过程，不复原始点"@
}

/// The precision-loss notes of a conversion from a file of precision
/// `input` to one of precision `output`, when both are known, and the
/// note on reconstruction when the conversion reconstructs a surface.
pub open spec fn precision_notes(
    input: Option<Seq<char>>,
    output: Option<Seq<char>>,
    reconstructed: bool,
) -> Seq<Seq<char>> {
    let a: Seq<Seq<char>> = match (input, output) {
        (Some(i), Some(o)) => if contains(i, "64"@) && (contains(o, "32"@) || o == "float32"@) {
            seq![truncation_note()]
        } else {
            seq![]
        },
        _ => seq![],
    };
    let b: Seq<Seq<char>> = match (input, output) {
        (Some(i), Some(o)) => if (contains(i, "64"@) || contains(i, "ascii"@)) && contains(
            o,
            "32_scaled"@,
        ) {
            seq![scaled_note()]
        } else {
            seq![]
        },
        _ => seq![],
    };
    a + b + if reconstructed {
        seq![reconstruction_note()]
    } else {
        seq![]
    }
}

/// The view of an optional string.
pub open spec fn opt_view(o: Option<&str>) -> Option<Seq<char>> {
    match o {
        Some(s) => Some(s@),
        None => None,
    }
}

/// The precision-loss notes of a conversion.
pub fn precision_loss_notes(input: Option<&str>, output: Option<&str>, reconstructed: bool) -> (r:
    Vec<String>)
    ensures
        r@.map_values(|s: String| s@) == precision_notes(opt_view(input), opt_view(output), reconstructed),
{
    let mut notes: Vec<String> = Vec::new();
    let ghost a: Seq<Seq<char>> = seq![];
    match (input, output) {
        (Some(i), Some(o)) => {
            let ic = str_chars(i);
            let oc = str_chars(o);
            let ic = ic.as_slice();
            let oc = oc.as_slice();
            if chars_contains_str(ic, "64") && (chars_contains_str(oc, "32") || chars_eq_str(
                oc,
                "float32",
            )) {
                notes.push(chars_to_string(str_chars("float64 → float32 可能存在数值截断").as_slice()));
            }
            if (chars_contains_str(ic, "64") || chars_contains_str(ic, "ascii"))
                && chars_contains_str(oc, "32_scaled") {
                notes.push(chars_to_string(str_chars("浮点 → 整数缩放编码 存在精度损失").as_slice()));
            }
        },
        _ => {},
    }
    if reconstructed {
        notes.push(chars_to_string(str_chars("表面重建是近似过程，不复原始点").as_slice()));
    }
    assert(notes@.map_values(|s: String| s@) =~= precision_notes(
        opt_view(input),
        opt_view(output),
        reconstructed,
    ));
    notes
}

// ---------------------------------------------------------------------------
// Measurements
// ---------------------------------------------------------------------------

/// Where a measured point comes from.
#[derive(Debug, Clone, Copy, PartialEq, Eq)]
pub enum MeasurePoint {
    /// The coordinates given on the command line.
    Coordinates,
    /// The point of the cloud at this index.
    Index(usize),
}

/// The label of the first or the second point.
pub open spec fn point_label(second: bool) -> Seq<char> {
    if second {
        "2"@
    } else {
        "1"@
    }
}

/// The outcome of choosing a measured point from `coords` given
/// coordinates (their number) or an index into `point_count` points:
/// coordinates win, then the index; three coordinates are needed, and the
/// index must be in range.
pub open spec fn measure_point_ok(
    second: bool,
    coords: Option<usize>,
    index: Option<usize>,
    point_count: usize,
    r: Result<MeasurePoint, PointCloudError>,
) -> bool {
    let l = point_label(second);
    match coords {
        Some(n) => if n == 3 {
            r == Ok::<MeasurePoint, PointCloudError>(MeasurePoint::Coordinates)
        } else {
            r matches Err(PointCloudError::InvalidParameter(m)) && m@ == "p"@ + l + "需要3个坐标"@
        },
        None => match index {
            Some(i) => if i >= point_count {
                r matches Err(PointCloudError::InvalidParameter(m)) && m@ == "idx"@ + l + "超出范围 ("@
                    + crate::text::decimal(i as nat) + "/"@ + crate::text::decimal(
                    point_count as nat,
                ) + ")"@
            } else {
                r == Ok::<MeasurePoint, PointCloudError>(MeasurePoint::Index(i))
            },
            None => r matches Err(PointCloudError::InvalidParameter(m)) && m@ == "需要指定--idx"@ + l
                + "或--p"@ + l,
        },
    }
}

/// Chooses where the first (or `second`) measured point comes from.
pub fn measure_point(second: bool, coords: Option<usize>, index: Option<usize>, point_count: usize) -> (r:
    Result<MeasurePoint, PointCloudError>)
    ensures
        measure_point_ok(second, coords, index, point_count, r),
{
    let label = if second {
        str_chars("2")
    } else {
        str_chars("1")
    };
    let l = label.as_slice();
    match coords {
        Some(n) => {
            if n == 3 {
                Ok(MeasurePoint::Coordinates)
            } else {
                let a = concat_chars(str_chars("p").as_slice(), l);
                let b = concat_chars(a.as_slice(), str_chars("需要3个坐标").as_slice());
                Err(PointCloudError::InvalidParameter(chars_to_string(b.as_slice())))
            }
        },
        None => match index {
            Some(i) => {
                if i >= point_count {
                    let a = concat_chars(str_chars("idx").as_slice(), l);
                    let b = concat_chars(a.as_slice(), str_chars("超出范围 (").as_slice());
                    let c = concat_chars(b.as_slice(), crate::text::decimal_chars(i as u64).as_slice());
                    let d = concat_chars(c.as_slice(), str_chars("/").as_slice());
                    let e = concat_chars(
                        d.as_slice(),
                        crate::text::decimal_chars(point_count as u64).as_slice(),
                    );
                    let f = concat_chars(e.as_slice(), str_chars(")").as_slice());
                    Err(PointCloudError::InvalidParameter(chars_to_string(f.as_slice())))
                } else {
                    Ok(MeasurePoint::Index(i))
                }
            },
            None => {
                let a = concat_chars(str_chars("需要指定--idx").as_slice(), l);
                let b = concat_chars(a.as_slice(), str_chars("或--p").as_slice());
                let c = concat_chars(b.as_slice(), l);
                Err(PointCloudError::InvalidParameter(chars_to_string(c.as_slice())))
            },
        },
    }
}

/// A volume is measured on a mesh when the input is an OBJ or STL file.
pub fn volume_input_is_mesh(path: &str) -> (r: bool)
    ensures
        r == match extension(path@) {
            Some(e) => lower(e) == "obj"@ || lower(e) == "stl"@,
            None => false,
        },
{
    let p = str_chars(path);
    match extension_bounds(p.as_slice()) {
        None => false,
        Some((a, b)) => {
            let e = chars_to_string(sub_chars(p.as_slice(), a, b).as_slice());
            let lower = lower_str(e.as_str());
            let l = str_chars(lower.as_str());
            chars_eq_str(l.as_slice(), "obj") || chars_eq_str(l.as_slice(), "stl")
        },
    }
}

/// A cross section needs a normal and a point of three values each.
pub fn check_section_args(normal_len: usize, point_len: usize) -> (r: Result<(), PointCloudError>)
    ensures
        normal_len != 3 ==> (r matches Err(PointCloudError::InvalidParameter(m)) && m@
            == "normal需要3个值"@),
        normal_len == 3 && point_len != 3 ==> (r matches Err(PointCloudError::InvalidParameter(m))
            && m@ == "point需要3个值"@),
        normal_len == 3 && point_len == 3 ==> r is Ok,
{
    if normal_len != 3 {
        return Err(PointCloudError::InvalidParameter(chars_to_string(str_chars("normal需要3个值").as_slice())));
    }
    if point_len != 3 {
        return Err(PointCloudError::InvalidParameter(chars_to_string(str_chars("point需要3个值").as_slice())));
    }
    Ok(())
}

// ---------------------------------------------------------------------------
// What the precision of a header line and of a written header is
// ---------------------------------------------------------------------------

/// A coordinate property line (one that starts with "property " and names
/// x, y or z) declares double precision when it mentions float64 or double,
/// otherwise single precision when it mentions float32 or "float ", and
/// nothing otherwise; a line of any other kind declares nothing.
pub proof fn law_line_precision(t: Seq<char>)
    ensures
        ({
            let coord = starts_with(t, "property "@) && (contains(t, " x"@) || contains(t, " y"@)
                || contains(t, " z"@));
            let double = contains(t, "float64"@) || contains(t, "double"@);
            let single = contains(t, "float32"@) || contains(t, "float "@);
            &&& coord && double ==> line_precision(t) == Some("float64"@)
            &&& coord && !double && single ==> line_precision(t) == Some("float32"@)
            &&& !(coord && (double || single)) ==> line_precision(t) is None
        }),
{
}

/// Words joined by spaces start with the first letter of the first word and
/// end with the last letter of the last.
proof fn lemma_join_ends(ws: Seq<Seq<char>>)
    requires
        ws.len() > 0,
        proper_words(ws),
    ensures
        join_words(ws).len() > 0,
        join_words(ws)[0] == ws[0][0],
        join_words(ws).last() == ws.last().last(),
    decreases ws.len(),
{
    assert(ws[0].len() > 0);
    if ws.len() > 1 {
        let more = ws.drop_first();
        assert(proper_words(more)) by {
            assert forall|i: int| 0 <= i < more.len() implies #[trigger] more[i].len() > 0
                && crate::text::no_ws(more[i]) by {
                assert(more[i] == ws[i + 1]);
            }
        }
        lemma_join_ends(more);
        assert(more.last() == ws.last());
    }
}

/// Trimming a text line of proper words leaves the words joined by spaces.
proof fn lemma_trim_text_line(ws: Seq<Seq<char>>)
    requires
        ws.len() > 0,
        proper_words(ws),
    ensures
        trim(text_line(ws)) == join_words(ws),
{
    lemma_join_ends(ws);
    let j = join_words(ws);
    let l = text_line(ws);
    assert(ws[0].len() > 0 && crate::text::no_ws(ws[0]));
    assert(!is_ws(ws[0][0]));
    assert(l[0] == j[0]);
    assert(trim_start(l) == l);
    assert(l.last() == '\n');
    assert(('\n' as u32) == 10u32);
    assert(is_ws('\n'));
    assert(l.drop_last() =~= j);
    let lw = ws.last();
    assert(lw == ws[ws.len() - 1]);
    assert(lw.len() > 0 && crate::text::no_ws(lw));
    assert(!is_ws(lw[lw.len() - 1]));
    assert(trim_end(j) == j);
}

/// Reading the precision past a line that declares none and does not end
/// the header.
proof fn lemma_precision_skip_line(data: Seq<u8>, pos: int, ls: Seq<Seq<char>>, rest: Seq<u8>)
    requires
        ls.len() > 0,
        well_formed_line(ls[0]),
        0 <= pos <= data.len(),
        data.skip(pos) == ascii_bytes(flatten(ls)) + rest,
    ensures
        pos < data.len(),
        ply_precision_from(data, pos) == if trim(ls[0]) == "end_header"@ {
            None
        } else if line_precision(trim(ls[0])) is Some {
            line_precision(trim(ls[0]))
        } else {
            ply_precision_from(data, pos + ls[0].len())
        },
        data.skip(pos + ls[0].len()) == ascii_bytes(flatten(ls.drop_first())) + rest,
{
    let l = ls[0];
    let more = ls.drop_first();
    lemma_ascii_bytes_concat(l, flatten(more));
    assert(ascii_bytes(flatten(ls)) + rest =~= ascii_bytes(l) + (ascii_bytes(flatten(more))
        + rest));
    lemma_line_bytes(data, pos, l, ascii_bytes(flatten(more)) + rest);
}

/// A line that starts with a letter other than 'p' and 'e' declares no
/// precision and does not end the header.
proof fn lemma_plain_line(t: Seq<char>)
    requires
        t.len() > 0,
        t[0] != 'p',
        t[0] != 'e',
    ensures
        line_precision(t) is None,
        t != "end_header"@,
{
    reveal_strlit("property ");
    reveal_strlit("end_header");
    if starts_with(t, "property "@) {
        assert(t.take(9)[0] == "property "@[0]);
    }
    if t == "end_header"@ {
        assert(t[0] == "end_header"@[0]);
    }
}

/// The first four lines of a written header declare no precision and do
/// not end the header.
proof fn lemma_preamble_precision(n: nat, k: int)
    requires
        0 <= k < 4,
    ensures
        line_precision(trim(preamble_lines(n)[k])) is None,
        trim(preamble_lines(n)[k]) != "end_header"@,
{
    reveal_strlit("ply");
    reveal_strlit("format");
    reveal_strlit("comment");
    reveal_strlit("element");
    reveal_strlit("binary_little_endian");
    reveal_strlit("1.0");
    reveal_strlit("Generated");
    reveal_strlit("by");
    reveal_strlit("pointcloud-cli");
    reveal_strlit("vertex");
    let ws = if k == 0 {
        seq!["ply"@]
    } else if k == 1 {
        seq!["format"@, "binary_little_endian"@, "1.0"@]
    } else if k == 2 {
        seq!["comment"@, "Generated"@, "by"@, "pointcloud-cli"@]
    } else {
        seq!["element"@, "vertex"@, crate::text::decimal(n)]
    };
    crate::text::lemma_decimal(n);
    assert(preamble_lines(n)[k] == text_line(ws));
    assert(proper_words(ws));
    lemma_trim_text_line(ws);
    lemma_join_ends(ws);
    let t = join_words(ws);
    if k == 0 {
        reveal_strlit("property ");
        reveal_strlit("end_header");
        assert(t == "ply"@);
        assert(!starts_with(t, "property "@));
        assert(t.len() != "end_header"@.len());
    } else if k == 3 {
        reveal_strlit("property ");
        reveal_strlit("end_header");
        assert(t == ws[0] + seq![' '] + join_words(ws.drop_first()));
        assert(t[1] == 'l');
        if starts_with(t, "property "@) {
            assert(t.take(9)[0] == "property "@[0]);
        }
        if t == "end_header"@ {
            assert(t[1] == "end_header"@[1]);
        }
    } else {
        lemma_plain_line(t);
    }
}

/// The property line of x as a double declares double precision.
proof fn lemma_x_double_precision()
    ensures
        line_precision(trim(property_line("float64"@, "x"@))) == Some("float64"@),
        trim(property_line("float64"@, "x"@)) != "end_header"@,
{
    reveal_strlit("property");
    reveal_strlit("float64");
    reveal_strlit("x");
    reveal_strlit("property ");
    reveal_strlit(" x");
    reveal_strlit("end_header");
    reveal_strlit("property float64 x");
    let ws = seq!["property"@, "float64"@, "x"@];
    assert(proper_words(ws));
    lemma_trim_text_line(ws);
    let w1 = ws.drop_first();
    let w2 = w1.drop_first();
    assert(w1 =~= seq!["float64"@, "x"@]);
    assert(w2 =~= seq!["x"@]);
    assert(join_words(w2) == "x"@);
    assert(join_words(w1) == "float64"@ + seq![' '] + "x"@);
    let t = join_words(ws);
    assert(t == "property"@ + seq![' '] + join_words(w1));
    assert(t =~= "property float64 x"@);
    assert(t.take(9) =~= "property "@);
    assert(t.subrange(16int, 16int + " x"@.len()) =~= " x"@);
    assert(t.subrange(9int, 9int + "float64"@.len()) =~= "float64"@);
    assert(starts_with(t, "property "@));
    assert(contains(t, " x"@));
    assert(contains(t, "float64"@));
    assert(t.len() != "end_header"@.len());
}

/// The header lines the writers put out begin with the preamble and the
/// property line of x as a double.
proof fn lemma_written_precision(ls: Seq<Seq<char>>, n: nat, rest: Seq<u8>)
    requires
        ls.len() >= 5,
        ls.take(4) == preamble_lines(n),
        ls[4] == property_line("float64"@, "x"@),
        forall|q: int| 0 <= q < 5 ==> well_formed_line(#[trigger] ls[q]),
    ensures
        ply_precision_from(ascii_bytes(flatten(ls)) + rest, 0) == Some("float64"@),
{
    let data = ascii_bytes(flatten(ls)) + rest;
    assert(data.skip(0) =~= data);
    let ls1 = ls.drop_first();
    let ls2 = ls1.drop_first();
    let ls3 = ls2.drop_first();
    let ls4 = ls3.drop_first();
    assert(ls1[0] == ls[1] && ls2[0] == ls[2] && ls3[0] == ls[3] && ls4[0] == ls[4]);
    assert(ls[0] == preamble_lines(n)[0] && ls[1] == preamble_lines(n)[1] && ls[2]
        == preamble_lines(n)[2] && ls[3] == preamble_lines(n)[3]) by {
        assert(ls.take(4)[0] == ls[0]);
        assert(ls.take(4)[1] == ls[1]);
        assert(ls.take(4)[2] == ls[2]);
        assert(ls.take(4)[3] == ls[3]);
    }
    lemma_preamble_precision(n, 0);
    lemma_preamble_precision(n, 1);
    lemma_preamble_precision(n, 2);
    lemma_preamble_precision(n, 3);
    lemma_x_double_precision();
    assert(well_formed_line(ls[0]));
    assert(well_formed_line(ls[1]));
    assert(well_formed_line(ls[2]));
    assert(well_formed_line(ls[3]));
    assert(well_formed_line(ls[4]));
    lemma_precision_skip_line(data, 0, ls, rest);
    let p1 = ls[0].len() as int;
    lemma_precision_skip_line(data, p1, ls1, rest);
    let p2 = p1 + ls1[0].len();
    lemma_precision_skip_line(data, p2, ls2, rest);
    let p3 = p2 + ls2[0].len();
    lemma_precision_skip_line(data, p3, ls3, rest);
    let p4 = p3 + ls3[0].len();
    lemma_precision_skip_line(data, p4, ls4, rest);
}

/// The header the point cloud writer puts out declares double precision,
/// whatever follows it.
pub proof fn law_point_cloud_header_precision(n: nat, has_normals: bool, has_colors: bool, rest: Seq<u8>)
    ensures
        ply_precision_from(
            ascii_bytes(flatten(point_cloud_header_lines(n, has_normals, has_colors))) + rest,
            0,
        ) == Some("float64"@),
{
    let ls = point_cloud_header_lines(n, has_normals, has_colors);
    let vp = vertex_properties(has_normals, has_colors);
    let pl = property_lines(vp);
    lemma_preamble_well_formed(n);
    lemma_vertex_property_words(has_normals, has_colors);
    lemma_property_lines_well_formed(vp);
    assert(vp[0] == ("x"@, "float64"@));
    assert(pl[0] == property_line("float64"@, "x"@));
    assert(ls.take(4) =~= preamble_lines(n));
    assert(ls[4] == pl[0]);
    assert forall|q: int| 0 <= q < 5 implies well_formed_line(#[trigger] ls[q]) by {
        if q < 4 {
            assert(ls[q] == ls.take(4)[q]);
        }
    }
    lemma_written_precision(ls, n, rest);
}

/// The header the mesh writer puts out declares double precision, whatever
/// follows it.
pub proof fn law_mesh_header_precision(n: nat, faces: nat, has_normals: bool, has_colors: bool, rest: Seq<u8>)
    ensures
        ply_precision_from(
            ascii_bytes(flatten(mesh_header_lines(n, faces, has_normals, has_colors))) + rest,
            0,
        ) == Some("float64"@),
{
    let ls = mesh_header_lines(n, faces, has_normals, has_colors);
    let vp = vertex_properties(has_normals, has_colors);
    let pl = property_lines(vp);
    lemma_preamble_well_formed(n);
    lemma_vertex_property_words(has_normals, has_colors);
    lemma_property_lines_well_formed(vp);
    assert(vp[0] == ("x"@, "float64"@));
    assert(pl[0] == property_line("float64"@, "x"@));
    assert(ls.take(4) =~= preamble_lines(n));
    assert(ls[4] == pl[0]);
    assert forall|q: int| 0 <= q < 5 implies well_formed_line(#[trigger] ls[q]) by {
        if q < 4 {
            assert(ls[q] == ls.take(4)[q]);
        }
    }
    lemma_written_precision(ls, n, rest);
}

} // verus!
