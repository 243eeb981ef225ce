use vstd::prelude::*;
use vstd::slice::slice_subrange;
use vstd::utf8::{decode_utf8, valid_utf8};
use crate::error::{IoErrorKind, PointCloudError};
use crate::io::PointCloudReader;
use crate::ply::{find_line_end, lemma_line_end_bounds, line_end};
use crate::text::{
    chars_eq_str, chars_starts_with_str, chars_to_string, parse_usize, parse_usize_chars,
    split_ws, starts_with, str_chars, trim, trim_chars, utf8_decode, words, words_view,
};

verus! {

/// What the header of a PCD file says.
#[derive(Debug, Clone, PartialEq, Eq)]
pub struct PcdHeader {
    pub fields: Vec<String>,
    pub sizes: Vec<usize>,
    pub types: Vec<char>,
    pub counts: Vec<usize>,
    pub width: usize,
    pub height: usize,
    pub points: usize,
    pub data_type: String,
    /// The number of bytes up to and including the line that ended the header.
    pub data_offset: usize,
}

/// The state of the PCD header scan.
pub struct PcdScan {
    pub fields: Seq<Seq<char>>,
    pub sizes: Seq<usize>,
    pub types: Seq<char>,
    pub counts: Seq<usize>,
    pub width: usize,
    pub height: usize,
    pub points: usize,
    pub data_type: Seq<char>,
    pub data_offset: nat,
}

/// The numbers among `ws`, in order (`filter_map(|s| s.parse().ok())`).
pub open spec fn parse_all(ws: Seq<Seq<char>>) -> Seq<usize>
    decreases ws.len(),
{
    if ws.len() == 0 {
        seq![]
    } else {
        let r = parse_all(ws.drop_last());
        match parse_usize(ws.last()) {
            Some(n) => r.push(n),
            None => r,
        }
    }
}

/// The first character of each non-empty word of `ws`.
pub open spec fn first_chars(ws: Seq<Seq<char>>) -> Seq<char>
    decreases ws.len(),
{
    if ws.len() == 0 {
        seq![]
    } else {
        let r = first_chars(ws.drop_last());
        if ws.last().len() > 0 {
            r.push(ws.last()[0])
        } else {
            r
        }
    }
}

/// The number in the second word, or 0 (`parts.get(1).and_then(parse).unwrap_or(0)`).
pub open spec fn second_number(ws: Seq<Seq<char>>) -> usize {
    if ws.len() >= 2 {
        match parse_usize(ws[1]) {
            Some(n) => n,
            None => 0,
        }
    } else {
        0
    }
}

/// The scan state before the first line.
pub open spec fn pcd_scan_start() -> PcdScan {
    PcdScan {
        fields: seq![],
        sizes: seq![],
        types: seq![],
        counts: seq![],
        width: 0,
        height: 0,
        points: 0,
        data_type: "ascii"@,
        data_offset: 0,
    }
}

/// The effect of one header line other than the `DATA` line.
pub open spec fn pcd_scan_line(st: PcdScan, ws: Seq<Seq<char>>) -> PcdScan {
    if ws.len() == 0 {
        st
    } else if ws[0] == "FIELDS"@ {
        PcdScan { fields: ws.skip(1), ..st }
    } else if ws[0] == "SIZE"@ {
        PcdScan { sizes: parse_all(ws.skip(1)), ..st }
    } else if ws[0] == "TYPE"@ {
        PcdScan { types: first_chars(ws.skip(1)), ..st }
    } else if ws[0] == "COUNT"@ {
        PcdScan { counts: parse_all(ws.skip(1)), ..st }
    } else if ws[0] == "WIDTH"@ {
        PcdScan { width: second_number(ws), ..st }
    } else if ws[0] == "HEIGHT"@ {
        PcdScan { height: second_number(ws), ..st }
    } else if ws[0] == "POINTS"@ {
        PcdScan { points: second_number(ws), ..st }
    } else {
        st
    }
}

/// The PCD header scan from byte `pos` on: blank lines are skipped, a line
/// that starts with `DATA` ends the header, a line that is not UTF-8 fails.
pub open spec fn pcd_scan_from(data: Seq<u8>, pos: int, st: PcdScan) -> Result<PcdScan, IoErrorKind>
    decreases data.len() - pos,
{
    if pos < 0 || pos >= data.len() {
        Ok(st)
    } else {
        let e = line_end(data, pos);
        proof {
            lemma_line_end_bounds(data, pos);
        }
        let bytes = data.subrange(pos, e);
        if !valid_utf8(bytes) {
            Err(IoErrorKind::InvalidData)
        } else {
            let t = trim(decode_utf8(bytes));
            let ws = words(t);
            let st1 = PcdScan { data_offset: e as nat, ..st };
            if t.len() == 0 {
                pcd_scan_from(data, e, st1)
            } else if starts_with(t, "DATA"@) {
                Ok(
                    if ws.len() >= 2 {
                        PcdScan { data_type: ws[1], ..st1 }
                    } else {
                        st1
                    },
                )
            } else {
                pcd_scan_from(data, e, pcd_scan_line(st1, ws))
            }
        }
    }
}

/// The header a PCD file's bytes hold; a header without `COUNT` counts one
/// value per field.
pub open spec fn pcd_header_of(data: Seq<u8>) -> Result<PcdScan, IoErrorKind> {
    match pcd_scan_from(data, 0, pcd_scan_start()) {
        Err(k) => Err(k),
        Ok(s) => Ok(
            if s.counts.len() == 0 {
                PcdScan { counts: Seq::new(s.fields.len(), |i: int| 1usize), ..s }
            } else {
                s
            },
        ),
    }
}

/// `h` holds what the scan `s` found.
pub open spec fn pcd_header_matches(h: PcdHeader, s: PcdScan) -> bool {
    &&& h.fields@.map_values(|f: String| f@) == s.fields
    &&& h.sizes@ == s.sizes
    &&& h.types@ == s.types
    &&& h.counts@ == s.counts
    &&& h.width == s.width
    &&& h.height == s.height
    &&& h.points == s.points
    &&& h.data_type@ == s.data_type
    &&& h.data_offset == s.data_offset
}

/// The numbers among `ws[from..]`.
fn parse_all_exec(ws: &Vec<Vec<char>>, from: usize) -> (r: Vec<usize>)
    requires
        from <= ws.len(),
    ensures
        r@ == parse_all(words_view(ws@).skip(from as int)),
{
    let mut r: Vec<usize> = Vec::new();
    let mut i = from;
    assert(words_view(ws@).skip(from as int).take(0) =~= seq![]);
    while i < ws.len()
        invariant
            from <= i <= ws.len(),
            r@ == parse_all(words_view(ws@).skip(from as int).take(i - from)),
        decreases ws.len() - i,
    {
        let ghost pre = words_view(ws@).skip(from as int).take(i - from);
        let ghost nxt = words_view(ws@).skip(from as int).take(i - from + 1);
        assert(nxt.drop_last() =~= pre);
        assert(nxt.last() == ws@[i as int]@);
        match parse_usize_chars(ws[i].as_slice()) {
            Some(n) => r.push(n),
            None => {},
        }
        i = i + 1;
    }
    assert(words_view(ws@).skip(from as int).take(ws.len() - from) =~= words_view(ws@).skip(
        from as int,
    ));
    r
}

/// The first character of each non-empty word among `ws[from..]`.
fn first_chars_exec(ws: &Vec<Vec<char>>, from: usize) -> (r: Vec<char>)
    requires
        from <= ws.len(),
    ensures
        r@ == first_chars(words_view(ws@).skip(from as int)),
{
    let mut r: Vec<char> = Vec::new();
    let mut i = from;
    assert(words_view(ws@).skip(from as int).take(0) =~= seq![]);
    while i < ws.len()
        invariant
            from <= i <= ws.len(),
            r@ == first_chars(words_view(ws@).skip(from as int).take(i - from)),
        decreases ws.len() - i,
    {
        let ghost pre = words_view(ws@).skip(from as int).take(i - from);
        let ghost nxt = words_view(ws@).skip(from as int).take(i - from + 1);
        assert(nxt.drop_last() =~= pre);
        assert(nxt.last() == ws@[i as int]@);
        if ws[i].len() > 0 {
            r.push(ws[i][0]);
        }
        i = i + 1;
    }
    assert(words_view(ws@).skip(from as int).take(ws.len() - from) =~= words_view(ws@).skip(
        from as int,
    ));
    r
}

/// The words `ws[from..]` as strings.
fn strings_from(ws: &Vec<Vec<char>>, from: usize) -> (r: Vec<String>)
    requires
        from <= ws.len(),
    ensures
        r@.map_values(|f: String| f@) == words_view(ws@).skip(from as int),
{
    let mut r: Vec<String> = Vec::new();
    let mut i = from;
    while i < ws.len()
        invariant
            from <= i <= ws.len(),
            r@.map_values(|f: String| f@) == words_view(ws@).skip(from as int).take(i - from),
        decreases ws.len() - i,
    {
        let ghost before = r@;
        let st = chars_to_string(ws[i].as_slice());
        r.push(st);
        assert(r@.map_values(|f: String| f@) =~= before.map_values(|f: String| f@).push(
            ws@[i as int]@,
        ));
        assert(words_view(ws@).skip(from as int).take(i - from + 1) =~= words_view(ws@).skip(
            from as int,
        ).take(i - from).push(ws@[i as int]@));
        i = i + 1;
    }
    assert(words_view(ws@).skip(from as int).take(ws.len() - from) =~= words_view(ws@).skip(
        from as int,
    ));
    r
}

/// The number in the second word, or 0.
fn second_number_exec(ws: &Vec<Vec<char>>) -> (r: usize)
    ensures
        r == second_number(words_view(ws@)),
{
    if ws.len() >= 2 {
        match parse_usize_chars(ws[1].as_slice()) {
            Some(n) => n,
            None => 0,
        }
    } else {
        0
    }
}

/// The header found, with one value per field when `COUNT` was absent.
fn finish_pcd_header(
    fields: Vec<String>,
    sizes: Vec<usize>,
    types: Vec<char>,
    counts: Vec<usize>,
    width: usize,
    height: usize,
    points: usize,
    data_type: String,
    data_offset: usize,
) -> (h: PcdHeader)
    ensures
        ({
            let s = PcdScan {
                fields: fields@.map_values(|f: String| f@),
                sizes: sizes@,
                types: types@,
                counts: counts@,
                width,
                height,
                points,
                data_type: data_type@,
                data_offset: data_offset as nat,
            };
            pcd_header_matches(
                h,
                if s.counts.len() == 0 {
                    PcdScan { counts: Seq::new(s.fields.len(), |i: int| 1usize), ..s }
                } else {
                    s
                },
            )
        }),
{
    let mut counts = counts;
    if counts.len() == 0 {
        let mut i: usize = 0;
        while i < fields.len()
            invariant
                i <= fields.len(),
                counts@ == Seq::new(i as nat, |k: int| 1usize),
            decreases fields.len() - i,
        {
            counts.push(1);
            assert(counts@ =~= Seq::new((i + 1) as nat, |k: int| 1usize));
            i = i + 1;
        }
    }
    PcdHeader { fields, sizes, types, counts, width, height, points, data_type, data_offset }
}

impl PointCloudReader {
    /// Reads the header of a PCD point cloud from the start of `data`.
    pub fn parse_pcd_header(&self, data: &[u8]) -> (r: Result<PcdHeader, PointCloudError>)
        ensures
            match pcd_header_of(data@) {
                Ok(s) => r matches Ok(h) && pcd_header_matches(h, s),
                Err(k) => r == Err::<PcdHeader, PointCloudError>(PointCloudError::IoError(k)),
            },
    {
        let mut fields: Vec<String> = Vec::new();
        let mut sizes: Vec<usize> = Vec::new();
        let mut types: Vec<char> = Vec::new();
        let mut counts: Vec<usize> = Vec::new();
        let mut width: usize = 0;
        let mut height: usize = 0;
        let mut points: usize = 0;
        let mut data_type = chars_to_string(str_chars("ascii").as_slice());
        let mut pos: usize = 0;
        assert(fields@.map_values(|f: String| f@) =~= seq![]);
        let ghost scan = pcd_scan_from(data@, 0, pcd_scan_start());
        while pos < data.len()
            invariant
                pos <= data.len(),
                scan == pcd_scan_from(data@, 0, pcd_scan_start()),
                scan == pcd_scan_from(
                    data@,
                    pos as int,
                    PcdScan {
                        fields: fields@.map_values(|f: String| f@),
                        sizes: sizes@,
                        types: types@,
                        counts: counts@,
                        width,
                        height,
                        points,
                        data_type: data_type@,
                        data_offset: pos as nat,
                    },
                ),
            decreases data.len() - pos,
        {
            let e = find_line_end(data, pos);
            let bytes = slice_subrange(data, pos, e);
            let s = match utf8_decode(bytes) {
                None => {
                    return Err(PointCloudError::IoError(IoErrorKind::InvalidData));
                },
                Some(s) => s,
            };
            let line = str_chars(s);
            let t = trim_chars(line.as_slice());
            let t = t.as_slice();
            let ws = split_ws(t);
            assert(ws@.len() == words(t@).len());
            if t.len() == 0 {
                pos = e;
                continue ;
            }
            if chars_starts_with_str(t, "DATA") {
                if ws.len() >= 2 {
                    assert(ws@[1]@ == words(t@)[1]);
                    data_type = chars_to_string(ws[1].as_slice());
                }
                return Ok(
                    finish_pcd_header(
                        fields,
                        sizes,
                        types,
                        counts,
                        width,
                        height,
                        points,
                        data_type,
                        e,
                    ),
                );
            }
            if ws.len() > 0 {
                assert(ws@[0]@ == words(t@)[0]);
                let w0 = ws[0].as_slice();
                if chars_eq_str(w0, "FIELDS") {
                    fields = strings_from(&ws, 1);
                } else if chars_eq_str(w0, "SIZE") {
                    sizes = parse_all_exec(&ws, 1);
                } else if chars_eq_str(w0, "TYPE") {
                    types = first_chars_exec(&ws, 1);
                } else if chars_eq_str(w0, "COUNT") {
                    counts = parse_all_exec(&ws, 1);
                } else if chars_eq_str(w0, "WIDTH") {
                    width = second_number_exec(&ws);
                } else if chars_eq_str(w0, "HEIGHT") {
                    height = second_number_exec(&ws);
                } else if chars_eq_str(w0, "POINTS") {
                    points = second_number_exec(&ws);
                }
            }
            pos = e;
        }
        Ok(finish_pcd_header(fields, sizes, types, counts, width, height, points, data_type, pos))
    }
}

impl PcdHeader {
    /// The body is binary: the `DATA` line says `binary` or
    /// `binary_compressed`.
    pub fn is_binary(&self) -> (r: bool)
        ensures
            r == (self.data_type@ == "binary"@ || self.data_type@ == "binary_compressed"@),
    {
        let d = str_chars(self.data_type.as_str());
        chars_eq_str(d.as_slice(), "binary") || chars_eq_str(d.as_slice(), "binary_compressed")
    }
}

} // verus!
