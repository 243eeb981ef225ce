use vstd::prelude::*;
use crate::error::IoErrorKind;
use crate::ply::{
    ascii_bytes, flatten, lemma_ascii_bytes_concat, lemma_flatten_concat, lemma_ply_fold_concat,
    lemma_ply_scan_lines, ply_fold, ply_header_of, ply_scan_line, ply_scan_start, well_formed_line,
    well_formed_lines, PlyScan,
};
use crate::text::{
    decimal, decimal_chars, is_ws, join_words, lemma_decimal, lemma_text_line, no_ws, parse_usize,
    proper_words, starts_with, str_chars, text_line, trim, words, words_view,
};

verus! {

// ---------------------------------------------------------------------------
// The header lines the writers put out
// ---------------------------------------------------------------------------

/// The first line of every PLY file.
pub open spec fn magic_line() -> Seq<char> {
    text_line(seq!["ply"@])
}

/// The format line of the binary little-endian files the writers put out.
pub open spec fn format_line() -> Seq<char> {
    text_line(seq!["format"@, "binary_little_endian"@, "1.0"@])
}

/// The comment line the writers put out.
pub open spec fn comment_line() -> Seq<char> {
    text_line(seq!["comment"@, "Generated"@, "by"@, "pointcloud-cli"@])
}

/// The line declaring `n` vertices.
pub open spec fn vertex_count_line(n: nat) -> Seq<char> {
    text_line(seq!["element"@, "vertex"@, decimal(n)])
}

/// The line declaring a vertex property `name` of type `dtype`.
pub open spec fn property_line(dtype: Seq<char>, name: Seq<char>) -> Seq<char> {
    text_line(seq!["property"@, dtype, name])
}

/// The line declaring `n` faces.
pub open spec fn face_count_line(n: nat) -> Seq<char> {
    text_line(seq!["element"@, "face"@, decimal(n)])
}

/// The line declaring the index list of a face.
pub open spec fn face_list_line() -> Seq<char> {
    text_line(seq!["property"@, "list"@, "uchar"@, "int"@, "vertex_indices"@])
}

/// The line that ends the header.
pub open spec fn end_header_line() -> Seq<char> {
    text_line(seq!["end_header"@])
}

/// The vertex property names and types the writers declare.
pub open spec fn vertex_properties(has_normals: bool, has_colors: bool) -> Seq<(Seq<char>, Seq<char>)> {
    seq![("x"@, "float64"@), ("y"@, "float64"@), ("z"@, "float64"@)] + (if has_normals {
        seq![("nx"@, "float64"@), ("ny"@, "float64"@), ("nz"@, "float64"@)]
    } else {
        seq![]
    }) + (if has_colors {
        seq![("red"@, "uchar"@), ("green"@, "uchar"@), ("blue"@, "uchar"@)]
    } else {
        seq![]
    })
}

/// The property lines for the given (name, type) pairs.
pub open spec fn property_lines(props: Seq<(Seq<char>, Seq<char>)>) -> Seq<Seq<char>> {
    props.map_values(|p: (Seq<char>, Seq<char>)| property_line(p.1, p.0))
}

/// The header lines of a point cloud PLY file.
pub open spec fn point_cloud_header_lines(n: nat, has_normals: bool, has_colors: bool) -> Seq<
    Seq<char>,
> {
    seq![magic_line(), format_line(), comment_line(), vertex_count_line(n)] + property_lines(
        vertex_properties(has_normals, has_colors),
    ) + seq![end_header_line()]
}

/// The header lines of a mesh PLY file.
pub open spec fn mesh_header_lines(
    vertices: nat,
    faces: nat,
    has_normals: bool,
    has_colors: bool,
) -> Seq<Seq<char>> {
    seq![magic_line(), format_line(), comment_line(), vertex_count_line(vertices)]
        + property_lines(vertex_properties(has_normals, has_colors)) + seq![
        face_count_line(faces),
        face_list_line(),
        end_header_line(),
    ]
}

// ---------------------------------------------------------------------------
// What the point cloud header scan makes of each line
// ---------------------------------------------------------------------------

/// A sequence that differs from `p` at `i` neither equals nor starts with `p`.
pub proof fn lemma_differs_at(t: Seq<char>, p: Seq<char>, i: int)
    requires
        0 <= i < p.len(),
        i < t.len(),
        t[i] != p[i],
    ensures
        !starts_with(t, p),
        t != p,
{
    if starts_with(t, p) {
        assert(t.take(p.len() as int)[i] == t[i]);
    }
}

pub proof fn lemma_join1(a: Seq<char>)
    ensures
        join_words(seq![a]) == a,
{
}

pub proof fn lemma_join3(a: Seq<char>, b: Seq<char>, c: Seq<char>)
    ensures
        join_words(seq![a, b, c]) == a + seq![' '] + b + seq![' '] + c,
{
    let ws = seq![a, b, c];
    assert(ws.drop_first() =~= seq![b, c]);
    assert(seq![b, c].drop_first() =~= seq![c]);
    assert(join_words(seq![c]) == c);
    assert(join_words(seq![b, c]) == b + seq![' '] + c);
    assert(a + seq![' '] + (b + seq![' '] + c) =~= a + seq![' '] + b + seq![' '] + c);
}

pub proof fn lemma_join4(a: Seq<char>, b: Seq<char>, c: Seq<char>, d: Seq<char>)
    ensures
        join_words(seq![a, b, c, d]) == a + seq![' '] + b + seq![' '] + c + seq![' '] + d,
{
    let ws = seq![a, b, c, d];
    assert(ws.drop_first() =~= seq![b, c, d]);
    lemma_join3(b, c, d);
    assert(a + seq![' '] + (b + seq![' '] + c + seq![' '] + d) =~= a + seq![' '] + b + seq![' ']
        + c + seq![' '] + d);
}

pub proof fn lemma_join5(a: Seq<char>, b: Seq<char>, c: Seq<char>, d: Seq<char>, e: Seq<char>)
    ensures
        join_words(seq![a, b, c, d, e]) == a + seq![' '] + b + seq![' '] + c + seq![' '] + d + seq![
            ' ',
        ] + e,
{
    let ws = seq![a, b, c, d, e];
    assert(ws.drop_first() =~= seq![b, c, d, e]);
    lemma_join4(b, c, d, e);
    assert(a + seq![' '] + (b + seq![' '] + c + seq![' '] + d + seq![' '] + e) =~= a + seq![' ']
        + b + seq![' '] + c + seq![' '] + d + seq![' '] + e);
}

proof fn lemma_scan_magic(st: PlyScan)
    ensures
        ply_scan_line(st, magic_line()) == (st, false),
{
    reveal_strlit("ply");
    let ws = seq!["ply"@];
    assert(proper_words(ws));
    lemma_text_line(ws);
}

proof fn lemma_scan_format(st: PlyScan)
    ensures
        ply_scan_line(st, format_line()) == (
            PlyScan { is_binary: true, little_endian: true, ..st },
            false,
        ),
{
    reveal_strlit("format");
    reveal_strlit("binary_little_endian");
    reveal_strlit("1.0");
    reveal_strlit("ply");
    reveal_strlit("ascii");
    let ws = seq!["format"@, "binary_little_endian"@, "1.0"@];
    assert(proper_words(ws));
    lemma_text_line(ws);
    lemma_join3("format"@, "binary_little_endian"@, "1.0"@);
    let t = join_words(ws);
    assert(t.take(6) =~= "format"@);
    assert(ws[1] == "binary_little_endian"@);
}

proof fn lemma_scan_comment(st: PlyScan)
    ensures
        ply_scan_line(st, comment_line()) == (st, false),
{
    reveal_strlit("comment");
    reveal_strlit("Generated");
    reveal_strlit("by");
    reveal_strlit("pointcloud-cli");
    reveal_strlit("ply");
    reveal_strlit("format");
    reveal_strlit("element vertex");
    reveal_strlit("element");
    reveal_strlit("property");
    reveal_strlit("end_header");
    let ws = seq!["comment"@, "Generated"@, "by"@, "pointcloud-cli"@];
    assert(proper_words(ws));
    lemma_text_line(ws);
    lemma_join4("comment"@, "Generated"@, "by"@, "pointcloud-cli"@);
    let t = join_words(ws);
    assert(t[0] == 'c');
    lemma_differs_at(t, "format"@, 0);
    lemma_differs_at(t, "element vertex"@, 0);
    lemma_differs_at(t, "element"@, 0);
    lemma_differs_at(t, "property"@, 0);
    lemma_differs_at(t, "end_header"@, 0);
    lemma_differs_at(t, "ply"@, 0);
}

proof fn lemma_scan_vertex_count(st: PlyScan, n: usize)
    ensures
        ply_scan_line(st, vertex_count_line(n as nat)) == (
            PlyScan { in_vertex: true, vertex_count: n, ..st },
            false,
        ),
{
    reveal_strlit("element");
    reveal_strlit("vertex");
    reveal_strlit("ply");
    reveal_strlit("format");
    reveal_strlit("element vertex");
    lemma_decimal(n as nat);
    let ws = seq!["element"@, "vertex"@, decimal(n as nat)];
    assert(proper_words(ws));
    lemma_text_line(ws);
    lemma_join3("element"@, "vertex"@, decimal(n as nat));
    let t = join_words(ws);
    assert(t.take(14) =~= "element vertex"@);
    lemma_differs_at(t, "format"@, 0);
    lemma_differs_at(t, "ply"@, 0);
    assert(ws[2] == decimal(n as nat));
}

proof fn lemma_scan_property(st: PlyScan, dtype: Seq<char>, name: Seq<char>)
    requires
        st.in_vertex,
        proper_words(seq![dtype, name]),
    ensures
        ply_scan_line(st, property_line(dtype, name)) == (
            PlyScan { properties: st.properties.push((name, dtype)), ..st },
            false,
        ),
{
    reveal_strlit("property");
    reveal_strlit("ply");
    reveal_strlit("format");
    reveal_strlit("element vertex");
    reveal_strlit("element");
    let ws = seq!["property"@, dtype, name];
    assert(proper_words(ws)) by {
        assert(ws[1] == seq![dtype, name][0]);
        assert(ws[2] == seq![dtype, name][1]);
    }
    lemma_text_line(ws);
    let t = join_words(ws);
    assert(t[0] == 'p');
    assert(t.take(8) =~= "property"@);
}

proof fn lemma_scan_end_header(st: PlyScan)
    ensures
        ply_scan_line(st, end_header_line()) == (st, true),
{
    reveal_strlit("end_header");
    reveal_strlit("ply");
    reveal_strlit("format");
    reveal_strlit("element vertex");
    reveal_strlit("element");
    reveal_strlit("property");
    let ws = seq!["end_header"@];
    assert(proper_words(ws));
    lemma_text_line(ws);
    lemma_join1("end_header"@);
    let t = join_words(ws);
    lemma_differs_at(t, "ply"@, 0);
    lemma_differs_at(t, "format"@, 0);
    lemma_differs_at(t, "element"@, 1);
    lemma_differs_at(t, "element vertex"@, 1);
    lemma_differs_at(t, "property"@, 0);
}

// ---------------------------------------------------------------------------
// Writing text lines as ASCII bytes
// ---------------------------------------------------------------------------

/// Each of `ws` is a non-empty ASCII word without whitespace.
pub open spec fn ascii_words(ws: Seq<Seq<char>>) -> bool {
    &&& proper_words(ws)
    &&& forall|i: int| 0 <= i < ws.len() ==> vstd::utf8::is_ascii_chars(#[trigger] ws[i])
}

/// Joining one more word adds a space and the word.
pub proof fn lemma_join_push(ws: Seq<Seq<char>>, w: Seq<char>)
    ensures
        ws.len() == 0 ==> join_words(ws.push(w)) == w,
        ws.len() > 0 ==> join_words(ws.push(w)) == join_words(ws) + seq![' '] + w,
    decreases ws.len(),
{
    if ws.len() == 0 {
        assert(ws.push(w) =~= seq![w]);
    } else if ws.len() == 1 {
        assert(ws.push(w).drop_first() =~= seq![w]);
        assert(join_words(seq![w]) == w);
    } else {
        assert(ws.push(w).drop_first() =~= ws.drop_first().push(w));
        lemma_join_push(ws.drop_first(), w);
        assert(ws[0] + seq![' '] + (join_words(ws.drop_first()) + seq![' '] + w) =~= (ws[0]
            + seq![' '] + join_words(ws.drop_first())) + seq![' '] + w);
    }
}

/// Words joined by spaces hold no line break and are ASCII when the words
/// are.
proof fn lemma_join_ascii(ws: Seq<Seq<char>>)
    requires
        ascii_words(ws),
    ensures
        vstd::utf8::is_ascii_chars(join_words(ws)),
        forall|i: int| 0 <= i < join_words(ws).len() ==> #[trigger] join_words(ws)[i] != '\n',
    decreases ws.len(),
{
    if ws.len() == 1 {
        let w = ws[0];
        assert(vstd::utf8::is_ascii_chars(w));
        assert(no_ws(w));
        assert forall|i: int| 0 <= i < w.len() implies #[trigger] w[i] != '\n' by {
            assert(!is_ws(w[i]));
        }
    } else if ws.len() > 1 {
        let rest = ws.drop_first();
        assert(ascii_words(rest)) by {
            assert forall|i: int| 0 <= i < rest.len() implies #[trigger] rest[i].len() > 0 && no_ws(
                rest[i],
            ) by {
                assert(rest[i] == ws[i + 1]);
            }
            assert forall|i: int| 0 <= i < rest.len() implies vstd::utf8::is_ascii_chars(
                #[trigger] rest[i],
            ) by {
                assert(rest[i] == ws[i + 1]);
            }
        }
        lemma_join_ascii(rest);
        let w = ws[0];
        assert(vstd::utf8::is_ascii_chars(w));
        assert(no_ws(w));
        let j = join_words(ws);
        let r = join_words(rest);
        assert(j == w + seq![' '] + r);
        assert forall|i: int| 0 <= i < j.len() implies #[trigger] j[i] != '\n' && '\0' <= j[i]
            <= '\u{7f}' by {
            if i < w.len() {
                assert(j[i] == w[i]);
                assert(!is_ws(w[i]));
            } else if i == w.len() {
                assert(j[i] == ' ');
            } else {
                assert(j[i] == r[i - w.len() - 1]);
            }
        }
    }
}

/// A text line of ASCII words is a well-formed line.
pub proof fn lemma_text_line_well_formed(ws: Seq<Seq<char>>)
    requires
        ascii_words(ws),
        ws.len() > 0,
    ensures
        well_formed_line(text_line(ws)),
{
    lemma_join_ascii(ws);
    let j = join_words(ws);
    let l = text_line(ws);
    assert forall|i: int| 0 <= i < l.len() - 1 implies #[trigger] l[i] != '\n' by {
        assert(l[i] == j[i]);
    }
    assert forall|i: int| 0 <= i < l.len() implies '\0' <= #[trigger] l[i] <= '\u{7f}' by {
        if i < j.len() {
            assert(l[i] == j[i]);
        }
    }
}

/// Appends the ASCII bytes of `cs`.
fn push_ascii(out: &mut Vec<u8>, cs: &[char])
    requires
        vstd::utf8::is_ascii_chars(cs@),
    ensures
        final(out)@ == old(out)@ + ascii_bytes(cs@),
{
    let ghost start = out@;
    let mut i: usize = 0;
    while i < cs.len()
        invariant
            i <= cs.len(),
            vstd::utf8::is_ascii_chars(cs@),
            out@ == start + ascii_bytes(cs@.take(i as int)),
        decreases cs.len() - i,
    {
        let c = cs[i];
        assert('\0' <= cs@[i as int] <= '\u{7f}');
        let b: u8 = c as u8;
        out.push(b);
        assert(ascii_bytes(cs@.take(i + 1)) =~= ascii_bytes(cs@.take(i as int)).push(b));
        i = i + 1;
    }
    assert(cs@.take(cs.len() as int) =~= cs@);
}

/// Appends the line holding the words `ws`, separated by single spaces and
/// ended by a line break.
fn push_line(out: &mut Vec<u8>, ws: &Vec<Vec<char>>)
    requires
        ws.len() > 0,
        forall|i: int| 0 <= i < ws.len() ==> vstd::utf8::is_ascii_chars(#[trigger] ws@[i]@),
    ensures
        final(out)@ == old(out)@ + ascii_bytes(text_line(words_view(ws@))),
{
    let ghost start = out@;
    let ghost wv = words_view(ws@);
    let mut i: usize = 0;
    while i < ws.len()
        invariant
            0 < ws.len(),
            i <= ws.len(),
            wv == words_view(ws@),
            forall|k: int| 0 <= k < ws.len() ==> vstd::utf8::is_ascii_chars(#[trigger] ws@[k]@),
            out@ == start + ascii_bytes(join_words(wv.take(i as int))),
        decreases ws.len() - i,
    {
        let ghost before = out@;
        proof {
            assert(wv.take(i + 1) =~= wv.take(i as int).push(wv[i as int]));
            lemma_join_push(wv.take(i as int), wv[i as int]);
            assert(wv[i as int] == ws@[i as int]@);
        }
        if i > 0 {
            out.push(32u8);
            proof {
                lemma_ascii_bytes_concat(join_words(wv.take(i as int)), seq![' ']);
                assert(ascii_bytes(seq![' ']) =~= seq![32u8]);
            }
        }
        push_ascii(out, ws[i].as_slice());
        proof {
            if i > 0 {
                lemma_ascii_bytes_concat(join_words(wv.take(i as int)) + seq![' '], wv[i as int]);
            } else {
                assert(wv.take(i as int) =~= seq![]);
                assert(ascii_bytes(seq![]) =~= seq![]);
                assert(start + seq![] =~= start);
            }
        }
        i = i + 1;
    }
    assert(wv.take(ws.len() as int) =~= wv);
    out.push(10u8);
    proof {
        lemma_ascii_bytes_concat(join_words(wv), seq!['\n']);
        assert(ascii_bytes(seq!['\n']) =~= seq![10u8]);
    }
}

/// Adding one line to a list of lines adds it at the end of their text.
pub proof fn lemma_flatten_push(ls: Seq<Seq<char>>, l: Seq<char>)
    ensures
        flatten(ls.push(l)) == flatten(ls) + l,
{
    lemma_flatten_concat(ls, seq![l]);
    assert(seq![l].drop_first() =~= seq![]);
    assert(flatten(seq![l]) == l + flatten(seq![]));
    assert(l + seq![] =~= l);
    assert(ls + seq![l] =~= ls.push(l));
}

/// Appends the line holding the words `ws` after the lines `ls` already
/// written from `start` on.
pub(crate) fn push_words_line(
    out: &mut Vec<u8>,
    ws: &Vec<Vec<char>>,
    Ghost(start): Ghost<Seq<u8>>,
    Ghost(ls): Ghost<Seq<Seq<char>>>,
)
    requires
        ws.len() > 0,
        forall|i: int| 0 <= i < ws.len() ==> vstd::utf8::is_ascii_chars(#[trigger] ws@[i]@),
        old(out)@ == start + ascii_bytes(flatten(ls)),
    ensures
        final(out)@ == start + ascii_bytes(flatten(ls.push(text_line(words_view(ws@))))),
{
    push_line(out, ws);
    proof {
        let l = text_line(words_view(ws@));
        lemma_flatten_push(ls, l);
        lemma_ascii_bytes_concat(flatten(ls), l);
    }
}

/// The property words are ASCII words.
pub proof fn lemma_property_words(dtype: Seq<char>, name: Seq<char>)
    requires
        ascii_words(seq![dtype, name]),
    ensures
        ascii_words(seq!["property"@, dtype, name]),
{
    reveal_strlit("property");
    let ws = seq!["property"@, dtype, name];
    assert(seq![dtype, name][0] == dtype);
    assert(seq![dtype, name][1] == name);
    assert(ws[1] == dtype);
    assert(ws[2] == name);
}

/// Appends the line declaring the vertex property `name` of type `dtype`.
fn push_property_line(
    out: &mut Vec<u8>,
    dtype: &str,
    name: &str,
    Ghost(start): Ghost<Seq<u8>>,
    Ghost(ls): Ghost<Seq<Seq<char>>>,
)
    requires
        ascii_words(seq![dtype@, name@]),
        old(out)@ == start + ascii_bytes(flatten(ls)),
    ensures
        final(out)@ == start + ascii_bytes(flatten(ls.push(property_line(dtype@, name@)))),
{
    let ws = vec![str_chars("property"), str_chars(dtype), str_chars(name)];
    proof {
        lemma_property_words(dtype@, name@);
        assert(words_view(ws@) =~= seq!["property"@, dtype@, name@]);
        assert forall|i: int| 0 <= i < ws.len() implies vstd::utf8::is_ascii_chars(
            #[trigger] ws@[i]@,
        ) by {
            assert(ws@[i]@ == words_view(ws@)[i]);
        }
    }
    push_words_line(out, &ws, Ghost(start), Ghost(ls));
}

/// The property names and types the writers use are ASCII words.
pub proof fn lemma_vertex_property_words(has_normals: bool, has_colors: bool)
    ensures
        forall|i: int|
            0 <= i < vertex_properties(has_normals, has_colors).len() ==> ascii_words(
                seq![
                    #[trigger] vertex_properties(has_normals, has_colors)[i].1,
                    vertex_properties(has_normals, has_colors)[i].0,
                ],
            ),
{
    reveal_strlit("float64");
    reveal_strlit("uchar");
    reveal_strlit("x");
    reveal_strlit("y");
    reveal_strlit("z");
    reveal_strlit("nx");
    reveal_strlit("ny");
    reveal_strlit("nz");
    reveal_strlit("red");
    reveal_strlit("green");
    reveal_strlit("blue");
    let vp = vertex_properties(has_normals, has_colors);
    assert forall|i: int| 0 <= i < vp.len() implies ascii_words(
        seq![#[trigger] vp[i].1, vp[i].0],
    ) by {
        let ws = seq![vp[i].1, vp[i].0];
        assert(ws[0] == vp[i].1);
        assert(ws[1] == vp[i].0);
    }
}

/// Appends the property lines for the vertex properties the writers
/// declare.
pub(crate) fn push_vertex_properties(
    out: &mut Vec<u8>,
    has_normals: bool,
    has_colors: bool,
    Ghost(start): Ghost<Seq<u8>>,
    Ghost(ls): Ghost<Seq<Seq<char>>>,
)
    requires
        old(out)@ == start + ascii_bytes(flatten(ls)),
    ensures
        final(out)@ == start + ascii_bytes(
            flatten(ls + property_lines(vertex_properties(has_normals, has_colors))),
        ),
{
    let ghost vp = vertex_properties(has_normals, has_colors);
    proof {
        lemma_vertex_property_words(has_normals, has_colors);
        assert(vp[0] == ("x"@, "float64"@));
        assert(vp[1] == ("y"@, "float64"@));
        assert(vp[2] == ("z"@, "float64"@));
        assert(ascii_words(seq![vp[0].1, vp[0].0]));
        assert(ascii_words(seq![vp[1].1, vp[1].0]));
        assert(ascii_words(seq![vp[2].1, vp[2].0]));
    }
    let ghost mut cur = ls;
    push_property_line(out, "float64", "x", Ghost(start), Ghost(cur));
    proof { cur = cur.push(property_line("float64"@, "x"@)); }
    push_property_line(out, "float64", "y", Ghost(start), Ghost(cur));
    proof { cur = cur.push(property_line("float64"@, "y"@)); }
    push_property_line(out, "float64", "z", Ghost(start), Ghost(cur));
    proof { cur = cur.push(property_line("float64"@, "z"@)); }
    if has_normals {
        proof {
            assert(vp[3] == ("nx"@, "float64"@));
            assert(vp[4] == ("ny"@, "float64"@));
            assert(vp[5] == ("nz"@, "float64"@));
            assert(ascii_words(seq![vp[3].1, vp[3].0]));
            assert(ascii_words(seq![vp[4].1, vp[4].0]));
            assert(ascii_words(seq![vp[5].1, vp[5].0]));
        }
        push_property_line(out, "float64", "nx", Ghost(start), Ghost(cur));
        proof { cur = cur.push(property_line("float64"@, "nx"@)); }
        push_property_line(out, "float64", "ny", Ghost(start), Ghost(cur));
        proof { cur = cur.push(property_line("float64"@, "ny"@)); }
        push_property_line(out, "float64", "nz", Ghost(start), Ghost(cur));
        proof { cur = cur.push(property_line("float64"@, "nz"@)); }
    }
    if has_colors {
        let ghost k: int = if has_normals { 6 } else { 3 };
        proof {
            assert(vp[k] == ("red"@, "uchar"@));
            assert(vp[k + 1] == ("green"@, "uchar"@));
            assert(vp[k + 2] == ("blue"@, "uchar"@));
            assert(ascii_words(seq![vp[k].1, vp[k].0]));
            assert(ascii_words(seq![vp[k + 1].1, vp[k + 1].0]));
            assert(ascii_words(seq![vp[k + 2].1, vp[k + 2].0]));
        }
        push_property_line(out, "uchar", "red", Ghost(start), Ghost(cur));
        proof { cur = cur.push(property_line("uchar"@, "red"@)); }
        push_property_line(out, "uchar", "green", Ghost(start), Ghost(cur));
        proof { cur = cur.push(property_line("uchar"@, "green"@)); }
        push_property_line(out, "uchar", "blue", Ghost(start), Ghost(cur));
        proof { cur = cur.push(property_line("uchar"@, "blue"@)); }
    }
    assert(cur =~= ls + property_lines(vp));
}

/// The first four header lines: magic, format, comment and vertex count.
pub open spec fn preamble_lines(n: nat) -> Seq<Seq<char>> {
    seq![magic_line(), format_line(), comment_line(), vertex_count_line(n)]
}

/// Appends the first four header lines.
pub(crate) fn push_preamble(out: &mut Vec<u8>, vertex_count: usize)
    requires
        old(out)@ == Seq::<u8>::empty(),
    ensures
        final(out)@ == ascii_bytes(flatten(preamble_lines(vertex_count as nat))),
{
    let ghost start: Seq<u8> = seq![];
    proof {
        reveal_strlit("ply");
        reveal_strlit("format");
        reveal_strlit("binary_little_endian");
        reveal_strlit("1.0");
        reveal_strlit("comment");
        reveal_strlit("Generated");
        reveal_strlit("by");
        reveal_strlit("pointcloud-cli");
        reveal_strlit("element");
        reveal_strlit("vertex");
        assert(ascii_bytes(flatten(seq![])) =~= seq![]);
        assert(out@ == start + ascii_bytes(flatten(seq![])));
    }
    let ws = vec![str_chars("ply")];
    assert(words_view(ws@) =~= seq!["ply"@]);
    push_words_line(out, &ws, Ghost(start), Ghost(Seq::<Seq<char>>::empty()));
    let ghost l1 = seq![magic_line()];
    let ws = vec![str_chars("format"), str_chars("binary_little_endian"), str_chars("1.0")];
    assert(words_view(ws@) =~= seq!["format"@, "binary_little_endian"@, "1.0"@]);
    assert(seq![].push(magic_line()) =~= l1);
    push_words_line(out, &ws, Ghost(start), Ghost(l1));
    let ghost l2 = l1.push(format_line());
    let ws = vec![
        str_chars("comment"),
        str_chars("Generated"),
        str_chars("by"),
        str_chars("pointcloud-cli"),
    ];
    assert(words_view(ws@) =~= seq!["comment"@, "Generated"@, "by"@, "pointcloud-cli"@]);
    push_words_line(out, &ws, Ghost(start), Ghost(l2));
    let ghost l3 = l2.push(comment_line());
    let digits = decimal_chars(vertex_count as u64);
    proof {
        lemma_decimal(vertex_count as nat);
    }
    let ws = vec![str_chars("element"), str_chars("vertex"), digits];
    assert(words_view(ws@) =~= seq!["element"@, "vertex"@, decimal(vertex_count as nat)]);
    push_words_line(out, &ws, Ghost(start), Ghost(l3));
    assert(l3.push(vertex_count_line(vertex_count as nat)) =~= preamble_lines(vertex_count as nat));
    assert(start + ascii_bytes(flatten(preamble_lines(vertex_count as nat))) =~= ascii_bytes(
        flatten(preamble_lines(vertex_count as nat)),
    ));
}

/// The header of a binary little-endian point cloud PLY file with
/// `vertex_count` vertices: x, y, z as doubles, then nx, ny, nz when the
/// points have normals and red, green, blue bytes when they have colors.
pub fn point_cloud_ply_header(vertex_count: usize, has_normals: bool, has_colors: bool) -> (r: Vec<
    u8,
>)
    ensures
        r@ == ascii_bytes(
            flatten(point_cloud_header_lines(vertex_count as nat, has_normals, has_colors)),
        ),
{
    let mut out: Vec<u8> = Vec::new();
    push_preamble(&mut out, vertex_count);
    let ghost start: Seq<u8> = seq![];
    let ghost l1 = preamble_lines(vertex_count as nat);
    assert(out@ == start + ascii_bytes(flatten(l1)));
    push_vertex_properties(&mut out, has_normals, has_colors, Ghost(start), Ghost(l1));
    let ghost l2 = l1 + property_lines(vertex_properties(has_normals, has_colors));
    proof {
        reveal_strlit("end_header");
    }
    let ws = vec![str_chars("end_header")];
    assert(words_view(ws@) =~= seq!["end_header"@]);
    push_words_line(&mut out, &ws, Ghost(start), Ghost(l2));
    assert(l2.push(end_header_line()) =~= point_cloud_header_lines(
        vertex_count as nat,
        has_normals,
        has_colors,
    ));
    assert(start + ascii_bytes(
        flatten(point_cloud_header_lines(vertex_count as nat, has_normals, has_colors)),
    ) =~= ascii_bytes(
        flatten(point_cloud_header_lines(vertex_count as nat, has_normals, has_colors)),
    ));
    out
}

/// The header of a binary little-endian mesh PLY file: the vertex lines as
/// for a point cloud, then `face_count` faces with their index lists.
pub fn mesh_ply_header(
    vertex_count: usize,
    face_count: usize,
    has_normals: bool,
    has_colors: bool,
) -> (r: Vec<u8>)
    ensures
        r@ == ascii_bytes(
            flatten(mesh_header_lines(vertex_count as nat, face_count as nat, has_normals, has_colors)),
        ),
{
    let mut out: Vec<u8> = Vec::new();
    push_preamble(&mut out, vertex_count);
    let ghost start: Seq<u8> = seq![];
    let ghost l1 = preamble_lines(vertex_count as nat);
    assert(out@ == start + ascii_bytes(flatten(l1)));
    push_vertex_properties(&mut out, has_normals, has_colors, Ghost(start), Ghost(l1));
    let ghost l2 = l1 + property_lines(vertex_properties(has_normals, has_colors));
    proof {
        reveal_strlit("element");
        reveal_strlit("face");
        reveal_strlit("property");
        reveal_strlit("list");
        reveal_strlit("uchar");
        reveal_strlit("int");
        reveal_strlit("vertex_indices");
        reveal_strlit("end_header");
        lemma_decimal(face_count as nat);
    }
    let digits = decimal_chars(face_count as u64);
    let ws = vec![str_chars("element"), str_chars("face"), digits];
    assert(words_view(ws@) =~= seq!["element"@, "face"@, decimal(face_count as nat)]);
    push_words_line(&mut out, &ws, Ghost(start), Ghost(l2));
    let ghost l3 = l2.push(face_count_line(face_count as nat));
    let ws = vec![
        str_chars("property"),
        str_chars("list"),
        str_chars("uchar"),
        str_chars("int"),
        str_chars("vertex_indices"),
    ];
    assert(words_view(ws@) =~= seq!["property"@, "list"@, "uchar"@, "int"@, "vertex_indices"@]);
    push_words_line(&mut out, &ws, Ghost(start), Ghost(l3));
    let ghost l4 = l3.push(face_list_line());
    let ws = vec![str_chars("end_header")];
    assert(words_view(ws@) =~= seq!["end_header"@]);
    push_words_line(&mut out, &ws, Ghost(start), Ghost(l4));
    let ghost all = mesh_header_lines(vertex_count as nat, face_count as nat, has_normals, has_colors);
    assert(l4.push(end_header_line()) =~= all);
    assert(start + ascii_bytes(flatten(all)) =~= ascii_bytes(flatten(all)));
    out
}

// ---------------------------------------------------------------------------
// Reading back what the writers put out
// ---------------------------------------------------------------------------

/// The property lines are well formed.
pub proof fn lemma_property_lines_well_formed(props: Seq<(Seq<char>, Seq<char>)>)
    requires
        forall|i: int|
            0 <= i < props.len() ==> ascii_words(seq![#[trigger] props[i].1, props[i].0]),
    ensures
        well_formed_lines(property_lines(props)),
{
    let pl = property_lines(props);
    assert forall|i: int| 0 <= i < pl.len() implies well_formed_line(#[trigger] pl[i]) by {
        assert(ascii_words(seq![props[i].1, props[i].0]));
        lemma_property_words(props[i].1, props[i].0);
        lemma_text_line_well_formed(seq!["property"@, props[i].1, props[i].0]);
    }
}

/// The point cloud header scan over property lines collects the properties.
proof fn lemma_fold_properties(st: PlyScan, props: Seq<(Seq<char>, Seq<char>)>)
    requires
        st.in_vertex,
        forall|i: int|
            0 <= i < props.len() ==> ascii_words(seq![#[trigger] props[i].1, props[i].0]),
    ensures
        ply_fold(st, property_lines(props)) == (
            PlyScan {
                properties: st.properties + props,
                header_bytes: st.header_bytes + flatten(property_lines(props)).len(),
                ..st
            },
            false,
        ),
    decreases props.len(),
{
    let pl = property_lines(props);
    if props.len() == 0 {
        assert(st.properties + props =~= st.properties);
        assert(pl =~= seq![]);
    } else {
        let p = props[0];
        let rest = props.drop_first();
        assert(ascii_words(seq![props[0].1, props[0].0]));
        assert(proper_words(seq![p.1, p.0]));
        let st1 = PlyScan { header_bytes: st.header_bytes + pl[0].len(), ..st };
        lemma_scan_property(st1, p.1, p.0);
        assert(pl[0] == property_line(p.1, p.0));
        let st2 = PlyScan { properties: st.properties.push((p.0, p.1)), ..st1 };
        assert(pl.drop_first() =~= property_lines(rest));
        assert forall|i: int| 0 <= i < rest.len() implies ascii_words(
            seq![#[trigger] rest[i].1, rest[i].0],
        ) by {
            assert(rest[i] == props[i + 1]);
            assert(ascii_words(seq![props[i + 1].1, props[i + 1].0]));
        }
        lemma_fold_properties(st2, rest);
        assert(st.properties.push((p.0, p.1)) + rest =~= st.properties + props);
        assert(flatten(pl) == pl[0] + flatten(pl.drop_first()));
    }
}

/// The preamble lines are well formed ASCII lines.
pub proof fn lemma_preamble_well_formed(n: nat)
    ensures
        well_formed_lines(preamble_lines(n)),
{
    reveal_strlit("ply");
    reveal_strlit("format");
    reveal_strlit("binary_little_endian");
    reveal_strlit("1.0");
    reveal_strlit("comment");
    reveal_strlit("Generated");
    reveal_strlit("by");
    reveal_strlit("pointcloud-cli");
    reveal_strlit("element");
    reveal_strlit("vertex");
    lemma_decimal(n);
    let w1 = seq!["ply"@];
    let w2 = seq!["format"@, "binary_little_endian"@, "1.0"@];
    let w3 = seq!["comment"@, "Generated"@, "by"@, "pointcloud-cli"@];
    let w4 = seq!["element"@, "vertex"@, decimal(n)];
    assert(ascii_words(w1));
    assert(ascii_words(w2));
    assert(ascii_words(w3));
    assert(w4[2] == decimal(n));
    assert(ascii_words(w4));
    lemma_text_line_well_formed(w1);
    lemma_text_line_well_formed(w2);
    lemma_text_line_well_formed(w3);
    lemma_text_line_well_formed(w4);
}

/// The point cloud header lines are well formed ASCII lines.
proof fn lemma_point_cloud_header_well_formed(n: nat, has_normals: bool, has_colors: bool)
    ensures
        well_formed_lines(point_cloud_header_lines(n, has_normals, has_colors)),
{
    lemma_preamble_well_formed(n);
    lemma_vertex_property_words(has_normals, has_colors);
    lemma_property_lines_well_formed(vertex_properties(has_normals, has_colors));
    reveal_strlit("end_header");
    let we = seq!["end_header"@];
    assert(ascii_words(we));
    lemma_text_line_well_formed(we);
    let a = preamble_lines(n);
    let b = property_lines(vertex_properties(has_normals, has_colors));
    let ls = point_cloud_header_lines(n, has_normals, has_colors);
    assert(ls == a + b + seq![end_header_line()]);
    assert forall|i: int| 0 <= i < ls.len() implies well_formed_line(#[trigger] ls[i]) by {
        if i < a.len() {
            assert(ls[i] == a[i]);
        } else if i < a.len() + b.len() {
            assert(ls[i] == b[i - a.len()]);
        } else {
            assert(ls[i] == end_header_line());
        }
    }
}

/// The point cloud header scan over the preamble.
proof fn lemma_fold_preamble(st: PlyScan, n: usize)
    ensures
        ply_fold(st, preamble_lines(n as nat)) == (
            PlyScan {
                is_binary: true,
                little_endian: true,
                in_vertex: true,
                vertex_count: n,
                header_bytes: st.header_bytes + flatten(preamble_lines(n as nat)).len(),
                ..st
            },
            false,
        ),
{
    let ls = preamble_lines(n as nat);
    let m = magic_line();
    let f = format_line();
    let c = comment_line();
    let v = vertex_count_line(n as nat);
    assert(ls.drop_first() =~= seq![f, c, v]);
    assert(seq![f, c, v].drop_first() =~= seq![c, v]);
    assert(seq![c, v].drop_first() =~= seq![v]);
    assert(seq![v].drop_first() =~= Seq::<Seq<char>>::empty());
    let s1 = PlyScan { header_bytes: st.header_bytes + m.len(), ..st };
    lemma_scan_magic(s1);
    let s2 = PlyScan { header_bytes: s1.header_bytes + f.len(), ..s1 };
    lemma_scan_format(s2);
    let s2b = PlyScan { is_binary: true, little_endian: true, ..s2 };
    let s3 = PlyScan { header_bytes: s2b.header_bytes + c.len(), ..s2b };
    lemma_scan_comment(s3);
    let s4 = PlyScan { header_bytes: s3.header_bytes + v.len(), ..s3 };
    lemma_scan_vertex_count(s4, n);
    let s4b = PlyScan { in_vertex: true, vertex_count: n, ..s4 };
    assert(ply_fold(s4b, Seq::<Seq<char>>::empty()) == (s4b, false));
    assert(ply_fold(s3, seq![v]) == (s4b, false));
    assert(ply_fold(s2b, seq![c, v]) == ply_fold(s3, seq![v]));
    assert(ply_fold(s1, seq![f, c, v]) == ply_fold(s2b, seq![c, v]));
    assert(ply_fold(st, ls) == ply_fold(s1, seq![f, c, v]));
    assert(flatten(seq![v]) == v + flatten(Seq::<Seq<char>>::empty()));
    assert(flatten(seq![c, v]) == c + flatten(seq![v]));
    assert(flatten(seq![f, c, v]) == f + flatten(seq![c, v]));
    assert(flatten(ls) == m + flatten(seq![f, c, v]));
}

/// The scan state after the point cloud header the writer puts out.
pub open spec fn written_point_cloud_scan(n: usize, has_normals: bool, has_colors: bool) -> PlyScan {
    PlyScan {
        is_binary: true,
        little_endian: true,
        vertex_count: n,
        in_vertex: true,
        properties: vertex_properties(has_normals, has_colors),
        header_bytes: flatten(point_cloud_header_lines(n as nat, has_normals, has_colors)).len(),
    }
}

/// Whatever follows it, the header the point cloud writer puts out reads
/// back as a binary little-endian header with the vertex count and the
/// properties it declared, and the body starts right after it.
pub proof fn law_point_cloud_header_read_back(
    n: usize,
    has_normals: bool,
    has_colors: bool,
    rest: Seq<u8>,
)
    ensures
        ply_header_of(
            ascii_bytes(flatten(point_cloud_header_lines(n as nat, has_normals, has_colors))) + rest,
        ) == Ok::<PlyScan, IoErrorKind>(written_point_cloud_scan(n, has_normals, has_colors)),
{
    let ls = point_cloud_header_lines(n as nat, has_normals, has_colors);
    let data = ascii_bytes(flatten(ls)) + rest;
    let a = preamble_lines(n as nat);
    let b = property_lines(vertex_properties(has_normals, has_colors));
    let e = seq![end_header_line()];
    lemma_point_cloud_header_well_formed(n as nat, has_normals, has_colors);
    assert(data.skip(0) =~= data);
    lemma_ply_scan_lines(data, 0, ply_scan_start(), ls, rest);
    let st = ply_scan_start();
    lemma_fold_preamble(st, n);
    let s1 = ply_fold(st, a).0;
    lemma_vertex_property_words(has_normals, has_colors);
    lemma_fold_properties(s1, vertex_properties(has_normals, has_colors));
    let s2 = ply_fold(s1, b).0;
    lemma_ply_fold_concat(st, a, b);
    lemma_ply_fold_concat(st, a + b, e);
    let s3 = PlyScan { header_bytes: s2.header_bytes + end_header_line().len(), ..s2 };
    lemma_scan_end_header(s3);
    assert(ply_fold(s2, e) == (s3, true));
    assert(ls == a + b + e);
    lemma_flatten_concat(a, b);
    lemma_flatten_concat(a + b, e);
    assert(e.drop_first() =~= Seq::<Seq<char>>::empty());
    assert(flatten(e) == end_header_line() + flatten(Seq::<Seq<char>>::empty()));
    assert(end_header_line() + Seq::<char>::empty() =~= end_header_line());
    assert(seq![] + vertex_properties(has_normals, has_colors) =~= vertex_properties(
        has_normals,
        has_colors,
    ));
}

} // verus!
