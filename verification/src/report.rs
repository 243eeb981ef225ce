use vstd::prelude::*;
use crate::text::{chars_to_string, concat_chars, i64_decimal_chars, int_decimal, str_chars};

verus! {

/// Statistics of a ground removal step.
#[derive(Debug, Clone, PartialEq, Eq)]
pub struct GroundRemovalStats {
    pub ground_points: usize,
    pub non_ground_points: usize,
    pub time_ms: u64,
}

/// Statistics of a surface reconstruction step.
#[derive(Debug, Clone, PartialEq, Eq)]
pub struct ReconstructionStats {
    pub reconstruct_type: String,
    pub vertices: usize,
    pub faces: usize,
    pub time_ms: u64,
}

/// Statistics of a segmentation step.
#[derive(Debug, Clone, PartialEq, Eq)]
pub struct SegmentationStats {
    pub planes_detected: usize,
    pub clusters: Option<usize>,
    pub largest_cluster: Option<usize>,
    pub time_ms: u64,
}

/// The whole milliseconds of a duration of `secs` seconds and
/// `subsec_millis` further milliseconds.
pub fn duration_to_ms(secs: u64, subsec_millis: u32) -> (ms: u64)
    requires
        secs * 1000 + subsec_millis <= u64::MAX,
    ensures
        ms == secs * 1000 + subsec_millis,
{
    secs * 1000 + subsec_millis as u64
}

/// `s` between the ANSI escape `open` and the reset escape.
fn ansi_wrap(open: &str, s: &str) -> (r: String)
    ensures
        r@ == open@ + s@ + "\x1b[0m"@,
{
    let a = concat_chars(str_chars(open).as_slice(), str_chars(s).as_slice());
    let b = concat_chars(a.as_slice(), str_chars("\x1b[0m").as_slice());
    chars_to_string(b.as_slice())
}

/// `s` in red on an ANSI terminal.
pub fn red(s: &str) -> (r: String)
    ensures
        r@ == "\x1b[31m"@ + s@ + "\x1b[0m"@,
{
    ansi_wrap("\x1b[31m", s)
}

/// `s` in green on an ANSI terminal.
pub fn green(s: &str) -> (r: String)
    ensures
        r@ == "\x1b[32m"@ + s@ + "\x1b[0m"@,
{
    ansi_wrap("\x1b[32m", s)
}

/// `s` in yellow on an ANSI terminal.
pub fn yellow(s: &str) -> (r: String)
    ensures
        r@ == "\x1b[33m"@ + s@ + "\x1b[0m"@,
{
    ansi_wrap("\x1b[33m", s)
}

/// `s` in cyan on an ANSI terminal.
pub fn cyan(s: &str) -> (r: String)
    ensures
        r@ == "\x1b[36m"@ + s@ + "\x1b[0m"@,
{
    ansi_wrap("\x1b[36m", s)
}

/// `s` in bold on an ANSI terminal.
pub fn bold(s: &str) -> (r: String)
    ensures
        r@ == "\x1b[1m"@ + s@ + "\x1b[0m"@,
{
    ansi_wrap("\x1b[1m", s)
}

/// An optional signed count: "-" when absent, otherwise the number with an
/// explicit '+' when positive.
pub fn signed_i64(v: Option<i64>) -> (r: String)
    ensures
        match v {
            None => r@ == "-"@,
            Some(x) => r@ == (if x > 0 {
                "+"@ + int_decimal(x as int)
            } else {
                int_decimal(x as int)
            }),
        },
{
    match v {
        None => chars_to_string(str_chars("-").as_slice()),
        Some(x) => {
            let d = i64_decimal_chars(x);
            if x > 0 {
                chars_to_string(concat_chars(str_chars("+").as_slice(), d.as_slice()).as_slice())
            } else {
                chars_to_string(d.as_slice())
            }
        },
    }
}

/// The points left after the last counting step that ran: ground removal,
/// else downsampling, else filtering, else the initial count.
pub fn final_points(
    initial_points: usize,
    points_after_filter: Option<usize>,
    points_after_downsample: Option<usize>,
    points_after_ground_removal: Option<usize>,
) -> (r: usize)
    ensures
        r == match points_after_ground_removal {
            Some(n) => n,
            None => match points_after_downsample {
                Some(n) => n,
                None => match points_after_filter {
                    Some(n) => n,
                    None => initial_points,
                },
            },
        },
{
    match points_after_ground_removal {
        Some(n) => n,
        None => match points_after_downsample {
            Some(n) => n,
            None => match points_after_filter {
                Some(n) => n,
                None => initial_points,
            },
        },
    }
}

/// What one report holds of a file that a report diff compares: its face
/// count when it was reconstructed, its total time and whether it succeeded.
#[derive(Debug, Clone, Copy, PartialEq, Eq)]
pub struct FileEntry {
    pub faces: Option<usize>,
    pub total_time_ms: u64,
    pub success: bool,
}

/// The integer part of a file's line in a report diff: in which reports the
/// file occurs, the change of its face count and of its time, and whether its
/// success changed.
#[derive(Debug, Clone, Copy, PartialEq, Eq)]
pub struct FileDiffCounts {
    pub a_exists: bool,
    pub b_exists: bool,
    pub faces_diff: Option<i64>,
    pub time_diff_ms: Option<i64>,
    pub success_changed: bool,
}

/// The change of a face count between two reports, each count read as an
/// `i64`: the difference where both have one, the count negated where only
/// the first has one, the count itself where only the second has one.
pub open spec fn faces_diff_of(faces_a: Option<usize>, faces_b: Option<usize>) -> Option<int> {
    match (faces_a, faces_b) {
        (Some(fa), Some(fb)) => Some((fb as i64) - (fa as i64)),
        (Some(fa), None) => Some(-(fa as i64)),
        (None, Some(fb)) => Some(fb as i64 as int),
        (None, None) => None,
    }
}

/// The change of a time between two reports, each read as an `i64`.
pub open spec fn time_diff_of(ms_a: u64, ms_b: u64) -> int {
    (ms_b as i64) - (ms_a as i64)
}

/// `x` is a value of `i64`.
pub open spec fn fits_i64(x: int) -> bool {
    i64::MIN <= x <= i64::MAX
}

/// The face change of two counts is absent or fits in an `i64`.
pub open spec fn faces_diff_fits(faces_a: Option<usize>, faces_b: Option<usize>) -> bool {
    match faces_diff_of(faces_a, faces_b) {
        Some(d) => fits_i64(d),
        None => true,
    }
}

/// `o` holds exactly the integer that `s` holds, or both are empty.
pub open spec fn same_opt(o: Option<i64>, s: Option<int>) -> bool {
    match o {
        Some(x) => s == Some(x as int),
        None => s is None,
    }
}

/// The change of face count, the change of time and whether success
/// changed, for a file that both reports hold.
pub fn diff_entry(
    faces_a: Option<usize>,
    faces_b: Option<usize>,
    ms_a: u64,
    ms_b: u64,
    ok_a: bool,
    ok_b: bool,
) -> (r: (Option<i64>, i64, bool))
    requires
        faces_diff_fits(faces_a, faces_b),
        fits_i64(time_diff_of(ms_a, ms_b)),
    ensures
        same_opt(r.0, faces_diff_of(faces_a, faces_b)),
        r.1 == time_diff_of(ms_a, ms_b),
        r.2 == (ok_a != ok_b),
{
    let faces_diff = match (faces_a, faces_b) {
        (Some(fa), Some(fb)) => Some((fb as i64) - (fa as i64)),
        (Some(fa), None) => Some(0 - (fa as i64)),
        (None, Some(fb)) => Some(fb as i64),
        (None, None) => None,
    };
    let time_diff = (ms_b as i64) - (ms_a as i64);
    (faces_diff, time_diff, ok_a != ok_b)
}

/// A file's entries in two reports can be compared without overflow.
pub open spec fn entries_diff_fit(a: Option<FileEntry>, b: Option<FileEntry>) -> bool {
    match (a, b) {
        (Some(x), Some(y)) => faces_diff_fits(x.faces, y.faces) && fits_i64(
            time_diff_of(x.total_time_ms, y.total_time_ms),
        ),
        _ => true,
    }
}

/// The integer part of a file's line in a report diff, from its entries in
/// the two reports: the changes are compared only where both reports hold
/// the file, and are absent otherwise.
pub fn file_diff(a: Option<FileEntry>, b: Option<FileEntry>) -> (r: FileDiffCounts)
    requires
        entries_diff_fit(a, b),
    ensures
        r.a_exists == a is Some,
        r.b_exists == b is Some,
        match (a, b) {
            (Some(x), Some(y)) => {
                &&& same_opt(r.faces_diff, faces_diff_of(x.faces, y.faces))
                &&& r.time_diff_ms == Some(time_diff_of(x.total_time_ms, y.total_time_ms) as i64)
                &&& r.success_changed == (x.success != y.success)
            },
            _ => r.faces_diff is None && r.time_diff_ms is None && !r.success_changed,
        },
{
    match (a, b) {
        (Some(x), Some(y)) => {
            let (faces_diff, time_diff, changed) = diff_entry(
                x.faces,
                y.faces,
                x.total_time_ms,
                y.total_time_ms,
                x.success,
                y.success,
            );
            FileDiffCounts {
                a_exists: true,
                b_exists: true,
                faces_diff,
                time_diff_ms: Some(time_diff),
                success_changed: changed,
            }
        },
        _ => FileDiffCounts {
            a_exists: a.is_some(),
            b_exists: b.is_some(),
            faces_diff: None,
            time_diff_ms: None,
            success_changed: false,
        },
    }
}

/// The number of lines of `items` whose presence flags are `(in_a, in_b)`.
pub open spec fn count_presence(items: Seq<FileDiffCounts>, in_a: bool, in_b: bool) -> nat
    decreases items.len(),
{
    if items.len() == 0 {
        0
    } else {
        count_presence(items.drop_last(), in_a, in_b) + (if items.last().a_exists == in_a
            && items.last().b_exists == in_b {
            1nat
        } else {
            0nat
        })
    }
}

/// The number of files in both reports, in the first only and in the second
/// only, over the lines of a report diff.
pub fn presence_counts(items: &[FileDiffCounts]) -> (r: (usize, usize, usize))
    ensures
        r.0 == count_presence(items@, true, true),
        r.1 == count_presence(items@, true, false),
        r.2 == count_presence(items@, false, true),
{
    let mut both: usize = 0;
    let mut only_a: usize = 0;
    let mut only_b: usize = 0;
    let mut i: usize = 0;
    while i < items.len()
        invariant
            i <= items.len(),
            both == count_presence(items@.take(i as int), true, true),
            only_a == count_presence(items@.take(i as int), true, false),
            only_b == count_presence(items@.take(i as int), false, true),
            both + only_a + only_b <= i,
        decreases items.len() - i,
    {
        assert(items@.take(i + 1).drop_last() =~= items@.take(i as int));
        let it = items[i];
        if it.a_exists && it.b_exists {
            both = both + 1;
        } else if it.a_exists && !it.b_exists {
            only_a = only_a + 1;
        } else if !it.a_exists && it.b_exists {
            only_b = only_b + 1;
        }
        i = i + 1;
    }
    assert(items@.take(items.len() as int) =~= items@);
    (both, only_a, only_b)
}

/// The signed changes of a report diff's summary: of the total time, of the
/// number of successful files and of the number of failed files, each value
/// read as an `i64`.
pub fn summary_diffs(
    total_time_ms_a: u64,
    total_time_ms_b: u64,
    successful_a: usize,
    successful_b: usize,
    failed_a: usize,
    failed_b: usize,
) -> (r: (i64, i64, i64))
    requires
        fits_i64(time_diff_of(total_time_ms_a, total_time_ms_b)),
        fits_i64((successful_b as i64) - (successful_a as i64)),
        fits_i64((failed_b as i64) - (failed_a as i64)),
    ensures
        r.0 == time_diff_of(total_time_ms_a, total_time_ms_b),
        r.1 == (successful_b as i64) - (successful_a as i64),
        r.2 == (failed_b as i64) - (failed_a as i64),
{
    (
        (total_time_ms_b as i64) - (total_time_ms_a as i64),
        (successful_b as i64) - (successful_a as i64),
        (failed_b as i64) - (failed_a as i64),
    )
}

/// `a` comes before `b` in the order of strings, compared from position `i`
/// on: character by character by code point, a proper prefix first. On
/// `String` this is the order of `Ord`, since UTF-8 keeps the code point order.
pub open spec fn chars_lt_from(a: Seq<char>, b: Seq<char>, i: int) -> bool
    decreases a.len() - i,
{
    if i < 0 || i >= a.len() {
        0 <= i < b.len()
    } else if i >= b.len() {
        false
    } else if a[i] != b[i] {
        a[i] < b[i]
    } else {
        chars_lt_from(a, b, i + 1)
    }
}

/// `a` comes before `b` in the order of strings.
pub open spec fn chars_lt(a: Seq<char>, b: Seq<char>) -> bool {
    chars_lt_from(a, b, 0)
}

/// No string comes before itself.
pub proof fn lemma_chars_lt_irreflexive(a: Seq<char>, i: int)
    requires
        0 <= i,
    ensures
        !chars_lt_from(a, a, i),
    decreases a.len() - i,
{
    if i < a.len() {
        lemma_chars_lt_irreflexive(a, i + 1);
    }
}

/// The order of strings is transitive.
pub proof fn lemma_chars_lt_transitive(a: Seq<char>, b: Seq<char>, c: Seq<char>, i: int)
    requires
        0 <= i,
        chars_lt_from(a, b, i),
        chars_lt_from(b, c, i),
    ensures
        chars_lt_from(a, c, i),
    decreases a.len() - i,
{
    if i < a.len() && i < b.len() && i < c.len() && a[i] == b[i] && b[i] == c[i] {
        lemma_chars_lt_transitive(a, b, c, i + 1);
    }
}

/// Two strings that agree before `i` and neither of which comes before the
/// other from `i` on are equal.
pub proof fn lemma_chars_lt_total(a: Seq<char>, b: Seq<char>, i: int)
    requires
        0 <= i <= a.len(),
        i <= b.len(),
        forall|j: int| 0 <= j < i ==> a[j] == b[j],
        !chars_lt_from(a, b, i),
        !chars_lt_from(b, a, i),
    ensures
        a == b,
    decreases a.len() - i,
{
    if i == a.len() {
        assert(a =~= b);
    } else {
        lemma_chars_lt_total(a, b, i + 1);
    }
}

/// Whether `a` comes before `b` in the order of strings.
pub fn str_lt(a: &str, b: &str) -> (r: bool)
    ensures
        r == chars_lt(a@, b@),
{
    let x = str_chars(a);
    let y = str_chars(b);
    let mut i: usize = 0;
    while i < x.len() && i < y.len()
        invariant
            x@ == a@,
            y@ == b@,
            i <= x.len(),
            i <= y.len(),
            chars_lt_from(a@, b@, 0) == chars_lt_from(a@, b@, i as int),
        decreases x.len() - i,
    {
        if x[i] != y[i] {
            return x[i] < y[i];
        }
        i = i + 1;
    }
    i < y.len()
}

/// The characters of each string of `v`.
pub open spec fn key_views(v: Seq<String>) -> Seq<Seq<char>> {
    v.map_values(|s: String| s@)
}

/// Each string of `s` comes before every later one.
pub open spec fn strictly_sorted(s: Seq<Seq<char>>) -> bool {
    forall|i: int, j: int| 0 <= i < j < s.len() ==> chars_lt(#[trigger] s[i], #[trigger] s[j])
}

/// Puts `k` in its place in the sorted `keys`, unless it is there already.
fn insert_key(keys: &mut Vec<String>, k: &String)
    requires
        strictly_sorted(key_views(old(keys)@)),
    ensures
        strictly_sorted(key_views(final(keys)@)),
        forall|x: Seq<char>|
            key_views(final(keys)@).contains(x) <==> key_views(old(keys)@).contains(x) || x
                == k@,
{
    let ghost s = key_views(keys@);
    let mut i: usize = 0;
    while i < keys.len()
        invariant
            i <= keys.len(),
            s == key_views(keys@),
            strictly_sorted(s),
            forall|j: int| 0 <= j < i ==> chars_lt(#[trigger] s[j], k@),
        ensures
            i <= keys.len(),
            s == key_views(keys@),
            forall|j: int| 0 <= j < i ==> chars_lt(#[trigger] s[j], k@),
            i < keys.len() ==> !chars_lt(s[i as int], k@),
        decreases keys.len() - i,
    {
        if !str_lt(keys[i].as_str(), k.as_str()) {
            break;
        }
        i = i + 1;
    }
    if i < keys.len() && keys[i] == *k {
        assert(s[i as int] == k@);
        return;
    }
    assert(i < keys.len() ==> chars_lt(k@, s[i as int])) by {
        if i < keys.len() {
            assert(s[i as int] != k@);
            if !chars_lt(k@, s[i as int]) {
                lemma_chars_lt_total(k@, s[i as int], 0);
            }
        }
    }
    keys.insert(i, k.clone());
    proof {
        let t = key_views(keys@);
        assert(t =~= s.insert(i as int, k@));
        assert forall|p: int, q: int| 0 <= p < q < t.len() implies chars_lt(
            #[trigger] t[p],
            #[trigger] t[q],
        ) by {
            if q < i {
            } else if q == i {
            } else if p < i {
                assert(chars_lt(s[p], s[q - 1]));
            } else if p == i {
                if q - 1 > i {
                    assert(chars_lt(s[i as int], s[q - 1]));
                    lemma_chars_lt_transitive(k@, s[i as int], s[q - 1], 0);
                }
            } else {
                assert(chars_lt(s[p - 1], s[q - 1]));
            }
        }
        assert forall|x: Seq<char>| t.contains(x) <==> s.contains(x) || x == k@ by {
            if t.contains(x) {
                let j = choose|j: int| 0 <= j < t.len() && t[j] == x;
                if j < i {
                    assert(s[j] == x);
                } else if j > i {
                    assert(s[j - 1] == x);
                }
            }
            if s.contains(x) {
                let j = choose|j: int| 0 <= j < s.len() && s[j] == x;
                if j < i {
                    assert(t[j] == x);
                } else {
                    assert(t[j + 1] == x);
                }
            }
            if x == k@ {
                assert(t[i as int] == x);
            }
        }
    }
}

/// The files of two reports, each once, in the order of their names: the
/// keys that occur in either list, sorted.
pub fn sorted_key_union(keys_a: &[String], keys_b: &[String]) -> (r: Vec<String>)
    ensures
        strictly_sorted(key_views(r@)),
        forall|x: Seq<char>|
            key_views(r@).contains(x) <==> key_views(keys_a@).contains(x) || key_views(
                keys_b@,
            ).contains(x),
{
    let mut r: Vec<String> = Vec::new();
    let mut i: usize = 0;
    while i < keys_a.len()
        invariant
            i <= keys_a.len(),
            strictly_sorted(key_views(r@)),
            forall|x: Seq<char>|
                key_views(r@).contains(x) <==> key_views(keys_a@.take(i as int)).contains(x),
        decreases keys_a.len() - i,
    {
        insert_key(&mut r, &keys_a[i]);
        proof {
            let pa = key_views(keys_a@.take(i as int));
            let na = key_views(keys_a@.take(i + 1));
            assert(na =~= pa.push(keys_a@[i as int]@));
            assert forall|x: Seq<char>| na.contains(x) <==> pa.contains(x) || x == keys_a@[i as int]@ by {
                if na.contains(x) {
                    let j = choose|j: int| 0 <= j < na.len() && na[j] == x;
                    if j < pa.len() {
                        assert(pa[j] == x);
                    }
                }
                if pa.contains(x) {
                    let j = choose|j: int| 0 <= j < pa.len() && pa[j] == x;
                    assert(na[j] == x);
                }
                if x == keys_a@[i as int]@ {
                    assert(na[i as int] == x);
                }
            }
        }
        i = i + 1;
    }
    assert(keys_a@.take(keys_a.len() as int) =~= keys_a@);
    let mut i: usize = 0;
    while i < keys_b.len()
        invariant
            i <= keys_b.len(),
            strictly_sorted(key_views(r@)),
            forall|x: Seq<char>|
                key_views(r@).contains(x) <==> key_views(keys_a@).contains(x) || key_views(
                    keys_b@.take(i as int),
                ).contains(x),
        decreases keys_b.len() - i,
    {
        insert_key(&mut r, &keys_b[i]);
        proof {
            let pb = key_views(keys_b@.take(i as int));
            let nb = key_views(keys_b@.take(i + 1));
            assert(nb =~= pb.push(keys_b@[i as int]@));
            assert forall|x: Seq<char>| nb.contains(x) <==> pb.contains(x) || x == keys_b@[i as int]@ by {
                if nb.contains(x) {
                    let j = choose|j: int| 0 <= j < nb.len() && nb[j] == x;
                    if j < pb.len() {
                        assert(pb[j] == x);
                    }
                }
                if pb.contains(x) {
                    let j = choose|j: int| 0 <= j < pb.len() && pb[j] == x;
                    assert(nb[j] == x);
                }
                if x == keys_b@[i as int]@ {
                    assert(nb[i as int] == x);
                }
            }
        }
        i = i + 1;
    }
    assert(keys_b@.take(keys_b.len() as int) =~= keys_b@);
    r
}

/// A sorted list of distinct names is fixed by the names it holds: so the
/// files of a report diff come out in the same order whatever order the two
/// reports hold them in.
pub proof fn law_sorted_keys_unique(s: Seq<Seq<char>>, t: Seq<Seq<char>>)
    requires
        strictly_sorted(s),
        strictly_sorted(t),
        forall|x: Seq<char>| s.contains(x) <==> t.contains(x),
    ensures
        s == t,
    decreases s.len(),
{
    if s.len() == 0 {
        if t.len() > 0 {
            assert(t.contains(t[0]));
        }
        assert(s =~= t);
    } else {
        assert(s.contains(s[0]));
        assert(t.len() > 0);
        assert(t.contains(t[0]));
        let j = choose|j: int| 0 <= j < s.len() && s[j] == t[0];
        let k = choose|k: int| 0 <= k < t.len() && t[k] == s[0];
        assert(s[0] == t[0]) by {
            if j > 0 && k > 0 {
                assert(chars_lt(s[0], s[j]));
                assert(chars_lt(t[0], t[k]));
                lemma_chars_lt_transitive(s[0], t[0], s[0], 0);
                lemma_chars_lt_irreflexive(s[0], 0);
            } else if j > 0 {
                assert(chars_lt(s[0], s[j]));
                lemma_chars_lt_irreflexive(s[0], 0);
            } else if k > 0 {
                assert(chars_lt(t[0], t[k]));
                lemma_chars_lt_irreflexive(t[0], 0);
            }
        }
        let s1 = s.drop_first();
        let t1 = t.drop_first();
        assert forall|x: Seq<char>| s1.contains(x) <==> t1.contains(x) by {
            if s1.contains(x) {
                let a = choose|a: int| 0 <= a < s1.len() && s1[a] == x;
                assert(s[a + 1] == x);
                assert(chars_lt(s[0], s[a + 1]));
                lemma_chars_lt_irreflexive(x, 0);
                assert(t.contains(x));
                let b = choose|b: int| 0 <= b < t.len() && t[b] == x;
                assert(b != 0);
                assert(t1[b - 1] == x);
            }
            if t1.contains(x) {
                let a = choose|a: int| 0 <= a < t1.len() && t1[a] == x;
                assert(t[a + 1] == x);
                assert(chars_lt(t[0], t[a + 1]));
                lemma_chars_lt_irreflexive(x, 0);
                assert(s.contains(x));
                let b = choose|b: int| 0 <= b < s.len() && s[b] == x;
                assert(b != 0);
                assert(s1[b - 1] == x);
            }
        }
        law_sorted_keys_unique(s1, t1);
        assert(s =~= t1.insert(0, t[0]));
        assert(t =~= t1.insert(0, t[0]));
    }
}

} // verus!
