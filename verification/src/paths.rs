use vstd::prelude::*;
use crate::text::sub_chars;

verus! {

// ---------------------------------------------------------------------------
// A model of Unix paths as character sequences, after `std::path::Path`:
// '/' separates components, empty and "." components are skipped (a leading
// "." counts as the current directory), ".." is the parent directory.
// ---------------------------------------------------------------------------

/// The index of the last `c` in `s`, or -1.
pub open spec fn last_index_of(s: Seq<char>, c: char) -> int
    decreases s.len(),
{
    if s.len() == 0 {
        -1
    } else if s.last() == c {
        s.len() - 1
    } else {
        last_index_of(s.drop_last(), c)
    }
}

/// The final component of `p` when it is a normal name (`Path::file_name`).
pub open spec fn file_name(p: Seq<char>) -> Option<Seq<char>>
    decreases p.len(),
{
    if p.len() == 0 {
        None
    } else {
        let k = last_index_of(p, '/');
        let seg = p.skip(k + 1);
        if seg.len() == 0 || seg == seq!['.'] {
            if k < 0 || k >= p.len() {
                None
            } else {
                file_name(p.take(k))
            }
        } else if seg == seq!['.', '.'] {
            None
        } else {
            Some(seg)
        }
    }
}

/// The extension of `p` (`Path::extension`): what follows the last '.' of
/// the file name, unless that '.' starts the name or there is none.
pub open spec fn extension(p: Seq<char>) -> Option<Seq<char>> {
    match file_name(p) {
        None => None,
        Some(n) => {
            let k = last_index_of(n, '.');
            if k <= 0 {
                None
            } else {
                Some(n.skip(k + 1))
            }
        },
    }
}

/// The stem of `p` (`Path::file_stem`): the file name without its
/// extension; a name without a '.' after its first character is its own
/// stem.
pub open spec fn file_stem(p: Seq<char>) -> Option<Seq<char>> {
    match file_name(p) {
        None => None,
        Some(n) => {
            let k = last_index_of(n, '.');
            if k <= 0 {
                Some(n)
            } else {
                Some(n.take(k))
            }
        },
    }
}

/// `p` starts at the root (`Path::is_absolute` on Unix).
pub open spec fn is_absolute(p: Seq<char>) -> bool {
    p.len() > 0 && p[0] == '/'
}

/// The number of components of `p[i..]` other than the root, where `cur` is
/// the part of a component already read before `i`; "." components do not count.
pub open spec fn segment_count_from(p: Seq<char>, i: int, cur: Seq<char>) -> nat
    decreases p.len() - i,
{
    let close: nat = if cur.len() > 0 && cur != seq!['.'] {
        1
    } else {
        0
    };
    if i < 0 || i >= p.len() {
        close
    } else if p[i] == '/' {
        close + segment_count_from(p, i + 1, seq![])
    } else {
        segment_count_from(p, i + 1, cur.push(p[i]))
    }
}

/// `p` begins with a current-directory component.
pub open spec fn has_cur_dir_prefix(p: Seq<char>) -> bool {
    p == seq!['.'] || (p.len() >= 2 && p[0] == '.' && p[1] == '/')
}

/// The number of components of `p`, the root not counted.
pub open spec fn component_count(p: Seq<char>) -> nat {
    (if has_cur_dir_prefix(p) {
        1nat
    } else {
        0nat
    }) + segment_count_from(p, 0, seq![])
}

/// `Path::parent` of `p` is `Some("")`.
pub open spec fn parent_is_empty(p: Seq<char>) -> bool {
    !is_absolute(p) && component_count(p) == 1
}

/// `Path::parent` of `p` is `None` or `Some("")`.
pub open spec fn parent_is_none_or_empty(p: Seq<char>) -> bool {
    if is_absolute(p) {
        segment_count_from(p, 0, seq![]) == 0
    } else {
        component_count(p) <= 1
    }
}

/// `dir.join(rel)` (`Path::join` on Unix): an absolute `rel` replaces `dir`,
/// otherwise a separator is added unless `dir` is empty or already ends in one.
pub open spec fn join(dir: Seq<char>, rel: Seq<char>) -> Seq<char> {
    if is_absolute(rel) {
        rel
    } else if dir.len() == 0 || dir.last() == '/' {
        dir + rel
    } else {
        dir + seq!['/'] + rel
    }
}

// ---------------------------------------------------------------------------
// Executable path functions
// ---------------------------------------------------------------------------

/// The index of the last `c` in `s[..hi]`.
pub fn last_index_before(s: &[char], hi: usize, c: char) -> (r: Option<usize>)
    requires
        hi <= s.len(),
    ensures
        match r {
            None => last_index_of(s@.take(hi as int), c) == -1,
            Some(k) => k < hi && last_index_of(s@.take(hi as int), c) == k,
        },
{
    let mut j = hi;
    while j > 0
        invariant
            j <= hi <= s.len(),
            last_index_of(s@.take(hi as int), c) == last_index_of(s@.take(j as int), c),
        decreases j,
    {
        if s[j - 1] == c {
            return Some(j - 1);
        }
        assert(s@.take(j as int).drop_last() =~= s@.take(j - 1));
        j = j - 1;
    }
    None
}

/// The bounds of the file name of `p`, as `Path::file_name`.
pub fn file_name_bounds(p: &[char]) -> (r: Option<(usize, usize)>)
    ensures
        match r {
            None => file_name(p@) is None,
            Some((a, b)) => a <= b <= p.len() && file_name(p@) == Some(p@.subrange(a as int, b as int)),
        },
{
    let mut hi = p.len();
    assert(p@.take(hi as int) =~= p@);
    loop
        invariant
            hi <= p.len(),
            file_name(p@) == file_name(p@.take(hi as int)),
        decreases hi,
    {
        if hi == 0 {
            return None;
        }
        let ghost t = p@.take(hi as int);
        let k = last_index_before(p, hi, '/');
        let start = match k {
            None => 0,
            Some(k) => k + 1,
        };
        assert(t.skip(last_index_of(t, '/') + 1) =~= p@.subrange(start as int, hi as int));
        let seg_len = hi - start;
        let is_dot = seg_len == 1 && p[start] == '.';
        let is_dotdot = seg_len == 2 && p[start] == '.' && p[start + 1] == '.';
        proof {
            let seg = p@.subrange(start as int, hi as int);
            if seg_len == 1 {
                if seg == seq!['.'] {
                    assert(seg[0] == '.');
                }
                if is_dot {
                    assert(seg =~= seq!['.']);
                }
            }
            if seg_len == 2 {
                if seg == seq!['.', '.'] {
                    assert(seg[0] == '.' && seg[1] == '.');
                }
                if is_dotdot {
                    assert(seg =~= seq!['.', '.']);
                }
            }
        }
        if seg_len == 0 || is_dot {
            match k {
                None => {
                    return None;
                },
                Some(k) => {
                    assert(t.take(k as int) =~= p@.take(k as int));
                    hi = k;
                },
            }
        } else if is_dotdot {
            return None;
        } else {
            return Some((start, hi));
        }
    }
}

/// The bounds of the extension of `p`, as `Path::extension`.
pub fn extension_bounds(p: &[char]) -> (r: Option<(usize, usize)>)
    ensures
        match r {
            None => extension(p@) is None,
            Some((a, b)) => a <= b <= p.len() && extension(p@) == Some(p@.subrange(a as int, b as int)),
        },
{
    match file_name_bounds(p) {
        None => None,
        Some((a, b)) => {
            let name = sub_chars(p, a, b);
            let k = last_index_before(name.as_slice(), name.len(), '.');
            assert(name@.take(name.len() as int) =~= name@);
            match k {
                None => None,
                Some(k) => {
                    if k == 0 {
                        None
                    } else {
                        assert(name@.skip(k + 1) =~= p@.subrange(a + k + 1, b as int));
                        Some((a + k + 1, b))
                    }
                },
            }
        },
    }
}

/// The bounds of the stem of `p`, as `Path::file_stem`.
pub fn file_stem_bounds(p: &[char]) -> (r: Option<(usize, usize)>)
    ensures
        match r {
            None => file_stem(p@) is None,
            Some((a, b)) => a <= b <= p.len() && file_stem(p@) == Some(p@.subrange(a as int, b as int)),
        },
{
    match file_name_bounds(p) {
        None => None,
        Some((a, b)) => {
            let name = sub_chars(p, a, b);
            let k = last_index_before(name.as_slice(), name.len(), '.');
            assert(name@.take(name.len() as int) =~= name@);
            match k {
                None => Some((a, b)),
                Some(k) => {
                    if k == 0 {
                        Some((a, b))
                    } else {
                        assert(name@.take(k as int) =~= p@.subrange(a as int, a + k));
                        Some((a, a + k))
                    }
                },
            }
        },
    }
}

/// The number of non-root components of `p`, "." components not counted.
pub fn segment_count(p: &[char]) -> (r: usize)
    ensures
        r == segment_count_from(p@, 0, seq![]),
        2 * r <= p.len() + 1,
{
    let mut n: usize = 0;
    let mut cur_len: usize = 0;
    let mut cur_dot = false;
    let ghost mut cur: Seq<char> = seq![];
    let mut i: usize = 0;
    while i < p.len()
        invariant
            i <= p.len(),
            cur.len() == cur_len,
            cur_dot == (cur == seq!['.']),
            2 * n + cur_len <= i,
            segment_count_from(p@, 0, seq![]) == n + segment_count_from(p@, i as int, cur),
        decreases p.len() - i,
    {
        let close = cur_len > 0 && !cur_dot;
        if p[i] == '/' {
            if close {
                n = n + 1;
            }
            cur_len = 0;
            cur_dot = false;
            proof {
                cur = seq![];
                assert(seq!['.'].len() == 1);
                assert(cur.len() == 0);
            }
        } else {
            let c = p[i];
            proof {
                if cur.push(c) == seq!['.'] {
                    assert(cur.push(c).len() == 1);
                    assert(cur.len() == 0);
                    assert(cur.push(c)[0] == c);
                    assert(seq!['.'][0] == '.');
                    assert(c == '.');
                }
                if cur_len == 0 && c == '.' {
                    assert(cur.push(c) =~= seq!['.']);
                }
                if cur.push(c).len() != 1 {
                    assert(cur.push(c) != seq!['.']);
                }
            }
            cur_dot = cur_len == 0 && c == '.';
            cur_len = cur_len + 1;
            proof {
                cur = cur.push(c);
            }
        }
        i = i + 1;
    }
    if cur_len > 0 && !cur_dot {
        n + 1
    } else {
        n
    }
}

/// `p` starts at the root.
pub fn path_is_absolute(p: &[char]) -> (r: bool)
    ensures
        r == is_absolute(p@),
{
    p.len() > 0 && p[0] == '/'
}

/// The number of components of `p`, the root not counted.
pub fn path_component_count(p: &[char]) -> (r: usize)
    ensures
        r == component_count(p@),
{
    let prefix = (p.len() == 1 && p[0] == '.') || (p.len() >= 2 && p[0] == '.' && p[1] == '/');
    proof {
        if p.len() == 1 && p[0] == '.' {
            assert(p@ =~= seq!['.']);
        }
        if p@ == seq!['.'] {
            assert(p@[0] == '.');
        }
    }
    let n = segment_count(p);
    if prefix {
        n + 1
    } else {
        n
    }
}

/// `dir.join(rel)` as a character sequence.
pub fn join_chars(dir: &[char], rel: &[char]) -> (r: Vec<char>)
    ensures
        r@ == join(dir@, rel@),
{
    if path_is_absolute(rel) {
        return sub_chars(rel, 0, rel.len());
    }
    let mut r = sub_chars(dir, 0, dir.len());
    if !(dir.len() == 0 || dir[dir.len() - 1] == '/') {
        r.push('/');
    }
    let mut i: usize = 0;
    let ghost base = r@;
    while i < rel.len()
        invariant
            i <= rel.len(),
            r@ == base + rel@.take(i as int),
        decreases rel.len() - i,
    {
        r.push(rel[i]);
        assert(rel@.take(i + 1) =~= rel@.take(i as int).push(rel@[i as int]));
        i = i + 1;
    }
    assert(rel@.take(rel.len() as int) =~= rel@);
    proof {
        assert(dir@.subrange(0, dir.len() as int) =~= dir@);
        if !(dir.len() == 0 || dir@.last() == '/') {
            assert(base =~= dir@ + seq!['/']);
        } else {
            assert(base =~= dir@);
        }
    }
    r
}

} // verus!
