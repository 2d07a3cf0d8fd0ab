//! Paths as text: the final segment of a path and the extension of a file
//! name. Segments are separated by `/`.

use vstd::prelude::*;
use crate::text::{chars_of, string_of};

verus! {

/// Where the last segment of `p` begins: just behind the last `/`, or at 0
/// where there is none.
pub open spec fn segment_start(p: Seq<char>) -> int
    decreases p.len(),
{
    if p.len() == 0 {
        0
    } else if p.last() == '/' {
        p.len() as int
    } else {
        segment_start(p.drop_last())
    }
}

/// The final segment of the path `p`: the last one that is neither empty
/// nor `.`. There is none where no such segment exists or where it is `..`.
pub open spec fn final_segment(p: Seq<char>) -> Option<Seq<char>>
    decreases p.len(),
{
    if p.len() == 0 {
        None
    } else {
        let start = segment_start(p);
        let seg = p.subrange(start, p.len() as int);
        if seg.len() == 0 || seg == seq!['.'] {
            if 0 < start <= p.len() {
                final_segment(p.subrange(0, start - 1))
            } else {
                None
            }
        } else if seg == seq!['.', '.'] {
            None
        } else {
            Some(seg)
        }
    }
}

/// The place of the last `.` in `name`, or -1 where it has none.
pub open spec fn last_dot(name: Seq<char>) -> int
    decreases name.len(),
{
    if name.len() == 0 {
        -1
    } else if name.last() == '.' {
        name.len() - 1
    } else {
        last_dot(name.drop_last())
    }
}

/// The extension of a file name: what follows its last `.`. A name without
/// a `.`, one whose only `.` is its first character, and the name `..` have
/// none.
pub open spec fn name_extension(name: Seq<char>) -> Option<Seq<char>> {
    let dot = last_dot(name);
    if dot <= 0 || name == seq!['.', '.'] {
        None
    } else {
        Some(name.subrange(dot + 1, name.len() as int))
    }
}

/// The extension of the file that the path `p` names.
pub open spec fn path_extension(p: Seq<char>) -> Option<Seq<char>> {
    match final_segment(p) {
        None => None,
        Some(name) => name_extension(name),
    }
}

/// `last_dot` gives -1 or the place of a `.` in the name.
pub proof fn lemma_last_dot_bounds(name: Seq<char>)
    ensures
        -1 <= last_dot(name) < name.len(),
        last_dot(name) >= 0 ==> name[last_dot(name)] == '.',
    decreases name.len(),
{
    if name.len() > 0 && name.last() != '.' {
        lemma_last_dot_bounds(name.drop_last());
    }
}

/// Finds where the last segment of `v[..end]` begins.
fn find_segment_start(v: &Vec<char>, end: usize) -> (start: usize)
    requires
        end <= v@.len(),
    ensures
        start <= end,
        start == segment_start(v@.subrange(0, end as int)),
{
    let mut k: usize = end;
    while k > 0 && v[k - 1] != '/'
        invariant
            k <= end <= v@.len(),
            segment_start(v@.subrange(0, end as int)) == segment_start(v@.subrange(0, k as int)),
        decreases k,
    {
        assert(v@.subrange(0, k as int).drop_last() =~= v@.subrange(0, k - 1));
        k -= 1;
    }
    k
}

/// Finds the last `.` in `v[from..to]`; the result counts from `from`.
fn find_last_dot(v: &Vec<char>, from: usize, to: usize) -> (r: Option<usize>)
    requires
        from <= to <= v@.len(),
    ensures
        match r {
            Some(d) => d == last_dot(v@.subrange(from as int, to as int)),
            None => last_dot(v@.subrange(from as int, to as int)) == -1,
        },
{
    let mut k: usize = to;
    while k > from
        invariant
            from <= k <= to <= v@.len(),
            last_dot(v@.subrange(from as int, to as int)) == last_dot(
                v@.subrange(from as int, k as int),
            ),
        decreases k,
    {
        if v[k - 1] == '.' {
            return Some(k - 1 - from);
        }
        assert(v@.subrange(from as int, k as int).drop_last() =~= v@.subrange(
            from as int,
            k - 1,
        ));
        k -= 1;
    }
    None
}

/// The bounds in `v` of the final segment of the path that `v` holds.
pub(crate) fn final_segment_bounds(v: &Vec<char>) -> (r: Option<(usize, usize)>)
    ensures
        match r {
            Some((a, b)) => a <= b <= v@.len() && final_segment(v@) == Some(
                v@.subrange(a as int, b as int),
            ),
            None => final_segment(v@).is_none(),
        },
{
    let mut end: usize = v.len();
    assert(v@.subrange(0, end as int) =~= v@);
    while end > 0
        invariant
            end <= v@.len(),
            final_segment(v@) == final_segment(v@.subrange(0, end as int)),
        decreases end,
    {
        let start: usize = find_segment_start(v, end);
        let ghost p = v@.subrange(0, end as int);
        assert(p.subrange(start as int, end as int) =~= v@.subrange(start as int, end as int));
        let len: usize = end - start;
        if len == 0 || (len == 1 && v[start] == '.') {
            assert(len == 1 ==> v@.subrange(start as int, end as int) =~= seq!['.']);
            if start == 0 {
                return None;
            }
            assert(p.subrange(0, start - 1) =~= v@.subrange(0, start - 1));
            end = start - 1;
        } else if len == 2 && v[start] == '.' && v[start + 1] == '.' {
            assert(v@.subrange(start as int, end as int) =~= seq!['.', '.']);
            return None;
        } else {
            let ghost seg = v@.subrange(start as int, end as int);
            assert(seg != seq!['.']) by {
                if seg == seq!['.'] {
                    assert(seg.len() == 1 && seg[0] == '.');
                }
            }
            assert(seg != seq!['.', '.']) by {
                if seg == seq!['.', '.'] {
                    assert(seg.len() == 2 && seg[0] == '.' && seg[1] == '.');
                }
            }
            return Some((start, end));
        }
    }
    None
}

/// The bounds in `v` of the extension of the file name `v[a..b]`.
pub(crate) fn extension_bounds(v: &Vec<char>, a: usize, b: usize) -> (r: Option<(usize, usize)>)
    requires
        a <= b <= v@.len(),
    ensures
        match r {
            Some((c, d)) => a <= c <= d && d == b && name_extension(
                v@.subrange(a as int, b as int),
            ) == Some(v@.subrange(c as int, d as int)),
            None => name_extension(v@.subrange(a as int, b as int)).is_none(),
        },
{
    let ghost name = v@.subrange(a as int, b as int);
    if b - a == 2 && v[a] == '.' && v[a + 1] == '.' {
        assert(name =~= seq!['.', '.']);
        return None;
    }
    assert(name != seq!['.', '.']) by {
        if name == seq!['.', '.'] {
            assert(name.len() == 2 && name[0] == '.' && name[1] == '.');
        }
    }
    match find_last_dot(v, a, b) {
        None => None,
        Some(dot) => {
            proof {
                lemma_last_dot_bounds(name);
            }
            if dot == 0 {
                None
            } else {
                assert(name.subrange(dot + 1, name.len() as int) =~= v@.subrange(
                    a + dot + 1,
                    b as int,
                ));
                Some((a + dot + 1, b))
            }
        },
    }
}

/// The final segment of `path`, which names the file or directory itself.
pub fn file_name(path: &str) -> (r: Option<String>)
    ensures
        match r {
            Some(name) => final_segment(path@) == Some(name@),
            None => final_segment(path@).is_none(),
        },
{
    let v = chars_of(path);
    match final_segment_bounds(&v) {
        None => None,
        Some((a, b)) => Some(string_of(&v, a, b)),
    }
}

/// The extension of the file name `name`.
pub fn extension_of_name(name: &str) -> (r: Option<String>)
    ensures
        match r {
            Some(ext) => name_extension(name@) == Some(ext@),
            None => name_extension(name@).is_none(),
        },
{
    let v = chars_of(name);
    assert(v@.subrange(0, v@.len() as int) =~= v@);
    match extension_bounds(&v, 0, v.len()) {
        None => None,
        Some((c, d)) => Some(string_of(&v, c, d)),
    }
}

/// The extension of the file that `path` names.
pub fn extension_of_path(path: &str) -> (r: Option<String>)
    ensures
        match r {
            Some(ext) => path_extension(path@) == Some(ext@),
            None => path_extension(path@).is_none(),
        },
{
    let v = chars_of(path);
    match final_segment_bounds(&v) {
        None => None,
        Some((a, b)) => match extension_bounds(&v, a, b) {
            None => None,
            Some((c, d)) => Some(string_of(&v, c, d)),
        },
    }
}

} // verus!
