//! Portable path rules. A path is a sequence of characters in which `/` is the
//! only separator, on every platform. Empty components and `.` components are
//! skipped, except a `.` that opens a path; `..` is kept as it stands.

use vstd::prelude::*;

verus! {

/// The path starts at the root.
pub open spec fn rooted(p: Seq<char>) -> bool {
    p.len() > 0 && p[0] == '/'
}

/// The path opens with a `.` component.
pub open spec fn opens_with_dot(p: Seq<char>) -> bool {
    &&& p.len() > 0
    &&& p[0] == '.'
    &&& (p.len() == 1 || p[1] == '/')
}

/// The length of what stands before the components proper: the root or an
/// opening `.`.
pub open spec fn lead_len(p: Seq<char>) -> int {
    if rooted(p) || opens_with_dot(p) {
        1
    } else {
        0
    }
}

/// Where the last component of `p[lo..end]` starts: behind the last separator
/// in that range, or at `lo` where the range holds none.
pub open spec fn piece_start(p: Seq<char>, lo: int, end: int) -> int
    decreases end - lo,
{
    if end <= lo {
        lo
    } else if p[end - 1] == '/' {
        end
    } else {
        piece_start(p, lo, end - 1)
    }
}

/// A component that is skipped: the empty one and `.`.
pub open spec fn skipped(p: Seq<char>, start: int, end: int) -> bool {
    end == start || (end == start + 1 && p[start] == '.')
}

/// The end of `p[lo..end]` once the skipped components at its end are taken
/// off, each with the separator before it.
pub open spec fn trimmed_end(p: Seq<char>, lo: int, end: int) -> int
    decreases end - lo,
{
    if end <= lo {
        lo
    } else {
        let start = piece_start(p, lo, end);
        if skipped(p, start, end) {
            trimmed_end(p, lo, before_piece(lo, start))
        } else {
            end
        }
    }
}

/// The end of what stands before a component that starts at `start`: the
/// separator before it is left out.
pub open spec fn before_piece(lo: int, start: int) -> int {
    if start > lo {
        start - 1
    } else {
        lo
    }
}

/// The file name of `p` as a range of indices: its last component, unless
/// there is none or it is `..`.
pub open spec fn file_name_span(p: Seq<char>) -> Option<(int, int)> {
    let lo = lead_len(p);
    let end = trimmed_end(p, lo, p.len() as int);
    let start = piece_start(p, lo, end);
    if end <= lo {
        None
    } else if end == start + 2 && p[start] == '.' && p[start + 1] == '.' {
        None
    } else {
        Some((start, end))
    }
}

/// The length of the directory part of `p`: what is left when the file name,
/// the separator before it and the skipped components before that are taken
/// off. A path without a file name is its own directory part.
pub open spec fn directory_len(p: Seq<char>) -> int {
    match file_name_span(p) {
        Some((start, _)) => trimmed_end(p, lead_len(p), before_piece(lead_len(p), start)),
        None => p.len() as int,
    }
}

/// The directory part of `p`.
pub open spec fn directory_of(p: Seq<char>) -> Seq<char> {
    p.take(directory_len(p))
}

/// `reference` resolved against the directory of the file `file`: a rooted
/// reference stands for itself, any other is appended to the directory part,
/// with a separator where the directory part does not end in one.
pub open spec fn resolved(file: Seq<char>, reference: Seq<char>) -> Seq<char> {
    let dir = directory_of(file);
    if rooted(reference) {
        reference
    } else if dir.len() > 0 && dir.last() != '/' {
        dir.push('/') + reference
    } else {
        dir + reference
    }
}

/// The index of the last `.` in `p[start..end]`.
pub open spec fn last_dot(p: Seq<char>, start: int, end: int) -> Option<int>
    decreases end - start,
{
    if end <= start {
        None
    } else if p[end - 1] == '.' {
        Some(end - 1)
    } else {
        last_dot(p, start, end - 1)
    }
}

/// The extension of `p`: what follows the last `.` of its file name, unless
/// the name has no `.` or only the one it begins with.
pub open spec fn extension_of(p: Seq<char>) -> Option<Seq<char>> {
    match file_name_span(p) {
        None => None,
        Some((start, end)) => match last_dot(p, start, end) {
            None => None,
            Some(dot) => if dot == start {
                None
            } else {
                Some(p.subrange(dot + 1, end))
            },
        },
    }
}

/// Where the stem of the file name of `p` ends: before the last `.` of the
/// name, or at the end of the name where `extension_of` finds no extension.
pub open spec fn stem_end(p: Seq<char>) -> Option<int> {
    match file_name_span(p) {
        None => None,
        Some((start, end)) => match last_dot(p, start, end) {
            None => Some(end),
            Some(dot) => if dot == start {
                Some(end)
            } else {
                Some(dot)
            },
        },
    }
}

/// `p` with the extension of its file name replaced by `ext`; an empty `ext`
/// only takes the extension off, and a path without a file name stays as it
/// is.
pub open spec fn with_extension_of(p: Seq<char>, ext: Seq<char>) -> Seq<char> {
    match stem_end(p) {
        None => p,
        Some(cut) => if ext.len() == 0 {
            p.take(cut)
        } else {
            p.take(cut).push('.') + ext
        },
    }
}

/// `piece_start` stays inside the range it is asked about, and nothing
/// between it and the end of the range is a separator.
pub proof fn lemma_piece_start(p: Seq<char>, lo: int, end: int)
    requires
        0 <= lo <= end <= p.len(),
    ensures
        lo <= piece_start(p, lo, end) <= end,
        piece_start(p, lo, end) > lo ==> p[piece_start(p, lo, end) - 1] == '/',
        forall|j: int| piece_start(p, lo, end) <= j < end ==> p[j] != '/',
    decreases end - lo,
{
    if end > lo && p[end - 1] != '/' {
        lemma_piece_start(p, lo, end - 1);
    }
}

/// `trimmed_end` stays inside the range it is asked about.
pub proof fn lemma_trimmed_end(p: Seq<char>, lo: int, end: int)
    requires
        0 <= lo <= end <= p.len(),
    ensures
        lo <= trimmed_end(p, lo, end) <= end,
    decreases end - lo,
{
    if end > lo {
        let start = piece_start(p, lo, end);
        lemma_piece_start(p, lo, end);
        if skipped(p, start, end) {
            lemma_trimmed_end(p, lo, before_piece(lo, start));
        }
    }
}

/// The file name lies behind the lead of the path, is not empty and holds no
/// separator.
pub proof fn lemma_file_name_span(p: Seq<char>)
    ensures
        match file_name_span(p) {
            Some((start, end)) => {
                &&& lead_len(p) <= start < end <= p.len()
                &&& forall|j: int| start <= j < end ==> p[j] != '/'
            },
            None => true,
        },
        0 <= directory_len(p) <= p.len(),
{
    let lo = lead_len(p);
    lemma_trimmed_end(p, lo, p.len() as int);
    let end = trimmed_end(p, lo, p.len() as int);
    lemma_piece_start(p, lo, end);
    let start = piece_start(p, lo, end);
    if end > lo {
        lemma_trimmed_end_kept(p, lo, p.len() as int);
        lemma_trimmed_end(p, lo, before_piece(lo, start));
    }
}

/// Where `trimmed_end` leaves something, the component at its end is not a
/// skipped one.
pub proof fn lemma_trimmed_end_kept(p: Seq<char>, lo: int, end: int)
    requires
        0 <= lo <= end <= p.len(),
    ensures
        trimmed_end(p, lo, end) > lo ==> !skipped(
            p,
            piece_start(p, lo, trimmed_end(p, lo, end)),
            trimmed_end(p, lo, end),
        ),
    decreases end - lo,
{
    if end > lo {
        let start = piece_start(p, lo, end);
        lemma_piece_start(p, lo, end);
        if skipped(p, start, end) {
            lemma_trimmed_end_kept(p, lo, before_piece(lo, start));
        }
    }
}

/// A resolved path is rooted exactly where the reference or the file's own
/// path is.
pub proof fn lemma_resolved_rooted(file: Seq<char>, reference: Seq<char>)
    ensures
        rooted(resolved(file, reference)) <==> rooted(reference) || rooted(file),
{
    lemma_file_name_span(file);
    let lo = lead_len(file);
    let dir = file.take(directory_len(file));
    if rooted(file) {
        match file_name_span(file) {
            Some((start, _)) => {
                lemma_trimmed_end(file, lo, file.len() as int);
                lemma_piece_start(file, lo, trimmed_end(file, lo, file.len() as int));
                lemma_trimmed_end(file, lo, before_piece(lo, start));
            },
            None => {},
        }
        assert(dir.len() >= 1);
        assert(dir[0] == '/');
    }
    if !rooted(reference) {
        if dir.len() > 0 {
            assert(dir[0] == file[0]);
            if dir.last() != '/' {
                assert((dir.push('/') + reference)[0] == dir[0]);
            } else {
                assert((dir + reference)[0] == dir[0]);
            }
        } else {
            assert(dir + reference =~= reference);
        }
    }
}

/// The path starts at the root.
pub fn is_absolute(p: &Vec<char>) -> (r: bool)
    ensures
        r == rooted(p@),
{
    p.len() > 0 && p[0] == '/'
}

fn lead(p: &Vec<char>) -> (n: usize)
    ensures
        n == lead_len(p@),
{
    if p.len() > 0 && (p[0] == '/' || (p[0] == '.' && (p.len() == 1 || p[1] == '/'))) {
        1
    } else {
        0
    }
}

fn start_of_piece(p: &Vec<char>, lo: usize, end: usize) -> (start: usize)
    requires
        lo <= end <= p.len(),
    ensures
        start == piece_start(p@, lo as int, end as int),
        lo <= start <= end,
{
    let mut at: usize = end;
    while at > lo && p[at - 1] != '/'
        invariant
            lo <= at <= end <= p.len(),
            piece_start(p@, lo as int, end as int) == piece_start(p@, lo as int, at as int),
        decreases at,
    {
        at -= 1;
    }
    at
}

fn trim(p: &Vec<char>, lo: usize, end: usize) -> (cut: usize)
    requires
        lo <= end <= p.len(),
    ensures
        cut == trimmed_end(p@, lo as int, end as int),
        lo <= cut <= end,
{
    let mut at: usize = end;
    while at > lo
        invariant
            lo <= at <= end <= p.len(),
            trimmed_end(p@, lo as int, end as int) == trimmed_end(p@, lo as int, at as int),
        decreases at,
    {
        let start = start_of_piece(p, lo, at);
        if at == start || (at == start + 1 && p[start] == '.') {
            at = if start > lo {
                start - 1
            } else {
                lo
            };
        } else {
            return at;
        }
    }
    at
}

/// The file name of `p` as a range of indices.
pub fn file_name(p: &Vec<char>) -> (span: Option<(usize, usize)>)
    ensures
        match span {
            Some((start, end)) => file_name_span(p@) == Some((start as int, end as int)) && start
                < end <= p.len(),
            None => file_name_span(p@) is None,
        },
{
    let lo = lead(p);
    let end = trim(p, lo, p.len());
    let start = start_of_piece(p, lo, end);
    proof {
        lemma_file_name_span(p@);
    }
    if end <= lo {
        None
    } else if end - start == 2 && p[start] == '.' && p[start + 1] == '.' {
        None
    } else {
        Some((start, end))
    }
}

/// The directory part of `p`: what is left when its file name, the
/// separator before it and the skipped components before that are taken
/// off. A path without a file name is its own directory part.
pub fn directory(p: &Vec<char>) -> (dir: Vec<char>)
    ensures
        dir@ == directory_of(p@),
{
    let lo = lead(p);
    let keep: usize = match file_name(p) {
        Some((start, _)) => {
            proof {
                lemma_file_name_span(p@);
            }
            trim(
                p,
                lo,
                if start > lo {
                    start - 1
                } else {
                    lo
                },
            )
        },
        None => p.len(),
    };
    let mut dir: Vec<char> = Vec::new();
    let mut i: usize = 0;
    while i < keep
        invariant
            i <= keep <= p.len(),
            dir@ == p@.take(i as int),
        decreases keep - i,
    {
        dir.push(p[i]);
        i += 1;
    }
    dir
}

/// `reference` resolved against the directory of the file `file`.
pub fn resolve(file: &Vec<char>, reference: &Vec<char>) -> (path: Vec<char>)
    ensures
        path@ == resolved(file@, reference@),
{
    if is_absolute(reference) {
        return reference.clone();
    }
    let mut path = directory(file);
    let keep = path.len();
    if keep > 0 && path[keep - 1] != '/' {
        path.push('/');
    }
    let ghost base = path@;
    let mut k: usize = 0;
    while k < reference.len()
        invariant
            k <= reference.len(),
            path@ == base + reference@.take(k as int),
        decreases reference.len() - k,
    {
        path.push(reference[k]);
        k += 1;
    }
    assert(reference@.take(reference.len() as int) == reference@);
    path
}

fn dot_in(p: &Vec<char>, start: usize, end: usize) -> (dot: Option<usize>)
    requires
        start <= end <= p.len(),
    ensures
        match dot {
            Some(at) => last_dot(p@, start as int, end as int) == Some(at as int) && start <= at
                < end,
            None => last_dot(p@, start as int, end as int) is None,
        },
{
    let mut at: usize = end;
    while at > start
        invariant
            start <= at <= end <= p.len(),
            last_dot(p@, start as int, end as int) == last_dot(p@, start as int, at as int),
        decreases at,
    {
        if p[at - 1] == '.' {
            return Some(at - 1);
        }
        at -= 1;
    }
    None
}

/// The extension of `p`.
pub fn extension(p: &Vec<char>) -> (ext: Option<Vec<char>>)
    ensures
        match ext {
            Some(e) => extension_of(p@) == Some(e@),
            None => extension_of(p@) is None,
        },
{
    match file_name(p) {
        None => None,
        Some((start, end)) => match dot_in(p, start, end) {
            None => None,
            Some(dot) => {
                if dot == start {
                    None
                } else {
                    let mut e: Vec<char> = Vec::new();
                    let mut i: usize = dot + 1;
                    while i < end
                        invariant
                            dot + 1 <= i <= end <= p.len(),
                            e@ == p@.subrange(dot + 1, i as int),
                        decreases end - i,
                    {
                        e.push(p[i]);
                        i += 1;
                    }
                    Some(e)
                }
            },
        },
    }
}

/// `p` with the extension of its file name replaced by `ext`.
pub fn with_extension(p: &Vec<char>, ext: &Vec<char>) -> (path: Vec<char>)
    ensures
        path@ == with_extension_of(p@, ext@),
{
    let cut: usize = match file_name(p) {
        None => {
            return p.clone();
        },
        Some((start, end)) => match dot_in(p, start, end) {
            None => end,
            Some(dot) => if dot == start {
                end
            } else {
                dot
            },
        },
    };
    let mut path: Vec<char> = Vec::new();
    let mut i: usize = 0;
    while i < cut
        invariant
            i <= cut <= p.len(),
            path@ == p@.take(i as int),
        decreases cut - i,
    {
        path.push(p[i]);
        i += 1;
    }
    if ext.len() > 0 {
        path.push('.');
        let ghost base = path@;
        let mut k: usize = 0;
        while k < ext.len()
            invariant
                k <= ext.len(),
                path@ == base + ext@.take(k as int),
            decreases ext.len() - k,
        {
            path.push(ext[k]);
            k += 1;
        }
        assert(ext@.take(ext.len() as int) == ext@);
    }
    path
}

} // verus!
