//! Unix path strings: components, joining and file-name replacement, with
//! the meaning `std::path` gives them (separator `/`).
use vstd::prelude::*;
use crate::text::{append_chars, sub_vec};

verus! {

/// One component of a path.
pub enum Comp {
    Root,
    Cur,
    Parent,
    Normal(Seq<char>),
}

pub open spec fn dot() -> Seq<char> {
    seq!['.']
}

pub open spec fn dot_dot() -> Seq<char> {
    seq!['.', '.']
}

/// The path starts at the root.
pub open spec fn has_root(p: Seq<char>) -> bool {
    p.len() > 0 && p[0] == '/'
}

/// A relative path that starts with the current-directory component.
pub open spec fn has_cur(p: Seq<char>) -> bool {
    !has_root(p) && p.len() > 0 && p[0] == '.' && (p.len() == 1 || p[1] == '/')
}

/// Length of the part before the first ordinary component (`/` or `.`).
pub open spec fn body_start(p: Seq<char>) -> int {
    if has_root(p) || has_cur(p) {
        1
    } else {
        0
    }
}

/// First index at or after `i` holding `/` (or the length).
pub open spec fn sep_end(p: Seq<char>, i: int) -> int
    decreases p.len() - i,
{
    if 0 <= i < p.len() && p[i] != '/' {
        sep_end(p, i + 1)
    } else {
        i
    }
}

pub proof fn lemma_sep_end(p: Seq<char>, i: int)
    requires
        0 <= i <= p.len(),
    ensures
        i <= sep_end(p, i) <= p.len(),
        sep_end(p, i) < p.len() ==> p[sep_end(p, i)] == '/',
        forall|k: int| i <= k < sep_end(p, i) ==> #[trigger] p[k] != '/',
    decreases p.len() - i,
{
    if i < p.len() && p[i] != '/' {
        lemma_sep_end(p, i + 1);
    }
}

/// The component a segment between separators stands for, if any.
pub open spec fn seg_comp(seg: Seq<char>) -> Seq<Comp> {
    if seg.len() == 0 || seg == dot() {
        Seq::empty()
    } else if seg == dot_dot() {
        seq![Comp::Parent]
    } else {
        seq![Comp::Normal(seg)]
    }
}

/// Components of the segments of `p` starting at `i`.
pub open spec fn body_comps(p: Seq<char>, i: int) -> Seq<Comp>
    decreases p.len() - i,
{
    let j = sep_end(p, i);
    if 0 <= i <= j < p.len() {
        seg_comp(p.subrange(i, j)) + body_comps(p, j + 1)
    } else if 0 <= i <= p.len() {
        seg_comp(p.subrange(i, p.len() as int))
    } else {
        Seq::empty()
    }
}

/// `Path::components`.
pub open spec fn components(p: Seq<char>) -> Seq<Comp> {
    let head: Seq<Comp> = if has_root(p) {
        seq![Comp::Root]
    } else if has_cur(p) {
        seq![Comp::Cur]
    } else {
        Seq::empty()
    };
    head + body_comps(p, body_start(p))
}

/// `Path::file_name`: the last component when it is an ordinary name.
pub open spec fn file_name(p: Seq<char>) -> Option<Seq<char>> {
    let c = components(p);
    if c.len() > 0 && c.last() is Normal {
        Some(c.last()->Normal_0)
    } else {
        None
    }
}

/// `PathBuf::push` of a path string.
pub open spec fn push(buf: Seq<char>, x: Seq<char>) -> Seq<char> {
    if x.len() > 0 && x[0] == '/' {
        x
    } else if buf.len() > 0 && buf.last() != '/' {
        buf + seq!['/'] + x
    } else {
        buf + x
    }
}

/// Start of the last segment of `p` after index `lb`.
pub open spec fn seg_start_back(p: Seq<char>, lb: int, k: int) -> int
    decreases k - lb,
{
    if lb < k && p[k - 1] != '/' {
        seg_start_back(p, lb, k - 1)
    } else {
        k
    }
}

pub proof fn lemma_seg_start_back(p: Seq<char>, lb: int, k: int)
    requires
        0 <= lb <= k <= p.len(),
    ensures
        lb <= seg_start_back(p, lb, k) <= k,
        seg_start_back(p, lb, k) > lb ==> p[seg_start_back(p, lb, k) - 1] == '/',
        forall|m: int| seg_start_back(p, lb, k) <= m < k ==> #[trigger] p[m] != '/',
    decreases k - lb,
{
    if lb < k && p[k - 1] != '/' {
        lemma_seg_start_back(p, lb, k - 1);
    }
}

/// Length left once the last segment (and the separator before it) is cut.
pub open spec fn cut_last_len(p: Seq<char>, lb: int) -> int {
    let s = seg_start_back(p, lb, p.len() as int);
    if s > lb {
        s - 1
    } else {
        lb
    }
}

/// Drops trailing empty and `.` segments after the first `lb` characters.
pub open spec fn trim_right(p: Seq<char>, lb: int) -> Seq<char>
    decreases p.len(),
{
    if 0 <= lb < p.len() {
        let s = seg_start_back(p, lb, p.len() as int);
        let seg = p.subrange(s, p.len() as int);
        let n = cut_last_len(p, lb);
        if (seg.len() == 0 || seg == dot()) && 0 <= n < p.len() {
            trim_right(p.subrange(0, n), lb)
        } else {
            p
        }
    } else {
        p
    }
}

/// `Path::parent` as a string, for a path whose last component is ordinary.
pub open spec fn parent_str(p: Seq<char>) -> Seq<char> {
    let lb = body_start(p);
    let t = trim_right(p, lb);
    trim_right(t.subrange(0, cut_last_len(t, lb)), lb)
}

/// `PathBuf::set_file_name`.
pub open spec fn set_file_name(p: Seq<char>, name: Seq<char>) -> Seq<char> {
    if file_name(p) is Some {
        push(parent_str(p), name)
    } else {
        push(p, name)
    }
}

pub proof fn lemma_trim_right(p: Seq<char>, lb: int)
    requires
        0 <= lb <= p.len(),
    ensures
        lb <= trim_right(p, lb).len() <= p.len(),
        trim_right(p, lb) == p.subrange(0, trim_right(p, lb).len() as int),
    decreases p.len(),
{
    if lb < p.len() {
        let s = seg_start_back(p, lb, p.len() as int);
        lemma_seg_start_back(p, lb, p.len() as int);
        let n = cut_last_len(p, lb);
        let seg = p.subrange(s, p.len() as int);
        if (seg.len() == 0 || seg == dot()) && 0 <= n < p.len() {
            lemma_trim_right(p.subrange(0, n), lb);
            let r = trim_right(p.subrange(0, n), lb);
            assert(r =~= p.subrange(0, r.len() as int));
        } else {
            assert(p =~= p.subrange(0, p.len() as int));
        }
    } else {
        assert(p =~= p.subrange(0, p.len() as int));
    }
}

// ---------------------------------------------------------------------------
// Executable forms.
/// `PathBuf::push`.
pub fn push_path(buf: &mut Vec<char>, x: &[char])
    ensures
        final(buf)@ == push(old(buf)@, x@),
{
    if x.len() > 0 && x[0] == '/' {
        buf.clear();
        append_chars(buf, x);
        assert(buf@ =~= x@);
    } else if buf.len() > 0 && buf[buf.len() - 1] != '/' {
        buf.push('/');
        append_chars(buf, x);
    } else {
        append_chars(buf, x);
    }
}

pub fn find_sep(p: &[char], i: usize) -> (r: usize)
    requires
        i <= p.len(),
    ensures
        r == sep_end(p@, i as int),
{
    let mut k = i;
    while k < p.len() && p[k] != '/'
        invariant
            i <= k <= p.len(),
            sep_end(p@, k as int) == sep_end(p@, i as int),
        decreases p.len() - k,
    {
        k = k + 1;
    }
    k
}

fn is_dot(s: &[char]) -> (b: bool)
    ensures
        b == (s@ == dot()),
{
    if s.len() == 1 && s[0] == '.' {
        assert(s@ =~= dot());
        true
    } else {
        false
    }
}

fn is_dot_dot(s: &[char]) -> (b: bool)
    ensures
        b == (s@ == dot_dot()),
{
    if s.len() == 2 && s[0] == '.' && s[1] == '.' {
        assert(s@ =~= dot_dot());
        true
    } else {
        false
    }
}

/// An executable path component.
pub enum PathComp {
    Root,
    Cur,
    Parent,
    Normal(Vec<char>),
}

pub open spec fn comp_view(c: PathComp) -> Comp {
    match c {
        PathComp::Root => Comp::Root,
        PathComp::Cur => Comp::Cur,
        PathComp::Parent => Comp::Parent,
        PathComp::Normal(v) => Comp::Normal(v@),
    }
}

pub open spec fn comps_view(v: Seq<PathComp>) -> Seq<Comp> {
    v.map_values(|c: PathComp| comp_view(c))
}

fn push_seg_comp(out: &mut Vec<PathComp>, p: &[char], i: usize, j: usize)
    requires
        i <= j <= p.len(),
    ensures
        comps_view(final(out)@) == comps_view(old(out)@) + seg_comp(p@.subrange(i as int, j as int)),
{
    let seg = sub_vec(p, i, j);
    let ghost before = comps_view(out@);
    if seg.len() == 0 || is_dot(seg.as_slice()) {
        assert(comps_view(out@) =~= before + seg_comp(p@.subrange(i as int, j as int)));
    } else if is_dot_dot(seg.as_slice()) {
        out.push(PathComp::Parent);
        assert(comps_view(out@) =~= before + seg_comp(p@.subrange(i as int, j as int)));
    } else {
        let ghost sv = seg@;
        out.push(PathComp::Normal(seg));
        assert(comps_view(out@) =~= before + seg_comp(p@.subrange(i as int, j as int)));
    }
}

/// `Path::components`.
pub fn path_components(p: &[char]) -> (out: Vec<PathComp>)
    ensures
        comps_view(out@) == components(p@),
{
    let mut out: Vec<PathComp> = Vec::new();
    let rooted = p.len() > 0 && p[0] == '/';
    let cur = !rooted && p.len() > 0 && p[0] == '.' && (p.len() == 1 || p[1] == '/');
    if rooted {
        out.push(PathComp::Root);
    } else if cur {
        out.push(PathComp::Cur);
    }
    let ghost head = comps_view(out@);
    let mut i: usize = if rooted || cur {
        1
    } else {
        0
    };
    assert(head + body_comps(p@, i as int) =~= components(p@));
    loop
        invariant
            i <= p.len(),
            comps_view(out@) + body_comps(p@, i as int) == components(p@),
        decreases p.len() - i,
    {
        let j = find_sep(p, i);
        proof {
            lemma_sep_end(p@, i as int);
        }
        let ghost before = comps_view(out@);
        push_seg_comp(&mut out, p, i, j);
        if j < p.len() {
            assert(comps_view(out@) + body_comps(p@, j + 1) =~= before + body_comps(p@, i as int));
            i = j + 1;
        } else {
            assert(comps_view(out@) =~= before + body_comps(p@, i as int));
            return out;
        }
    }
}

fn last_seg_start(p: &[char], lb: usize, k: usize) -> (r: usize)
    requires
        lb <= k <= p.len(),
    ensures
        r == seg_start_back(p@, lb as int, k as int),
        lb <= r <= k,
{
    let mut m = k;
    proof {
        lemma_seg_start_back(p@, lb as int, k as int);
    }
    while lb < m && p[m - 1] != '/'
        invariant
            lb <= m <= k <= p.len(),
            seg_start_back(p@, lb as int, m as int) == seg_start_back(p@, lb as int, k as int),
        decreases m,
    {
        m = m - 1;
    }
    m
}

/// Length of `trim_right(p[..len], lb)`.
fn trim_right_len(p: &[char], lb: usize, len: usize) -> (r: usize)
    requires
        lb <= len <= p.len(),
    ensures
        r as int == trim_right(p@.subrange(0, len as int), lb as int).len(),
        lb <= r <= len,
{
    let mut n = len;
    proof {
        lemma_trim_right(p@.subrange(0, len as int), lb as int);
    }
    loop
        invariant
            lb <= n <= len <= p.len(),
            trim_right(p@.subrange(0, n as int), lb as int) == trim_right(
                p@.subrange(0, len as int),
                lb as int,
            ),
        decreases n,
    {
        let ghost q = p@.subrange(0, n as int);
        if n <= lb {
            return n;
        }
        let s = last_seg_start(p, lb, n);
        proof {
            assert forall|m: int| lb <= m <= n implies seg_start_back(q, lb as int, m)
                == seg_start_back(p@, lb as int, m) by {
                lemma_seg_start_agree(p@, q, lb as int, m);
            }
        }
        let seg_empty = s == n;
        let seg_dot = n - s == 1 && p[s] == '.';
        let cut = if s > lb {
            s - 1
        } else {
            lb
        };
        proof {
            let seg = q.subrange(s as int, n as int);
            if seg_dot {
                assert(seg =~= dot());
            }
            if seg == dot() {
                assert(seg[0] == '.');
            }
            assert(q.subrange(0, cut as int) =~= p@.subrange(0, cut as int));
        }
        if (seg_empty || seg_dot) && cut < n {
            n = cut;
        } else {
            return n;
        }
    }
}

proof fn lemma_seg_start_agree(p: Seq<char>, q: Seq<char>, lb: int, m: int)
    requires
        0 <= lb <= m <= q.len() <= p.len(),
        forall|k: int| 0 <= k < q.len() ==> q[k] == p[k],
    ensures
        seg_start_back(q, lb, m) == seg_start_back(p, lb, m),
    decreases m - lb,
{
    if lb < m {
        lemma_seg_start_agree(p, q, lb, m - 1);
    }
}

/// Length of `Path::parent` for a path whose last component is ordinary.
pub fn parent_len(p: &[char]) -> (r: usize)
    ensures
        r <= p.len(),
        p@.subrange(0, r as int) == parent_str(p@),
{
    let rooted = p.len() > 0 && p[0] == '/';
    let cur = !rooted && p.len() > 0 && p[0] == '.' && (p.len() == 1 || p[1] == '/');
    let lb: usize = if rooted || cur {
        1
    } else {
        0
    };
    let t = trim_right_len(p, lb, p.len());
    assert(p@.subrange(0, p.len() as int) =~= p@);
    proof {
        lemma_trim_right(p@, lb as int);
    }
    let ghost tv = trim_right(p@, lb as int);
    assert(tv =~= p@.subrange(0, t as int));
    let s = last_seg_start(p, lb, t);
    proof {
        assert forall|m: int| lb <= m <= t implies seg_start_back(tv, lb as int, m)
            == seg_start_back(p@, lb as int, m) by {
            lemma_seg_start_agree(p@, tv, lb as int, m);
        }
    }
    let cut = if s > lb {
        s - 1
    } else {
        lb
    };
    assert(tv.subrange(0, cut as int) =~= p@.subrange(0, cut as int));
    let r = trim_right_len(p, lb, cut);
    proof {
        lemma_trim_right(p@.subrange(0, cut as int), lb as int);
        let u = trim_right(p@.subrange(0, cut as int), lb as int);
        assert(u =~= p@.subrange(0, cut as int).subrange(0, u.len() as int));
        assert(p@.subrange(0, r as int) =~= u);
    }
    r
}

/// `Path::file_name`, as the bounds of the name within the path.
pub fn file_name_of(p: &[char]) -> (r: Option<Vec<char>>)
    ensures
        match r {
            Some(v) => file_name(p@) == Some(v@),
            None => file_name(p@) is None,
        },
{
    let mut comps = path_components(p);
    let n = comps.len();
    if n == 0 {
        return None;
    }
    let ghost cv = comps@;
    assert(comps_view(cv).last() == comp_view(cv.last()));
    let last = comps.pop();
    match last {
        Some(PathComp::Normal(v)) => Some(v),
        _ => None,
    }
}

/// `PathBuf::set_file_name`.
pub fn set_file_name_path(p: &Vec<char>, name: &[char]) -> (r: Vec<char>)
    ensures
        r@ == set_file_name(p@, name@),
{
    let f = file_name_of(p.as_slice());
    if f.is_some() {
        let n = parent_len(p.as_slice());
        let mut buf = sub_vec(p.as_slice(), 0, n);
        push_path(&mut buf, name);
        buf
    } else {
        let mut buf = sub_vec(p.as_slice(), 0, p.len());
        assert(buf@ =~= p@);
        push_path(&mut buf, name);
        buf
    }
}

} // verus!
