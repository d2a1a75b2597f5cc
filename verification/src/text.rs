//! Character-level text operations over `Seq<char>` with executable
//! counterparts on `Vec<char>`, `&str` and `String`.
use vstd::prelude::*;

verus! {

/// The Unicode `White_Space` property: the set recognised by
/// `char::is_whitespace` and by `str::trim`.
pub open spec fn is_ws(c: char) -> bool {
    let u = c as u32;
    (0x09 <= u <= 0x0d) || u == 0x20 || u == 0x85 || u == 0xa0 || u == 0x1680 || (0x2000 <= u
        <= 0x200a) || u == 0x2028 || u == 0x2029 || u == 0x202f || u == 0x205f || u == 0x3000
}

/// `'` or `"`.
pub open spec fn is_quote(c: char) -> bool {
    c == '\'' || c == '"'
}

pub fn is_whitespace_char(c: char) -> (b: bool)
    ensures
        b == is_ws(c),
{
    let u = c as u32;
    (0x09 <= u && u <= 0x0d) || u == 0x20 || u == 0x85 || u == 0xa0 || u == 0x1680 || (0x2000
        <= u && u <= 0x200a) || u == 0x2028 || u == 0x2029 || u == 0x202f || u == 0x205f || u
        == 0x3000
}

/// The characters of a string slice, in order.
pub fn chars_of(s: &str) -> (v: Vec<char>)
    ensures
        v@ == s@,
{
    broadcast use vstd::string::group_string_axioms;

    let mut v: Vec<char> = Vec::new();
    for c in it: s.chars()
        invariant
            it.seq() == s@,
            v@ == s@.take(it.index() as int),
    {
        v.push(c);
    }
    assert(v@ =~= s@);
    v
}

/// Calls `String::from_iter` (`FromIterator<&char> for String`), which
/// std documents as the string of the given characters in order.
#[verifier::external_body]
pub(crate) fn string_from_chars(v: &[char]) -> (s: String)
    ensures
        s@ == v@,
{
    String::from_iter(v)
}

/// An owned copy of a string.
pub(crate) fn to_owned_string(s: &str) -> (r: String)
    ensures
        r@ == s@,
{
    s.to_owned()
}

/// `s` begins with `p`.
pub open spec fn has_prefix(s: Seq<char>, p: Seq<char>) -> bool {
    p.len() <= s.len() && s.subrange(0, p.len() as int) == p
}

/// `s` ends with `p`.
pub open spec fn has_suffix(s: Seq<char>, p: Seq<char>) -> bool {
    p.len() <= s.len() && s.subrange(s.len() - p.len(), s.len() as int) == p
}

/// `p` occurs in `s` at position `i`.
pub open spec fn occurs_at(s: Seq<char>, p: Seq<char>, i: int) -> bool {
    0 <= i && i + p.len() <= s.len() && s.subrange(i, i + p.len()) == p
}

/// `p` occurs somewhere in `s`.
pub open spec fn has_infix(s: Seq<char>, p: Seq<char>) -> bool {
    exists|i: int| occurs_at(s, p, i)
}

pub fn slice_occurs_at(s: &[char], p: &[char], i: usize) -> (b: bool)
    ensures
        b == occurs_at(s@, p@, i as int),
{
    if i > s.len() || p.len() > s.len() - i {
        return false;
    }
    let mut k: usize = 0;
    while k < p.len()
        invariant
            i + p.len() <= s.len(),
            k <= p.len(),
            forall|m: int| 0 <= m < k ==> s@[i + m] == p@[m],
        decreases p.len() - k,
    {
        if s[i + k] != p[k] {
            assert(s@.subrange(i as int, i + p.len())[k as int] != p@[k as int]);
            return false;
        }
        k = k + 1;
    }
    assert(s@.subrange(i as int, i + p.len()) =~= p@);
    true
}

pub fn slice_has_prefix(s: &[char], p: &[char]) -> (b: bool)
    ensures
        b == has_prefix(s@, p@),
{
    slice_occurs_at(s, p, 0)
}

pub fn slice_has_suffix(s: &[char], p: &[char]) -> (b: bool)
    ensures
        b == has_suffix(s@, p@),
{
    if p.len() > s.len() {
        return false;
    }
    slice_occurs_at(s, p, s.len() - p.len())
}

pub fn slice_has_infix(s: &[char], p: &[char]) -> (b: bool)
    ensures
        b == has_infix(s@, p@),
{
    if p.len() > s.len() {
        assert forall|i: int| !occurs_at(s@, p@, i) by {}
        return false;
    }
    if p.len() == 0 {
        assert(s@.subrange(0, 0) =~= p@);
        assert(occurs_at(s@, p@, 0));
        return true;
    }
    let mut i: usize = 0;
    while i <= s.len() - p.len()
        invariant
            0 < p.len() <= s.len(),
            i <= s.len() - p.len() + 1,
            forall|j: int| 0 <= j < i ==> !occurs_at(s@, p@, j),
        decreases s.len() - p.len() + 1 - i,
    {
        if slice_occurs_at(s, p, i) {
            return true;
        }
        i = i + 1;
    }
    assert forall|j: int| !occurs_at(s@, p@, j) by {}
    false
}

pub fn str_has_prefix(s: &str, p: &str) -> (b: bool)
    ensures
        b == has_prefix(s@, p@),
{
    let sv = chars_of(s);
    let pv = chars_of(p);
    slice_has_prefix(sv.as_slice(), pv.as_slice())
}

pub fn str_has_suffix(s: &str, p: &str) -> (b: bool)
    ensures
        b == has_suffix(s@, p@),
{
    let sv = chars_of(s);
    let pv = chars_of(p);
    slice_has_suffix(sv.as_slice(), pv.as_slice())
}

pub fn str_has_infix(s: &str, p: &str) -> (b: bool)
    ensures
        b == has_infix(s@, p@),
{
    let sv = chars_of(s);
    let pv = chars_of(p);
    slice_has_infix(sv.as_slice(), pv.as_slice())
}

/// Index of the first character at or after `i` that is not whitespace
/// (or the length).
pub open spec fn ws_end(s: Seq<char>, i: int) -> int
    decreases s.len() - i,
{
    if 0 <= i < s.len() && is_ws(s[i]) {
        ws_end(s, i + 1)
    } else {
        i
    }
}

/// Index just past the last character before `j` that is not whitespace
/// (or `i` when `s[i..j]` is all whitespace).
pub open spec fn ws_start_back(s: Seq<char>, i: int, j: int) -> int
    decreases j - i,
{
    if i < j && is_ws(s[j - 1]) {
        ws_start_back(s, i, j - 1)
    } else {
        j
    }
}

pub proof fn lemma_ws_end(s: Seq<char>, i: int)
    requires
        0 <= i <= s.len(),
    ensures
        i <= ws_end(s, i) <= s.len(),
        ws_end(s, i) < s.len() ==> !is_ws(s[ws_end(s, i)]),
        forall|k: int| i <= k < ws_end(s, i) ==> is_ws(#[trigger] s[k]),
    decreases s.len() - i,
{
    if i < s.len() && is_ws(s[i]) {
        lemma_ws_end(s, i + 1);
    }
}

pub proof fn lemma_ws_start_back(s: Seq<char>, i: int, j: int)
    requires
        0 <= i <= j <= s.len(),
    ensures
        i <= ws_start_back(s, i, j) <= j,
        ws_start_back(s, i, j) > i ==> !is_ws(s[ws_start_back(s, i, j) - 1]),
        forall|k: int| ws_start_back(s, i, j) <= k < j ==> is_ws(#[trigger] s[k]),
    decreases j - i,
{
    if i < j && is_ws(s[j - 1]) {
        lemma_ws_start_back(s, i, j - 1);
    }
}

/// `s` with leading and trailing whitespace removed (`str::trim`).
pub open spec fn trim(s: Seq<char>) -> Seq<char> {
    let a = ws_end(s, 0);
    s.subrange(a, ws_start_back(s, a, s.len() as int))
}

pub fn skip_ws(s: &[char], i: usize) -> (r: usize)
    requires
        i <= s.len(),
    ensures
        r == ws_end(s@, i as int),
{
    let mut k = i;
    proof {
        lemma_ws_end(s@, i as int);
    }
    while k < s.len() && is_whitespace_char(s[k])
        invariant
            i <= k <= s.len(),
            ws_end(s@, k as int) == ws_end(s@, i as int),
        decreases s.len() - k,
    {
        k = k + 1;
    }
    k
}

pub fn skip_ws_back(s: &[char], i: usize, j: usize) -> (r: usize)
    requires
        i <= j <= s.len(),
    ensures
        r == ws_start_back(s@, i as int, j as int),
{
    let mut k = j;
    while k > i && is_whitespace_char(s[k - 1])
        invariant
            i <= k <= j,
            j <= s.len(),
            ws_start_back(s@, i as int, k as int) == ws_start_back(s@, i as int, j as int),
        decreases k,
    {
        k = k - 1;
    }
    k
}

/// Bounds `(a, b)` of `trim(s)` inside `s`.
pub fn trim_bounds(s: &[char]) -> (r: (usize, usize))
    ensures
        r.0 <= r.1 <= s.len(),
        r.0 == ws_end(s@, 0),
        s@.subrange(r.0 as int, r.1 as int) == trim(s@),
{
    let a = skip_ws(s, 0);
    proof {
        lemma_ws_end(s@, 0);
    }
    let b = skip_ws_back(s, a, s.len());
    proof {
        lemma_ws_start_back(s@, a as int, s.len() as int);
    }
    (a, b)
}

/// `s[a..b]` as a vector.
pub fn sub_vec(s: &[char], a: usize, b: usize) -> (r: Vec<char>)
    requires
        a <= b <= s.len(),
    ensures
        r@ == s@.subrange(a as int, b as int),
{
    let mut r: Vec<char> = Vec::new();
    let mut k = a;
    while k < b
        invariant
            a <= k <= b <= s.len(),
            r@ == s@.subrange(a as int, k as int),
        decreases b - k,
    {
        r.push(s[k]);
        k = k + 1;
        assert(r@ =~= s@.subrange(a as int, k as int));
    }
    r
}

/// Appends `t` to `r`.
pub fn append_chars(r: &mut Vec<char>, t: &[char])
    ensures
        final(r)@ == old(r)@ + t@,
{
    let mut k: usize = 0;
    while k < t.len()
        invariant
            k <= t.len(),
            r@ == old(r)@ + t@.subrange(0, k as int),
        decreases t.len() - k,
    {
        r.push(t[k]);
        k = k + 1;
        assert(r@ =~= old(r)@ + t@.subrange(0, k as int));
    }
    assert(t@.subrange(0, t@.len() as int) =~= t@);
}

/// Every non-overlapping occurrence of `n` in `s`, scanned from the left,
/// replaced by `r` (`str::replace` with a non-empty pattern).
pub open spec fn replace_all(s: Seq<char>, n: Seq<char>, r: Seq<char>) -> Seq<char>
    recommends
        n.len() > 0,
    decreases s.len(),
{
    if n.len() == 0 || s.len() < n.len() {
        s
    } else if s.subrange(0, n.len() as int) == n {
        r + replace_all(s.skip(n.len() as int), n, r)
    } else {
        seq![s[0]] + replace_all(s.skip(1), n, r)
    }
}

pub proof fn lemma_replace_all_absent(s: Seq<char>, n: Seq<char>, r: Seq<char>)
    requires
        n.len() > 0,
        !has_infix(s, n),
    ensures
        replace_all(s, n, r) == s,
    decreases s.len(),
{
    if s.len() >= n.len() {
        assert(!occurs_at(s, n, 0));
        assert forall|i: int| !occurs_at(s.skip(1), n, i) by {
            if occurs_at(s.skip(1), n, i) {
                assert(s.subrange(i + 1, i + 1 + n.len()) =~= s.skip(1).subrange(i, i + n.len()));
                assert(occurs_at(s, n, i + 1));
            }
        }
        lemma_replace_all_absent(s.skip(1), n, r);
        assert(s =~= seq![s[0]] + s.skip(1));
    }
}

/// `str::replace` on character vectors for a non-empty pattern.
pub fn replace_all_chars(s: &[char], n: &[char], r: &[char]) -> (out: Vec<char>)
    requires
        n.len() > 0,
    ensures
        out@ == replace_all(s@, n@, r@),
{
    let mut out: Vec<char> = Vec::new();
    let mut i: usize = 0;
    assert(s@.skip(0) =~= s@);
    while i < s.len()
        invariant
            n.len() > 0,
            i <= s.len(),
            out@ + replace_all(s@.skip(i as int), n@, r@) == replace_all(s@, n@, r@),
        decreases s.len() - i,
    {
        let ghost rest = s@.skip(i as int);
        if n.len() <= s.len() - i && slice_occurs_at(s, n, i) {
            assert(rest.subrange(0, n@.len() as int) =~= s@.subrange(i as int, i + n@.len()));
            append_chars(&mut out, r);
            assert(rest.skip(n@.len() as int) =~= s@.skip(i + n@.len()));
            i = i + n.len();
        } else {
            if n.len() <= s.len() - i {
                assert(rest.subrange(0, n@.len() as int) =~= s@.subrange(i as int, i + n@.len()));
            }
            out.push(s[i]);
            assert(rest.skip(1) =~= s@.skip(i + 1));
            i = i + 1;
        }
        assert(out@ + replace_all(s@.skip(i as int), n@, r@) =~= replace_all(s@, n@, r@));
    }
    assert(s@.skip(i as int) =~= Seq::<char>::empty());
    assert(out@ =~= out@ + Seq::<char>::empty());
    out
}

/// Decimal digits of a natural number (`Display` for unsigned integers).
pub open spec fn decimal(n: nat) -> Seq<char>
    decreases n,
{
    if n < 10 {
        seq![('0' as nat + n) as char]
    } else {
        decimal(n / 10) + seq![('0' as nat + n % 10) as char]
    }
}

/// The decimal rendering of a number.
pub fn decimal_string(n: u64) -> (s: String)
    ensures
        s@ == decimal(n as nat),
{
    let mut digits: Vec<char> = Vec::new();
    let mut m = n;
    while m >= 10
        invariant
            decimal(n as nat) == decimal(m as nat) + digits@,
        decreases m,
    {
        let d = (m % 10) as u8;
        let c = (48u8 + d) as char;
        let ghost old_digits = digits@;
        digits.insert(0, c);
        assert(decimal(m as nat) == decimal((m / 10) as nat) + seq![c]);
        assert(digits@ =~= seq![c] + old_digits);
        assert(decimal(n as nat) =~= decimal((m / 10) as nat) + digits@);
        m = m / 10;
    }
    let c = (48u8 + (m as u8)) as char;
    digits.insert(0, c);
    assert(decimal(m as nat) == seq![c]);
    string_from_chars(digits.as_slice())
}

/// Lowercase form of an ASCII letter (other characters unchanged).
pub open spec fn lower_char(c: char) -> char {
    if 'A' as u32 <= c as u32 <= 'Z' as u32 {
        ((c as u32) + 32) as char
    } else {
        c
    }
}

/// `str::to_ascii_lowercase`.
pub open spec fn ascii_lowercase(s: Seq<char>) -> Seq<char> {
    s.map_values(|c: char| lower_char(c))
}

pub fn to_ascii_lower(s: &[char]) -> (r: Vec<char>)
    ensures
        r@ == ascii_lowercase(s@),
{
    let mut r: Vec<char> = Vec::new();
    let mut i: usize = 0;
    while i < s.len()
        invariant
            i <= s.len(),
            r@ == ascii_lowercase(s@.take(i as int)),
        decreases s.len() - i,
    {
        let c = s[i];
        let u = c as u32;
        let l = if 65 <= u && u <= 90 {
            ((u + 32) as u8) as char
        } else {
            c
        };
        assert(l == lower_char(c));
        r.push(l);
        assert(ascii_lowercase(s@.take(i + 1)) =~= ascii_lowercase(s@.take(i as int)).push(lower_char(c)));
        i = i + 1;
    }
    assert(s@.take(s@.len() as int) =~= s@);
    r
}

/// The concatenation of two strings.
pub fn cat(a: &str, b: &str) -> (r: String)
    ensures
        r@ == a@ + b@,
{
    let mut v = chars_of(a);
    let w = chars_of(b);
    append_chars(&mut v, w.as_slice());
    string_from_chars(v.as_slice())
}

} // verus!
