//! Byte-level text utilities.
//!
//! Card text is handled as raw bytes. This module holds the verified
//! building blocks: ASCII whitespace trimming, subsequence search,
//! replacement of a token by another byte string, copying and slicing, and a
//! fixed-width little-endian encoding of integers.

use vstd::prelude::*;

verus! {

/// ASCII whitespace: tab, line feed, vertical tab, form feed, carriage
/// return, space.
pub open spec fn is_space(b: u8) -> bool {
    b == 9 || b == 10 || b == 11 || b == 12 || b == 13 || b == 32
}

/// `s` without its leading whitespace.
pub open spec fn trim_start_spec(s: Seq<u8>) -> Seq<u8>
    decreases s.len(),
{
    if s.len() > 0 && is_space(s[0]) {
        trim_start_spec(s.skip(1))
    } else {
        s
    }
}

/// `s` without its trailing whitespace.
pub open spec fn trim_end_spec(s: Seq<u8>) -> Seq<u8>
    decreases s.len(),
{
    if s.len() > 0 && is_space(s[s.len() - 1]) {
        trim_end_spec(s.take(s.len() - 1))
    } else {
        s
    }
}

/// `s` without leading or trailing whitespace. Only the six ASCII
/// whitespace bytes are removed: a multi-byte Unicode space stays in
/// place, since the text is handled as raw bytes.
pub open spec fn trim_spec(s: Seq<u8>) -> Seq<u8> {
    trim_end_spec(trim_start_spec(s))
}

proof fn lemma_trim_start_skip(s: Seq<u8>, lo: int)
    requires
        0 <= lo <= s.len(),
        forall|k: int| 0 <= k < lo ==> is_space(s[k]),
    ensures
        trim_start_spec(s) == trim_start_spec(s.skip(lo)),
    decreases lo,
{
    if lo > 0 {
        assert(s.skip(1).skip(lo - 1) =~= s.skip(lo));
        assert(forall|k: int| 0 <= k < lo - 1 ==> is_space(s.skip(1)[k]));
        lemma_trim_start_skip(s.skip(1), lo - 1);
    } else {
        assert(s.skip(0) =~= s);
    }
}

proof fn lemma_trim_end_take(s: Seq<u8>, hi: int)
    requires
        0 <= hi <= s.len(),
        forall|k: int| hi <= k < s.len() ==> is_space(s[k]),
    ensures
        trim_end_spec(s) == trim_end_spec(s.take(hi)),
    decreases s.len() - hi,
{
    if hi < s.len() {
        assert(is_space(s[s.len() - 1]));
        assert(s.take(s.len() - 1).take(hi) =~= s.take(hi));
        lemma_trim_end_take(s.take(s.len() - 1), hi);
    } else {
        assert(s.take(s.len() as int) =~= s);
    }
}

proof fn lemma_trim_start_no_leading(s: Seq<u8>)
    ensures
        trim_start_spec(s).len() > 0 ==> !is_space(trim_start_spec(s)[0]),
    decreases s.len(),
{
    if s.len() > 0 && is_space(s[0]) {
        lemma_trim_start_no_leading(s.skip(1));
    }
}

proof fn lemma_trim_end_no_trailing(s: Seq<u8>)
    ensures
        trim_end_spec(s).len() > 0 ==> !is_space(trim_end_spec(s)[trim_end_spec(s).len() - 1]),
    decreases s.len(),
{
    if s.len() > 0 && is_space(s[s.len() - 1]) {
        lemma_trim_end_no_trailing(s.take(s.len() - 1));
    }
}

proof fn lemma_trim_end_preserves_first(s: Seq<u8>)
    ensures
        trim_end_spec(s).len() > 0 ==> trim_end_spec(s)[0] == s[0],
    decreases s.len(),
{
    if s.len() > 0 && is_space(s[s.len() - 1]) {
        lemma_trim_end_preserves_first(s.take(s.len() - 1));
    }
}

proof fn lemma_trim_start_len(s: Seq<u8>)
    ensures
        trim_start_spec(s).len() <= s.len(),
    decreases s.len(),
{
    if s.len() > 0 && is_space(s[0]) {
        lemma_trim_start_len(s.skip(1));
    }
}

proof fn lemma_trim_end_len(s: Seq<u8>)
    ensures
        trim_end_spec(s).len() <= s.len(),
    decreases s.len(),
{
    if s.len() > 0 && is_space(s[s.len() - 1]) {
        lemma_trim_end_len(s.take(s.len() - 1));
    }
}

/// Trimming never lengthens a byte string.
pub proof fn lemma_trim_len_le(s: Seq<u8>)
    ensures
        trim_spec(s).len() <= s.len(),
{
    lemma_trim_start_len(s);
    lemma_trim_end_len(trim_start_spec(s));
}

/// Trimming is idempotent: a trimmed byte string trims to itself.
pub proof fn lemma_trim_idempotent(s: Seq<u8>)
    ensures
        trim_spec(trim_spec(s)) == trim_spec(s),
{
    let t = trim_start_spec(s);
    let u = trim_end_spec(t);
    lemma_trim_start_no_leading(s);
    lemma_trim_end_preserves_first(t);
    lemma_trim_end_no_trailing(t);
    if u.len() > 0 {
        assert(!is_space(u[0]));
        assert(trim_start_spec(u) == u);
        assert(trim_end_spec(u) == u);
    }
}

/// Copy a byte vector.
pub fn copy_bytes(v: &Vec<u8>) -> (r: Vec<u8>)
    ensures
        r@ == v@,
{
    let mut out: Vec<u8> = Vec::new();
    let mut i: usize = 0;
    while i < v.len()
        invariant
            i <= v@.len(),
            out@ =~= v@.take(i as int),
        decreases v@.len() - i,
    {
        out.push(v[i]);
        i = i + 1;
    }
    proof {
        assert(v@.take(v@.len() as int) =~= v@);
    }
    out
}

/// Copy the bytes of `v` in positions `lo..hi`.
pub fn sub_bytes(v: &Vec<u8>, lo: usize, hi: usize) -> (r: Vec<u8>)
    requires
        lo <= hi <= v@.len(),
    ensures
        r@ == v@.subrange(lo as int, hi as int),
{
    let mut out: Vec<u8> = Vec::new();
    let mut i: usize = lo;
    while i < hi
        invariant
            lo <= i <= hi <= v@.len(),
            out@ =~= v@.subrange(lo as int, i as int),
        decreases hi - i,
    {
        out.push(v[i]);
        proof {
            assert(out@ =~= v@.subrange(lo as int, i + 1 as int));
        }
        i = i + 1;
    }
    out
}

/// Append all of `src` onto `dst`.
pub fn push_bytes(dst: &mut Vec<u8>, src: &Vec<u8>)
    ensures
        final(dst)@ == old(dst)@ + src@,
{
    let mut i: usize = 0;
    while i < src.len()
        invariant
            i <= src@.len(),
            dst@ =~= old(dst)@ + src@.take(i as int),
        decreases src@.len() - i,
    {
        dst.push(src[i]);
        i = i + 1;
    }
    proof {
        assert(src@.take(src@.len() as int) =~= src@);
    }
}

/// Whether `b` is ASCII whitespace.
pub fn is_space_byte(b: u8) -> (r: bool)
    ensures
        r == is_space(b),
{
    b == 9 || b == 10 || b == 11 || b == 12 || b == 13 || b == 32
}

/// `v` with ASCII whitespace removed from both ends (and no other:
/// multi-byte Unicode whitespace is kept).
pub fn trim_bytes(v: &Vec<u8>) -> (r: Vec<u8>)
    ensures
        r@ == trim_spec(v@),
{
    let mut lo: usize = 0;
    while lo < v.len() && is_space_byte(v[lo])
        invariant
            lo <= v@.len(),
            forall|k: int| 0 <= k < lo ==> is_space(v@[k]),
        decreases v@.len() - lo,
    {
        lo = lo + 1;
    }
    proof {
        lemma_trim_start_skip(v@, lo as int);
        if lo < v@.len() {
            assert(trim_start_spec(v@.skip(lo as int)) == v@.skip(lo as int));
        } else {
            assert(v@.skip(lo as int) =~= Seq::<u8>::empty());
        }
        assert(trim_start_spec(v@) == v@.skip(lo as int));
    }
    let mut hi: usize = v.len();
    while hi > lo && is_space_byte(v[hi - 1])
        invariant
            lo <= hi <= v@.len(),
            forall|k: int| hi <= k < v@.len() ==> is_space(v@[k]),
        decreases hi,
    {
        hi = hi - 1;
    }
    proof {
        let t = v@.skip(lo as int);
        assert(forall|k: int| hi - lo <= k < t.len() ==> is_space(#[trigger] t[k]));
        lemma_trim_end_take(t, hi - lo);
        assert(t.take(hi - lo) =~= v@.subrange(lo as int, hi as int));
        if hi > lo {
            let u = v@.subrange(lo as int, hi as int);
            assert(!is_space(u[u.len() - 1]));
            assert(trim_end_spec(u) == u);
        } else {
            assert(v@.subrange(lo as int, hi as int) =~= Seq::<u8>::empty());
        }
        assert(trim_spec(v@) == v@.subrange(lo as int, hi as int));
    }
    sub_bytes(v, lo, hi)
}

/// Whether two byte vectors hold the same bytes.
pub fn bytes_eq(a: &Vec<u8>, b: &Vec<u8>) -> (r: bool)
    ensures
        r == (a@ == b@),
{
    if a.len() != b.len() {
        return false;
    }
    let n: usize = a.len();
    let mut i: usize = 0;
    while i < n
        invariant
            0 <= i <= n,
            n == a@.len(),
            n == b@.len(),
            forall|k: int| 0 <= k < i ==> a@[k] == b@[k],
        decreases n - i,
    {
        if a[i] != b[i] {
            return false;
        }
        i = i + 1;
    }
    proof {
        assert(a@ =~= b@);
    }
    true
}

/// Whether `v` begins with `p`.
pub fn starts_with_bytes(v: &Vec<u8>, p: &Vec<u8>) -> (r: bool)
    ensures
        r == (v@.len() >= p@.len() && v@.take(p@.len() as int) == p@),
{
    if p.len() > v.len() {
        return false;
    }
    let m: usize = p.len();
    let mut i: usize = 0;
    while i < m
        invariant
            0 <= i <= m,
            m == p@.len(),
            m <= v@.len(),
            forall|k: int| 0 <= k < i ==> v@[k] == p@[k],
        decreases m - i,
    {
        if v[i] != p[i] {
            proof {
                assert(v@.take(p@.len() as int)[i as int] == v@[i as int]);
            }
            return false;
        }
        i = i + 1;
    }
    proof {
        assert(v@.take(p@.len() as int) =~= p@);
    }
    true
}

/// Whether `pat` occurs in `s` starting at position `i`.
pub open spec fn matches_at(s: Seq<u8>, pat: Seq<u8>, i: int) -> bool {
    0 <= i && i + pat.len() <= s.len() && s.subrange(i, i + pat.len()) == pat
}

/// Position of the first occurrence of `pat` in `s`, if any.
pub open spec fn find_sub(s: Seq<u8>, pat: Seq<u8>) -> Option<int>
    decreases s.len(),
{
    if pat.len() == 0 || s.len() < pat.len() {
        None
    } else if s.take(pat.len() as int) == pat {
        Some(0)
    } else {
        match find_sub(s.skip(1), pat) {
            Some(j) => Some(j + 1),
            None => None,
        }
    }
}

/// A found position is a match.
pub proof fn lemma_find_sub_is_match(s: Seq<u8>, pat: Seq<u8>)
    requires
        find_sub(s, pat) is Some,
    ensures
        matches_at(s, pat, find_sub(s, pat)->Some_0),
    decreases s.len(),
{
    if pat.len() == 0 || s.len() < pat.len() {
    } else if s.take(pat.len() as int) == pat {
        assert(s.subrange(0, pat.len() as int) == s.take(pat.len() as int));
    } else {
        lemma_find_sub_is_match(s.skip(1), pat);
        let j = find_sub(s.skip(1), pat)->Some_0;
        assert(s.skip(1).subrange(j, j + pat.len()) =~= s.subrange(j + 1, j + 1 + pat.len()));
    }
}

/// The first match found by `find_sub` is the leftmost one.
pub proof fn lemma_find_sub_first(s: Seq<u8>, pat: Seq<u8>, i: int)
    requires
        pat.len() >= 1,
        matches_at(s, pat, i),
        forall|j: int| 0 <= j < i ==> !matches_at(s, pat, j),
    ensures
        find_sub(s, pat) == Some(i),
    decreases s.len(),
{
    if i == 0 {
        assert(s.take(pat.len() as int) =~= s.subrange(0, pat.len() as int));
    } else {
        assert(!matches_at(s, pat, 0));
        assert(s.take(pat.len() as int) =~= s.subrange(0, pat.len() as int));
        assert(s.take(pat.len() as int) != pat);
        assert(matches_at(s.skip(1), pat, i - 1)) by {
            assert(s.skip(1).subrange(i - 1, i - 1 + pat.len()) =~= s.subrange(i, i + pat.len()));
        }
        assert(forall|j: int| 0 <= j < i - 1 ==> !matches_at(s.skip(1), pat, j)) by {
            assert forall|j: int| 0 <= j < i - 1 implies !matches_at(s.skip(1), pat, j) by {
                assert(!matches_at(s, pat, j + 1));
                if j + 1 + pat.len() <= s.len() {
                    assert(s.skip(1).subrange(j, j + pat.len()) =~= s.subrange(
                        j + 1,
                        j + 1 + pat.len(),
                    ));
                }
            }
        }
        lemma_find_sub_first(s.skip(1), pat, i - 1);
    }
}

/// When nothing matches anywhere, `find_sub` finds nothing.
pub proof fn lemma_find_sub_none(s: Seq<u8>, pat: Seq<u8>)
    requires
        forall|j: int| !matches_at(s, pat, j),
    ensures
        find_sub(s, pat) is None,
{
    if find_sub(s, pat) is Some {
        lemma_find_sub_is_match(s, pat);
    }
}

/// Find the first occurrence of `pat` in `s`.
pub fn find_bytes(s: &Vec<u8>, pat: &Vec<u8>) -> (r: Option<usize>)
    requires
        pat@.len() >= 1,
    ensures
        match r {
            Some(i) => find_sub(s@, pat@) == Some(i as int),
            None => find_sub(s@, pat@) is None,
        },
{
    let n: usize = s.len();
    let m: usize = pat.len();
    if m > n {
        return None;
    }
    let count: usize = n - m + 1;
    let mut i: usize = 0;
    while i < count
        invariant
            0 <= i <= count,
            count + m == n + 1,
            n == s@.len(),
            m == pat@.len(),
            m >= 1,
            forall|j: int| 0 <= j < i ==> !matches_at(s@, pat@, j),
        decreases count - i,
    {
        let mut j: usize = 0;
        let mut hit: bool = true;
        while j < m
            invariant
                0 <= j <= m,
                i + m <= n,
                n == s@.len(),
                m == pat@.len(),
                hit ==> forall|k: int| 0 <= k < j ==> s@[i + k] == pat@[k],
                !hit ==> s@.subrange(i as int, i + pat@.len()) != pat@,
            decreases m - j,
        {
            if s[i + j] != pat[j] {
                hit = false;
                proof {
                    assert(s@.subrange(i as int, i + pat@.len())[j as int] == s@[i + j]);
                }
                j = m;
            } else {
                j = j + 1;
            }
        }
        if hit {
            proof {
                assert(s@.subrange(i as int, i + pat@.len()) =~= pat@);
                lemma_find_sub_first(s@, pat@, i as int);
            }
            return Some(i);
        }
        proof {
            assert(!matches_at(s@, pat@, i as int));
        }
        i = i + 1;
    }
    proof {
        assert forall|j: int| !matches_at(s@, pat@, j) by {
            if j >= count {
                assert(j + pat@.len() > s@.len());
            }
        }
        lemma_find_sub_none(s@, pat@);
    }
    None
}

/// `s` with every occurrence of `pat`, leftmost first and without overlap,
/// replaced by `rep`.
pub open spec fn replace_all(s: Seq<u8>, pat: Seq<u8>, rep: Seq<u8>) -> Seq<u8>
    decreases s.len(),
{
    if pat.len() == 0 || s.len() < pat.len() {
        s
    } else if s.take(pat.len() as int) == pat {
        rep + replace_all(s.skip(pat.len() as int), pat, rep)
    } else {
        seq![s[0]] + replace_all(s.skip(1), pat, rep)
    }
}

/// Replace every occurrence of `pat` in `s` by `rep`.
pub fn replace_bytes(s: &Vec<u8>, pat: &Vec<u8>, rep: &Vec<u8>) -> (r: Vec<u8>)
    requires
        pat@.len() >= 1,
    ensures
        r@ == replace_all(s@, pat@, rep@),
{
    let n: usize = s.len();
    let m: usize = pat.len();
    let mut out: Vec<u8> = Vec::new();
    let mut i: usize = 0;
    proof {
        assert(s@.skip(0) =~= s@);
    }
    while i < n
        invariant
            0 <= i <= n,
            n == s@.len(),
            m == pat@.len(),
            m >= 1,
            replace_all(s@, pat@, rep@) == out@ + replace_all(s@.skip(i as int), pat@, rep@),
        decreases n - i,
    {
        let mut hit: bool = false;
        if m <= n - i {
            let mut j: usize = 0;
            hit = true;
            while j < m
                invariant
                    0 <= j <= m,
                    i + m <= n,
                    n == s@.len(),
                    m == pat@.len(),
                    hit ==> forall|k: int| 0 <= k < j ==> s@[i + k] == pat@[k],
                    !hit ==> s@.skip(i as int).take(pat@.len() as int) != pat@,
                decreases m - j,
            {
                if s[i + j] != pat[j] {
                    hit = false;
                    proof {
                        let t = s@.skip(i as int);
                        assert(t.take(pat@.len() as int)[j as int] == s@[i + j]);
                    }
                    j = m;
                } else {
                    j = j + 1;
                }
            }
        }
        if hit {
            let ghost prev = out@;
            proof {
                let t = s@.skip(i as int);
                assert(t.take(pat@.len() as int) =~= pat@);
                assert(t.skip(pat@.len() as int) =~= s@.skip(i + pat@.len()));
            }
            push_bytes(&mut out, rep);
            proof {
                assert(out@ + replace_all(s@.skip(i + pat@.len()), pat@, rep@) =~= prev + (rep@
                    + replace_all(s@.skip(i + pat@.len()), pat@, rep@)));
            }
            i = i + m;
        } else {
            let ghost prev = out@;
            let ghost t = s@.skip(i as int);
            proof {
                if pat@.len() <= t.len() {
                    assert(t.take(pat@.len() as int) != pat@);
                }
                assert(t[0] == s@[i as int]);
                assert(t.skip(1) =~= s@.skip(i + 1));
            }
            out.push(s[i]);
            proof {
                assert(out@ + replace_all(s@.skip(i + 1), pat@, rep@) =~= prev + (seq![t[0]]
                    + replace_all(t.skip(1), pat@, rep@)));
            }
            i = i + 1;
        }
    }
    proof {
        assert(s@.skip(s@.len() as int) =~= Seq::<u8>::empty());
        assert(out@ + Seq::<u8>::empty() =~= out@);
    }
    out
}

/// The `n`-byte little-endian encoding of `x`.
pub open spec fn le_bytes(x: nat, n: nat) -> Seq<u8>
    decreases n,
{
    if n == 0 {
        Seq::<u8>::empty()
    } else {
        seq![(x % 256) as u8] + le_bytes(x / 256, (n - 1) as nat)
    }
}

/// 256 to the power `n`.
pub open spec fn pow256(n: nat) -> nat
    decreases n,
{
    if n == 0 {
        1
    } else {
        256 * pow256((n - 1) as nat)
    }
}

pub proof fn lemma_le_bytes_len(x: nat, n: nat)
    ensures
        le_bytes(x, n).len() == n,
    decreases n,
{
    if n > 0 {
        lemma_le_bytes_len(x / 256, (n - 1) as nat);
    }
}

/// The little-endian encoding of `n` bytes determines the value, for values
/// below `256^n`.
pub proof fn lemma_le_bytes_injective(x: nat, y: nat, n: nat)
    requires
        x < pow256(n),
        y < pow256(n),
        le_bytes(x, n) == le_bytes(y, n),
    ensures
        x == y,
    decreases n,
{
    if n == 0 {
        assert(x == 0 && y == 0);
    } else {
        lemma_le_bytes_len(x / 256, (n - 1) as nat);
        lemma_le_bytes_len(y / 256, (n - 1) as nat);
        assert(le_bytes(x, n)[0] == (x % 256) as u8);
        assert(le_bytes(y, n)[0] == (y % 256) as u8);
        assert(x % 256 == y % 256);
        assert(le_bytes(x, n).skip(1) =~= le_bytes(x / 256, (n - 1) as nat));
        assert(le_bytes(y, n).skip(1) =~= le_bytes(y / 256, (n - 1) as nat));
        assert(x / 256 < pow256((n - 1) as nat)) by {
            if x / 256 >= pow256((n - 1) as nat) {
                assert(x >= 256 * pow256((n - 1) as nat)) by (nonlinear_arith)
                    requires
                        x / 256 >= pow256((n - 1) as nat),
                ;
            }
        }
        assert(y / 256 < pow256((n - 1) as nat)) by {
            if y / 256 >= pow256((n - 1) as nat) {
                assert(y >= 256 * pow256((n - 1) as nat)) by (nonlinear_arith)
                    requires
                        y / 256 >= pow256((n - 1) as nat),
                ;
            }
        }
        lemma_le_bytes_injective(x / 256, y / 256, (n - 1) as nat);
        assert(x == 256 * (x / 256) + x % 256);
        assert(y == 256 * (y / 256) + y % 256);
    }
}

/// The 8-byte little-endian encoding of `x`.
pub open spec fn le8(x: u64) -> Seq<u8> {
    le_bytes(x as nat, 8)
}

pub proof fn lemma_le8_injective(x: u64, y: u64)
    requires
        le8(x) == le8(y),
    ensures
        x == y,
{
    assert(pow256(8) == 0x1_0000_0000_0000_0000) by {
        reveal_with_fuel(pow256, 9);
    }
    lemma_le_bytes_injective(x as nat, y as nat, 8);
}

/// Append the 8-byte little-endian encoding of `x` onto `dst`.
pub fn push_le8(dst: &mut Vec<u8>, x: u64)
    ensures
        final(dst)@ == old(dst)@ + le8(x),
{
    let mut rest: u64 = x;
    let mut k: usize = 0;
    while k < 8
        invariant
            0 <= k <= 8,
            old(dst)@ + le8(x) == dst@ + le_bytes(rest as nat, (8 - k) as nat),
        decreases 8 - k,
    {
        let b: u8 = (rest % 256) as u8;
        let ghost prev = dst@;
        let ghost n = (8 - k) as nat;
        dst.push(b);
        proof {
            assert(le_bytes(rest as nat, n) == seq![(rest as nat % 256) as u8] + le_bytes(
                rest as nat / 256,
                (n - 1) as nat,
            ));
            assert((rest as nat % 256) as u8 == b);
            assert(rest as nat / 256 == (rest / 256) as nat);
            assert(dst@ + le_bytes((rest / 256) as nat, (n - 1) as nat) =~= prev + le_bytes(
                rest as nat,
                n,
            ));
        }
        rest = rest / 256;
        k = k + 1;
    }
    proof {
        assert(le_bytes(rest as nat, 0) =~= Seq::<u8>::empty());
        assert(dst@ + Seq::<u8>::empty() =~= dst@);
        lemma_le_bytes_len(x as nat, 8);
    }
}

} // verus!
