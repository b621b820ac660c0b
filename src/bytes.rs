//! Byte-level helpers: ASCII whitespace, splicing and word splitting.
use vstd::prelude::*;

verus! {

/// ASCII whitespace as `u8::is_ascii_whitespace` defines it.
pub open spec fn is_ws(b: u8) -> bool {
    b == 9u8 || b == 10u8 || b == 12u8 || b == 13u8 || b == 32u8
}

/// `s` with the bytes in `from..to` replaced by `r`.
pub open spec fn splice(s: Seq<u8>, from: int, to: int, r: Seq<u8>) -> Seq<u8> {
    s.subrange(0, from) + r + s.subrange(to, s.len() as int)
}

/// The words of `s[i..]`, where `cur` is the word being read when `i` is reached.
pub open spec fn words_from(s: Seq<u8>, i: int, cur: Seq<u8>) -> Seq<Seq<u8>>
    decreases s.len() - i,
{
    if i >= s.len() {
        if cur.len() > 0 { seq![cur] } else { seq![] }
    } else if is_ws(s[i]) {
        (if cur.len() > 0 { seq![cur] } else { seq![] }) + words_from(s, i + 1, seq![])
    } else {
        words_from(s, i + 1, cur.push(s[i]))
    }
}

/// The maximal runs of non-whitespace bytes of `s`, in order.
pub open spec fn words(s: Seq<u8>) -> Seq<Seq<u8>> {
    words_from(s, 0, seq![])
}

/// `s` without leading ASCII whitespace.
pub open spec fn trim_start(s: Seq<u8>) -> Seq<u8>
    decreases s.len(),
{
    if s.len() > 0 && is_ws(s[0]) { trim_start(s.drop_first()) } else { s }
}

/// `s` without trailing ASCII whitespace.
pub open spec fn trim_end(s: Seq<u8>) -> Seq<u8>
    decreases s.len(),
{
    if s.len() > 0 && is_ws(s.last()) { trim_end(s.drop_last()) } else { s }
}

/// `s` without leading or trailing ASCII whitespace.
pub open spec fn trim(s: Seq<u8>) -> Seq<u8> {
    trim_end(trim_start(s))
}

pub fn is_ascii_ws(b: u8) -> (r: bool)
    ensures
        r == is_ws(b),
{
    b == 9u8 || b == 10u8 || b == 12u8 || b == 13u8 || b == 32u8
}

/// Copies `s[from..to]` into a new vector.
pub fn copy_range(s: &[u8], from: usize, to: usize) -> (r: Vec<u8>)
    requires
        from <= to <= s@.len(),
    ensures
        r@ == s@.subrange(from as int, to as int),
{
    let mut r: Vec<u8> = Vec::new();
    let mut k: usize = from;
    while k < to
        invariant
            from <= k <= to <= s@.len(),
            r@ == s@.subrange(from as int, k as int),
        decreases to - k,
    {
        r.push(s[k]);
        assert(r@ =~= s@.subrange(from as int, k + 1));
        k = k + 1;
    }
    r
}

/// Appends `t` to `r`.
pub fn push_all(r: &mut Vec<u8>, t: &[u8])
    ensures
        final(r)@ == old(r)@ + t@,
{
    let mut k: usize = 0;
    while k < t.len()
        invariant
            k <= t@.len(),
            r@ == old(r)@ + t@.subrange(0, k as int),
        decreases t@.len() - k,
    {
        r.push(t[k]);
        assert(r@ =~= old(r)@ + t@.subrange(0, k + 1));
        k = k + 1;
    }
    assert(t@.subrange(0, t@.len() as int) =~= t@);
}

/// A new buffer holding `s` with `s[from..to]` replaced by `t`.
pub fn splice_vec(s: &[u8], from: usize, to: usize, t: &[u8]) -> (r: Vec<u8>)
    requires
        from <= to <= s@.len(),
    ensures
        r@ == splice(s@, from as int, to as int, t@),
{
    let mut r = copy_range(s, 0, from);
    push_all(&mut r, t);
    let rest = copy_range(s, to, s.len());
    push_all(&mut r, rest.as_slice());
    r
}

/// Splits `s` into its words, as `str::split_ascii_whitespace` does.
pub fn split_words(s: &[u8]) -> (r: Vec<Vec<u8>>)
    ensures
        r@.len() == words(s@).len(),
        forall|k: int| 0 <= k < r@.len() ==> #[trigger] r@[k]@ == words(s@)[k],
{
    let mut out: Vec<Vec<u8>> = Vec::new();
    let mut cur: Vec<u8> = Vec::new();
    let mut i: usize = 0;
    let ghost all = words(s@);
    while i < s.len()
        invariant
            i <= s@.len(),
            all == words(s@),
            ({
                let done = out@.map_values(|v: Vec<u8>| v@);
                done + words_from(s@, i as int, cur@) == all
            }),
        decreases s@.len() - i,
    {
        let b = s[i];
        if is_ascii_ws(b) {
            let ghost before = out@.map_values(|v: Vec<u8>| v@);
            let ghost w = if cur@.len() > 0 { seq![cur@] } else { Seq::<Seq<u8>>::empty() };
            let ghost rest = words_from(s@, i + 1, seq![]);
            if cur.len() > 0 {
                let ghost c = cur@;
                out.push(cur);
                assert(out@.map_values(|v: Vec<u8>| v@) =~= before.push(c));
            } else {
                assert(out@.map_values(|v: Vec<u8>| v@) =~= before);
            }
            cur = Vec::new();
            assert(before + (w + rest) =~= (before + w) + rest);
            assert(out@.map_values(|v: Vec<u8>| v@) =~= before + w);
        } else {
            cur.push(b);
        }
        i = i + 1;
    }
    let ghost before = out@.map_values(|v: Vec<u8>| v@);
    if cur.len() > 0 {
        let ghost c = cur@;
        out.push(cur);
        assert(out@.map_values(|v: Vec<u8>| v@) =~= before.push(c));
        assert(before + seq![c] =~= before.push(c));
    } else {
        assert(before + Seq::<Seq<u8>>::empty() =~= before);
    }
    proof {
        let done = out@.map_values(|v: Vec<u8>| v@);
        assert(done == all);
        assert forall|k: int| 0 <= k < out@.len() implies #[trigger] out@[k]@ == all[k] by {
            assert(done[k] == out@[k]@);
        }
    }
    out
}

/// Whether `a` and `b` hold the same bytes.
pub fn bytes_eq(a: &[u8], b: &[u8]) -> (r: bool)
    ensures
        r == (a@ == b@),
{
    if a.len() != b.len() {
        return false;
    }
    let mut k: usize = 0;
    while k < a.len()
        invariant
            a@.len() == b@.len(),
            k <= a@.len(),
            forall|j: int| 0 <= j < k ==> a@[j] == b@[j],
        decreases a@.len() - k,
    {
        if a[k] != b[k] {
            return false;
        }
        k = k + 1;
    }
    assert(a@ =~= b@);
    true
}

} // verus!
