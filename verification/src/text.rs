//! Small verified helpers over strings, used for logical-path manipulation.

use vstd::prelude::*;

verus! {

/// Equality of two string slices, with the sequence-of-characters meaning.
pub fn str_eq(a: &str, b: &str) -> (r: bool)
    ensures
        r == (a@ == b@),
{
    let x: String = a.to_owned();
    let y: String = b.to_owned();
    x == y
}

/// Does `p` occur at the start of `s`?
pub fn has_prefix(s: &str, p: &str) -> (r: bool)
    ensures
        r == p@.is_prefix_of(s@),
{
    let sn = s.unicode_len();
    let pn = p.unicode_len();
    if pn > sn {
        return false;
    }
    let mut i: usize = 0;
    while i < pn
        invariant
            i <= pn <= sn,
            pn == p@.len(),
            sn == s@.len(),
            forall|j: int| 0 <= j < i ==> s@[j] == p@[j],
        decreases pn - i,
    {
        if s.get_char(i) != p.get_char(i) {
            assert(!p@.is_prefix_of(s@)) by {
                assert(p@[i as int] != s@.subrange(0, p@.len() as int)[i as int]);
            }
            return false;
        }
        i += 1;
    }
    assert(p@ =~= s@.subrange(0, p@.len() as int));
    true
}

/// Does `p` occur at the end of `s`?
pub fn has_suffix(s: &str, p: &str) -> (r: bool)
    ensures
        r == p@.is_suffix_of(s@),
{
    let sn = s.unicode_len();
    let pn = p.unicode_len();
    if pn > sn {
        return false;
    }
    let off = sn - pn;
    let mut i: usize = 0;
    while i < pn
        invariant
            i <= pn <= sn,
            pn == p@.len(),
            sn == s@.len(),
            off == sn - pn,
            forall|j: int| 0 <= j < i ==> s@[off + j] == p@[j],
        decreases pn - i,
    {
        if s.get_char(off + i) != p.get_char(i) {
            assert(!p@.is_suffix_of(s@)) by {
                assert(p@[i as int] != s@.subrange(
                    s@.len() - p@.len(),
                    s@.len() as int,
                )[i as int]);
            }
            return false;
        }
        i += 1;
    }
    assert(p@ =~= s@.subrange(s@.len() - p@.len(), s@.len() as int));
    true
}

/// `s` with every leading repetition of `p` removed, as `str::trim_start_matches`
/// strips a repeated pattern.
pub open spec fn strip_prefix_all(s: Seq<char>, p: Seq<char>) -> Seq<char>
    decreases s.len(),
{
    if p.len() > 0 && p.is_prefix_of(s) {
        strip_prefix_all(s.skip(p.len() as int), p)
    } else {
        s
    }
}

/// `s` with every trailing repetition of `p` removed, as `str::trim_end_matches`
/// strips a repeated pattern.
pub open spec fn strip_suffix_all(s: Seq<char>, p: Seq<char>) -> Seq<char>
    decreases s.len(),
{
    if p.len() > 0 && p.is_suffix_of(s) {
        strip_suffix_all(s.take(s.len() - p.len()), p)
    } else {
        s
    }
}

/// Remove every leading repetition of `p` from `s`.
pub fn strip_prefix_matches(s: &str, p: &str) -> (r: String)
    ensures
        r@ == strip_prefix_all(s@, p@),
{
    let mut cur: String = s.to_owned();
    loop
        invariant
            strip_prefix_all(cur@, p@) == strip_prefix_all(s@, p@),
        decreases cur@.len(),
    {
        if p.unicode_len() > 0 && has_prefix(cur.as_str(), p) {
            let pn = p.unicode_len();
            let cn = cur.as_str().unicode_len();
            let rest = cur.as_str().substring_char(pn, cn).to_owned();
            assert(rest@ =~= cur@.skip(p@.len() as int));
            cur = rest;
        } else {
            return cur;
        }
    }
}

/// Remove every trailing repetition of `p` from `s`.
pub fn strip_suffix_matches(s: &str, p: &str) -> (r: String)
    ensures
        r@ == strip_suffix_all(s@, p@),
{
    let mut cur: String = s.to_owned();
    loop
        invariant
            strip_suffix_all(cur@, p@) == strip_suffix_all(s@, p@),
        decreases cur@.len(),
    {
        if p.unicode_len() > 0 && has_suffix(cur.as_str(), p) {
            let pn = p.unicode_len();
            let cn = cur.as_str().unicode_len();
            let rest = cur.as_str().substring_char(0, cn - pn).to_owned();
            assert(rest@ =~= cur@.take(cur@.len() - p@.len()));
            cur = rest;
        } else {
            return cur;
        }
    }
}

/// `s` without its final `.extension`, if it has one: everything from the last
/// dot on is removed, provided at least one character follows that dot.
pub open spec fn drop_final_extension(s: Seq<char>) -> Seq<char> {
    match s.index_of_last('.') {
        Some(i) => if i < s.len() - 1 {
            s.take(i)
        } else {
            s
        },
        None => s,
    }
}

/// Remove the final `.extension` of `s`, if any.
pub fn strip_final_extension(s: &str) -> (r: String)
    ensures
        r@ == drop_final_extension(s@),
{
    let n = s.unicode_len();
    let mut j: usize = n;
    while j > 0
        invariant
            j <= n,
            n == s@.len(),
            forall|k: int| j <= k < n ==> s@[k] != '.',
        decreases j,
    {
        if s.get_char(j - 1) == '.' {
            proof {
                s@.index_of_last_ensures('.');
                assert(s@.contains('.')) by {
                    assert(s@[j as int - 1] == '.');
                }
                assert(s@.index_of_last('.') == Some(j as int - 1));
            }
            if j < n {
                let r = s.substring_char(0, j - 1).to_owned();
                assert(r@ =~= s@.take(j as int - 1));
                return r;
            } else {
                return s.to_owned();
            }
        }
        j -= 1;
    }
    proof {
        s@.index_of_last_ensures('.');
        assert(s@.index_of_last('.') is None);
    }
    s.to_owned()
}

} // verus!
