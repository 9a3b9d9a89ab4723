//! Character-level text operations: substring search, first-occurrence
//! replacement, and line counting. These carry the substitution
//! semantics of the pattern engine, stated over `Seq<char>` views and,
//! for byte positions, over the UTF-8 encoding of the input.

use vstd::prelude::*;
use vstd::utf8::encode_utf8;

verus! {

/// The pattern `pat` occurs in `t` starting at character index `i`.
pub open spec fn match_at(t: Seq<char>, pat: Seq<char>, i: int) -> bool {
    &&& 0 <= i
    &&& i + pat.len() <= t.len()
    &&& t.subrange(i, i + pat.len() as int) == pat
}

/// Index of the first occurrence of `pat` in `t` at or after `i`,
/// or -1 when there is none.
pub open spec fn first_match_from(t: Seq<char>, pat: Seq<char>, i: int) -> int
    decreases t.len() - i + 1,
{
    if i < 0 || i + pat.len() > t.len() {
        -1
    } else if t.subrange(i, i + pat.len() as int) == pat {
        i
    } else {
        first_match_from(t, pat, i + 1)
    }
}

/// `t` with its first occurrence of `pat` (if any) replaced by `ph`.
pub open spec fn replace_first(t: Seq<char>, pat: Seq<char>, ph: Seq<char>) -> Seq<char> {
    let i = first_match_from(t, pat, 0);
    if i < 0 {
        t
    } else {
        t.subrange(0, i) + ph + t.subrange(i + pat.len() as int, t.len() as int)
    }
}

/// Sequential first-occurrence substitution: each capture text in turn,
/// in order, replaces one first occurrence of itself in the working text.
pub open spec fn apply_captures(t: Seq<char>, caps: Seq<Seq<char>>, ph: Seq<char>) -> Seq<char>
    decreases caps.len(),
{
    if caps.len() == 0 {
        t
    } else {
        apply_captures(replace_first(t, caps[0], ph), caps.drop_first(), ph)
    }
}

/// Number of line-feed bytes in `b`.
pub open spec fn nl_count(b: Seq<u8>) -> int
    decreases b.len(),
{
    if b.len() == 0 {
        0
    } else {
        nl_count(b.drop_last()) + if b.last() == 10u8 {
            1int
        } else {
            0int
        }
    }
}

/// 1-based line number of the byte offset `off` in text `t`: one more
/// than the count of line-feed bytes strictly before it.
pub open spec fn line_at(t: Seq<char>, off: int) -> int {
    1 + nl_count(encode_utf8(t).take(off))
}

/// Substituting at the end of a capture list is replacing once more in
/// the text that the earlier captures produced.
pub proof fn lemma_apply_captures_push(t: Seq<char>, caps: Seq<Seq<char>>, c: Seq<char>, ph: Seq<char>)
    ensures
        apply_captures(t, caps.push(c), ph) == replace_first(apply_captures(t, caps, ph), c, ph),
    decreases caps.len(),
{
    if caps.len() == 0 {
        assert(caps.push(c)[0] == c);
        assert(caps.push(c).drop_first() =~= Seq::<Seq<char>>::empty());
        assert(apply_captures(t, caps.push(c), ph) == apply_captures(
            replace_first(t, c, ph),
            Seq::<Seq<char>>::empty(),
            ph,
        ));
        assert(apply_captures(replace_first(t, c, ph), Seq::<Seq<char>>::empty(), ph)
            == replace_first(t, c, ph));
        assert(apply_captures(t, caps, ph) == t);
    } else {
        assert(caps.push(c)[0] == caps[0]);
        assert(caps.push(c).drop_first() =~= caps.drop_first().push(c));
        lemma_apply_captures_push(replace_first(t, caps[0], ph), caps.drop_first(), c, ph);
    }
}

/// Where the first match lands, a match really sits.
pub proof fn lemma_first_match_is_match(t: Seq<char>, pat: Seq<char>, j: int)
    requires
        0 <= j,
        first_match_from(t, pat, j) >= 0,
    ensures
        ({
            let i = first_match_from(t, pat, j);
            j <= i && match_at(t, pat, i)
        }),
    decreases t.len() - j + 1,
{
    if j + pat.len() > t.len() {
    } else if t.subrange(j, j + pat.len() as int) == pat {
    } else {
        lemma_first_match_is_match(t, pat, j + 1);
    }
}

/// `t@.subrange(i, i + pat.len()) == pat@`, decided by character comparison.
fn matches_at_exec(t: &str, pat: &str, i: usize, tlen: usize, plen: usize) -> (r: bool)
    requires
        tlen == t@.len(),
        plen == pat@.len(),
        i + plen <= tlen,
    ensures
        r == (t@.subrange(i as int, i + pat@.len()) == pat@),
{
    let mut j: usize = 0;
    while j < plen
        invariant
            tlen == t@.len(),
            plen == pat@.len(),
            i + plen <= tlen,
            j <= plen,
            forall|k: int| 0 <= k < j ==> t@[i + k] == pat@[k],
        decreases plen - j,
    {
        if t.get_char(i + j) != pat.get_char(j) {
            assert(t@.subrange(i as int, i + pat@.len())[j as int] != pat@[j as int]);
            return false;
        }
        j += 1;
    }
    assert(t@.subrange(i as int, i + pat@.len()) =~= pat@);
    true
}

/// Character index of the first occurrence of `pat` in `t`, if any.
pub fn find_first(t: &str, pat: &str) -> (r: Option<usize>)
    ensures
        r matches Some(i) ==> first_match_from(t@, pat@, 0) == i as int,
        r is None ==> first_match_from(t@, pat@, 0) == -1,
{
    let tlen = t.unicode_len();
    let plen = pat.unicode_len();
    if plen > tlen {
        return None;
    }
    let limit = tlen - plen;
    let mut i: usize = 0;
    loop
        invariant
            tlen == t@.len(),
            plen == pat@.len(),
            plen <= tlen,
            limit == tlen - plen,
            i <= limit,
            first_match_from(t@, pat@, 0) == first_match_from(t@, pat@, i as int),
        decreases limit - i,
    {
        if matches_at_exec(t, pat, i, tlen, plen) {
            return Some(i);
        }
        if i == limit {
            assert(first_match_from(t@, pat@, i + 1) == -1);
            return None;
        }
        i += 1;
    }
}

/// `t` with its first occurrence of `pat` (if any) replaced by `ph`.
pub fn replace_first_exec(t: &str, pat: &str, ph: &str) -> (r: String)
    ensures
        r@ == replace_first(t@, pat@, ph@),
{
    let tlen = t.unicode_len();
    let plen = pat.unicode_len();
    match find_first(t, pat) {
        None => t.to_owned(),
        Some(i) => {
            proof {
                lemma_first_match_is_match(t@, pat@, 0);
            }
            let mut out = String::from_str(t.substring_char(0, i));
            out.append(ph);
            out.append(t.substring_char(i + plen, tlen));
            out
        },
    }
}

/// Count of line-feed bytes among the first `upto` bytes of `b`.
pub fn count_newlines_before(b: &Vec<u8>, upto: usize) -> (r: usize)
    requires
        upto <= b@.len(),
    ensures
        r as int == nl_count(b@.take(upto as int)),
        r <= upto,
{
    let mut count: usize = 0;
    let mut i: usize = 0;
    while i < upto
        invariant
            i <= upto,
            upto <= b@.len(),
            count as int == nl_count(b@.take(i as int)),
            count <= i,
        decreases upto - i,
    {
        proof {
            assert(b@.take(i + 1).drop_last() =~= b@.take(i as int));
            assert(b@.take(i + 1).last() == b@[i as int]);
        }
        if b[i] == 10u8 {
            count += 1;
        }
        i += 1;
    }
    count
}

/// String equality, decided by character comparison.
pub fn eq_str(a: &str, b: &str) -> (r: bool)
    ensures
        r == (a@ == b@),
{
    let alen = a.unicode_len();
    let blen = b.unicode_len();
    if alen != blen {
        return false;
    }
    let mut i: usize = 0;
    while i < alen
        invariant
            alen == a@.len(),
            alen == b@.len(),
            i <= alen,
            forall|k: int| 0 <= k < i ==> a@[k] == b@[k],
        decreases alen - i,
    {
        if a.get_char(i) != b.get_char(i) {
            return false;
        }
        i += 1;
    }
    assert(a@ =~= b@);
    true
}

/// 1-based line number of byte offset `off` within `t`.
pub fn line_of_offset(t: &str, off: usize) -> (r: usize)
    requires
        off <= encode_utf8(t@).len(),
        off < usize::MAX,
    ensures
        r as int == line_at(t@, off as int),
{
    let b = t.as_bytes_vec();
    let c = count_newlines_before(&b, off);
    c + 1
}

} // verus!
