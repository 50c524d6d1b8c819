//! Verified character-sequence utilities: equality, prefix and substring
//! tests, ASCII case folding, and decimal rendering.

use vstd::prelude::*;

verus! {

/// `p` is a prefix of `h`.
pub open spec fn has_prefix(h: Seq<char>, p: Seq<char>) -> bool {
    p.len() <= h.len() && h.subrange(0, p.len() as int) == p
}

/// `n` occurs somewhere inside `h` as a contiguous run.
pub open spec fn contains_seq(h: Seq<char>, n: Seq<char>) -> bool {
    exists|i: int| 0 <= i && i + n.len() <= h.len() && #[trigger] h.subrange(i, i + n.len() as int)
        == n
}

/// ASCII-only lower-casing of one character.
pub open spec fn ascii_lower_char(c: char) -> char {
    if 'A' <= c && c <= 'Z' {
        ((c as u8) + 32) as char
    } else {
        c
    }
}

/// ASCII-only lower-casing of a character sequence.
pub open spec fn ascii_lower(s: Seq<char>) -> Seq<char> {
    s.map_values(|c: char| ascii_lower_char(c))
}

/// Character-by-character string equality.
pub fn str_eq(a: &str, b: &str) -> (r: bool)
    ensures
        r == (a@ == b@),
{
    let alen = a.unicode_len();
    let blen = b.unicode_len();
    if alen != blen {
        return false;
    }
    let mut i: usize = 0;
    while i < alen
        invariant
            alen == a@.len(),
            alen == b@.len(),
            i <= alen,
            forall|k: int| 0 <= k < i ==> a@[k] == b@[k],
        decreases alen - i,
    {
        if a.get_char(i) != b.get_char(i) {
            return false;
        }
        i += 1;
    }
    proof {
        assert(a@ =~= b@);
    }
    true
}

/// Does `n` stand at position `i` of `h`?
fn matches_at(h: &str, n: &str, i: usize, nlen: usize) -> (r: bool)
    requires
        nlen == n@.len(),
        i + nlen <= h@.len(),
        i + nlen <= usize::MAX,
    ensures
        r == (h@.subrange(i as int, i + n@.len()) == n@),
{
    let mut j: usize = 0;
    while j < nlen
        invariant
            nlen == n@.len(),
            i + nlen <= h@.len(),
            i + nlen <= usize::MAX,
            j <= nlen,
            forall|t: int| 0 <= t < j ==> h@[i + t] == n@[t],
        decreases nlen - j,
    {
        if h.get_char(i + j) != n.get_char(j) {
            proof {
                assert(h@.subrange(i as int, i + n@.len())[j as int] != n@[j as int]);
            }
            return false;
        }
        j += 1;
    }
    proof {
        assert(h@.subrange(i as int, i + n@.len()) =~= n@);
    }
    true
}

/// Prefix test, exact over the views.
pub fn str_has_prefix(h: &str, p: &str) -> (r: bool)
    ensures
        r == has_prefix(h@, p@),
{
    let hlen = h.unicode_len();
    let plen = p.unicode_len();
    if plen > hlen {
        return false;
    }
    matches_at(h, p, 0, plen)
}

/// Substring search, exact over the views.
pub fn contains_substr(h: &str, n: &str) -> (r: bool)
    ensures
        r == contains_seq(h@, n@),
{
    let hlen = h.unicode_len();
    let nlen = n.unicode_len();
    if nlen > hlen {
        return false;
    }
    let mut i: usize = 0;
    loop
        invariant
            nlen == n@.len(),
            hlen == h@.len(),
            nlen <= hlen,
            i <= hlen - nlen,
            forall|k: int| 0 <= k < i ==> #[trigger] h@.subrange(k, k + n@.len() as int) != n@,
        decreases hlen - nlen - i,
    {
        if matches_at(h, n, i, nlen) {
            proof {
                assert(h@.subrange(i as int, i + n@.len()) == n@);
            }
            return true;
        }
        if i == hlen - nlen {
            proof {
                assert(forall|k: int|
                    0 <= k && k + n@.len() <= h@.len() ==> #[trigger] h@.subrange(
                        k,
                        k + n@.len() as int,
                    ) != n@);
            }
            return false;
        }
        i += 1;
    }
}

/// ASCII-case-insensitive string equality.
pub fn str_eq_ignore_case(a: &str, b: &str) -> (r: bool)
    ensures
        r == (ascii_lower(a@) == ascii_lower(b@)),
{
    let alen = a.unicode_len();
    let blen = b.unicode_len();
    if alen != blen {
        proof {
            assert(ascii_lower(a@).len() != ascii_lower(b@).len());
        }
        return false;
    }
    let mut i: usize = 0;
    while i < alen
        invariant
            alen == a@.len(),
            alen == b@.len(),
            i <= alen,
            forall|k: int| 0 <= k < i ==> ascii_lower_char(a@[k]) == ascii_lower_char(b@[k]),
        decreases alen - i,
    {
        if lower_char(a.get_char(i)) != lower_char(b.get_char(i)) {
            proof {
                assert(ascii_lower(a@)[i as int] != ascii_lower(b@)[i as int]);
            }
            return false;
        }
        i += 1;
    }
    proof {
        assert(ascii_lower(a@) =~= ascii_lower(b@));
    }
    true
}

/// ASCII-case-insensitive prefix test.
pub fn str_has_prefix_ignore_case(h: &str, p: &str) -> (r: bool)
    ensures
        r == has_prefix(ascii_lower(h@), ascii_lower(p@)),
{
    let hlen = h.unicode_len();
    let plen = p.unicode_len();
    if plen > hlen {
        return false;
    }
    let mut j: usize = 0;
    while j < plen
        invariant
            plen == p@.len(),
            hlen == h@.len(),
            plen <= hlen,
            j <= plen,
            forall|t: int| 0 <= t < j ==> ascii_lower_char(h@[t]) == ascii_lower_char(p@[t]),
        decreases plen - j,
    {
        if lower_char(h.get_char(j)) != lower_char(p.get_char(j)) {
            proof {
                assert(ascii_lower(h@).subrange(0, p@.len() as int)[j as int]
                    != ascii_lower(p@)[j as int]);
            }
            return false;
        }
        j += 1;
    }
    proof {
        assert(ascii_lower(h@).subrange(0, p@.len() as int) =~= ascii_lower(p@));
    }
    true
}

/// Executable ASCII lower-casing of one character.
pub fn lower_char(c: char) -> (r: char)
    ensures
        r == ascii_lower_char(c),
{
    if 'A' <= c && c <= 'Z' {
        ((c as u8) + 32) as char
    } else {
        c
    }
}

/// ASCII-only upper-casing of one character.
pub open spec fn ascii_upper_char(c: char) -> char {
    if 'a' <= c && c <= 'z' {
        ((c as u8) - 32) as char
    } else {
        c
    }
}

/// ASCII-only upper-casing of a character sequence.
pub open spec fn ascii_upper(s: Seq<char>) -> Seq<char> {
    s.map_values(|c: char| ascii_upper_char(c))
}

/// Executable ASCII upper-casing of one character.
pub fn upper_char(c: char) -> (r: char)
    ensures
        r == ascii_upper_char(c),
{
    if 'a' <= c && c <= 'z' {
        ((c as u8) - 32) as char
    } else {
        c
    }
}

/// ASCII lower-casing of a whole string.
pub fn ascii_lower_str(s: &str) -> (r: String)
    ensures
        r@ == ascii_lower(s@),
{
    let len = s.unicode_len();
    let mut out = String::new();
    let mut i: usize = 0;
    while i < len
        invariant
            len == s@.len(),
            i <= len,
            out@ == ascii_lower(s@).subrange(0, i as int),
        decreases len - i,
    {
        crate::deps::push_char(&mut out, lower_char(s.get_char(i)));
        i += 1;
        proof {
            assert(ascii_lower(s@).subrange(0, i as int) =~= ascii_lower(s@).subrange(
                0,
                i - 1,
            ).push(ascii_lower(s@)[i - 1]));
        }
    }
    proof {
        assert(ascii_lower(s@).subrange(0, ascii_lower(s@).len() as int) =~= ascii_lower(s@));
    }
    out
}

/// ASCII upper-casing of a whole string.
pub fn ascii_upper_str(s: &str) -> (r: String)
    ensures
        r@ == ascii_upper(s@),
{
    let len = s.unicode_len();
    let mut out = String::new();
    let mut i: usize = 0;
    while i < len
        invariant
            len == s@.len(),
            i <= len,
            out@ == ascii_upper(s@).subrange(0, i as int),
        decreases len - i,
    {
        crate::deps::push_char(&mut out, upper_char(s.get_char(i)));
        i += 1;
        proof {
            assert(ascii_upper(s@).subrange(0, i as int) =~= ascii_upper(s@).subrange(
                0,
                i - 1,
            ).push(ascii_upper(s@)[i - 1]));
        }
    }
    proof {
        assert(ascii_upper(s@).subrange(0, ascii_upper(s@).len() as int) =~= ascii_upper(s@));
    }
    out
}

/// Index of the first occurrence of `c` in `s`.
pub fn find_char(s: &str, c: char) -> (r: Option<usize>)
    ensures
        match r {
            Some(i) => i < s@.len() && s@[i as int] == c && forall|k: int|
                0 <= k < i ==> s@[k] != c,
            None => forall|k: int| 0 <= k < s@.len() ==> s@[k] != c,
        },
{
    let len = s.unicode_len();
    let mut i: usize = 0;
    while i < len
        invariant
            len == s@.len(),
            i <= len,
            forall|k: int| 0 <= k < i ==> s@[k] != c,
        decreases len - i,
    {
        if s.get_char(i) == c {
            return Some(i);
        }
        i += 1;
    }
    None
}

} // verus!
