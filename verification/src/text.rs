//! Small verified helpers over strings and character sequences, shared by the
//! parsers: equality and prefix tests, conversions between `&str` and
//! `Vec<char>`, and decimal rendering of numbers for error messages.

use vstd::prelude::*;

verus! {

/// `p` is a prefix of `s`.
pub open spec fn spec_starts_with(s: Seq<char>, p: Seq<char>) -> bool {
    p.len() <= s.len() && (forall|j: int| 0 <= j < p.len() ==> s[j] == p[j])
}

/// The view of an optional string.
pub open spec fn opt_str_view(o: Option<String>) -> Option<Seq<char>> {
    match o {
        Some(s) => Some(s@),
        None => None,
    }
}

/// Character-wise equality of two string slices.
pub fn str_eq(a: &str, b: &str) -> (r: bool)
    ensures
        r == (a@ == b@),
{
    let alen = a.unicode_len();
    let blen = b.unicode_len();
    if alen != blen {
        return false;
    }
    let mut i: usize = 0;
    while i < alen
        invariant
            alen == a@.len(),
            blen == b@.len(),
            alen == blen,
            i <= alen,
            forall|j: int| 0 <= j < i ==> a@[j] == b@[j],
        decreases alen - i,
    {
        if a.get_char(i) != b.get_char(i) {
            return false;
        }
        i = i + 1;
    }
    proof {
        assert(a@ =~= b@);
    }
    true
}

/// Character-wise prefix test.
pub fn str_starts_with(s: &str, p: &str) -> (r: bool)
    ensures
        r == spec_starts_with(s@, p@),
{
    let slen = s.unicode_len();
    let plen = p.unicode_len();
    if plen > slen {
        return false;
    }
    let mut i: usize = 0;
    while i < plen
        invariant
            slen == s@.len(),
            plen == p@.len(),
            plen <= slen,
            i <= plen,
            forall|j: int| 0 <= j < i ==> s@[j] == p@[j],
        decreases plen - i,
    {
        if s.get_char(i) != p.get_char(i) {
            return false;
        }
        i = i + 1;
    }
    true
}

/// `needle` occurs in `hay` starting at `k`.
pub open spec fn spec_contains_at(hay: Seq<char>, needle: Seq<char>, k: int) -> bool {
    0 <= k && k + needle.len() <= hay.len() && hay.subrange(k, k + needle.len()) == needle
}

/// `needle` occurs somewhere in `hay`.
pub open spec fn spec_contains(hay: Seq<char>, needle: Seq<char>) -> bool {
    exists|k: int| spec_contains_at(hay, needle, k)
}

/// Character-wise substring search.
pub fn str_contains(hay: &str, needle: &str) -> (r: bool)
    ensures
        r == spec_contains(hay@, needle@),
{
    let hlen = hay.unicode_len();
    let nlen = needle.unicode_len();
    if nlen > hlen {
        proof {
            assert(forall|k: int| !spec_contains_at(hay@, needle@, k));
        }
        return false;
    }
    if nlen == 0 {
        proof {
            assert(hay@.subrange(0, 0) =~= needle@);
            assert(spec_contains_at(hay@, needle@, 0));
        }
        return true;
    }
    let mut k: usize = 0;
    while k <= hlen - nlen
        invariant
            hlen == hay@.len(),
            nlen == needle@.len(),
            0 < nlen <= hlen,
            k <= hlen - nlen + 1,
            forall|q: int| 0 <= q < k ==> !spec_contains_at(hay@, needle@, q),
        decreases hlen + 1 - nlen - k,
    {
        let mut i: usize = 0;
        let mut hit = true;
        while i < nlen && hit
            invariant
                hlen == hay@.len(),
                nlen == needle@.len(),
                k + nlen <= hlen,
                i <= nlen,
                hit ==> forall|j: int| 0 <= j < i ==> hay@[k + j] == needle@[j],
                !hit ==> !spec_contains_at(hay@, needle@, k as int),
            decreases nlen - i,
        {
            if hay.get_char(k + i) != needle.get_char(i) {
                hit = false;
                proof {
                    assert(!spec_contains_at(hay@, needle@, k as int)) by {
                        if hay@.subrange(k as int, k + nlen) == needle@ {
                            assert(hay@.subrange(k as int, k + nlen)[i as int] == hay@[k + i]);
                        }
                    }
                }
                i = nlen;
            } else {
                i = i + 1;
            }
        }
        if hit {
            proof {
                assert(hay@.subrange(k as int, k + nlen) =~= needle@);
                assert(spec_contains_at(hay@, needle@, k as int));
            }
            return true;
        }
        k = k + 1;
    }
    proof {
        assert forall|q: int| !spec_contains_at(hay@, needle@, q) by {
            if 0 <= q && q + needle@.len() <= hay@.len() {
                assert(q < k);
            }
        }
    }
    false
}

/// Relies on `String::push` from std: appends one character to the string.
#[verifier::external_body]
pub fn push_char(s: &mut String, c: char)
    ensures
        final(s)@ == old(s)@.push(c),
{
    s.push(c);
}

/// The characters of `s`, as a vector.
pub fn chars_vec(s: &str) -> (r: Vec<char>)
    ensures
        r@ == s@,
{
    let n = s.unicode_len();
    let mut v: Vec<char> = Vec::new();
    let mut i: usize = 0;
    while i < n
        invariant
            n == s@.len(),
            i <= n,
            v@.len() == i,
            forall|j: int| 0 <= j < i ==> v@[j] == s@[j],
        decreases n - i,
    {
        v.push(s.get_char(i));
        i = i + 1;
    }
    proof {
        assert(v@ =~= s@);
    }
    v
}

/// The character for one decimal digit.
pub open spec fn dec_digit(d: nat) -> char {
    if d == 0 {
        '0'
    } else if d == 1 {
        '1'
    } else if d == 2 {
        '2'
    } else if d == 3 {
        '3'
    } else if d == 4 {
        '4'
    } else if d == 5 {
        '5'
    } else if d == 6 {
        '6'
    } else if d == 7 {
        '7'
    } else if d == 8 {
        '8'
    } else {
        '9'
    }
}

/// The usual decimal rendering of `n`, most significant digit first.
pub open spec fn spec_dec(n: nat) -> Seq<char>
    decreases n,
{
    if n < 10 {
        seq![dec_digit(n)]
    } else {
        spec_dec(n / 10).push(dec_digit(n % 10))
    }
}

fn dec_digit_char(d: usize) -> (c: char)
    requires
        d < 10,
    ensures
        c == dec_digit(d as nat),
{
    if d == 0 {
        '0'
    } else if d == 1 {
        '1'
    } else if d == 2 {
        '2'
    } else if d == 3 {
        '3'
    } else if d == 4 {
        '4'
    } else if d == 5 {
        '5'
    } else if d == 6 {
        '6'
    } else if d == 7 {
        '7'
    } else if d == 8 {
        '8'
    } else {
        '9'
    }
}

/// Renders `n` in decimal.
pub fn usize_to_string(n: usize) -> (r: String)
    ensures
        r@ == spec_dec(n as nat),
{
    let mut digits: Vec<char> = Vec::new();
    let mut m: usize = n;
    loop
        invariant_except_break
            m > 0 ==> spec_dec(n as nat) =~= spec_dec(m as nat) + digits@.reverse(),
            m == 0 ==> n == 0 && digits@.len() == 0,
        ensures
            spec_dec(n as nat) =~= digits@.reverse(),
        decreases m,
    {
        let d = m % 10;
        digits.push(dec_digit_char(d));
        let m2 = m / 10;
        proof {
            let dv = digits@;
            assert(dv.reverse() =~= seq![dec_digit((m % 10) as nat)] + dv.drop_last().reverse());
            if m2 > 0 {
                assert(spec_dec(m as nat) == spec_dec(m2 as nat).push(dec_digit((m % 10) as nat)));
                assert(spec_dec(m2 as nat).push(dec_digit((m % 10) as nat)) + dv.drop_last().reverse()
                    =~= spec_dec(m2 as nat) + dv.reverse());
            } else {
                assert(m < 10);
                assert(spec_dec(m as nat) =~= seq![dec_digit(m as nat)]);
                assert(spec_dec(m as nat) + dv.drop_last().reverse() =~= dv.reverse());
            }
        }
        m = m2;
        if m == 0 {
            break;
        }
    }
    let mut s = String::new();
    let mut i: usize = digits.len();
    while i > 0
        invariant
            i <= digits@.len(),
            s@.len() == digits@.len() - i,
            forall|j: int| 0 <= j < s@.len() ==> s@[j] == digits@[digits@.len() - 1 - j],
        decreases i,
    {
        i = i - 1;
        push_char(&mut s, digits[i]);
    }
    proof {
        assert(s@ =~= digits@.reverse());
    }
    s
}

} // verus!
