//! Small verified helpers over `&str` and `Seq<char>` that the rest of the
//! crate builds on: equality, trimming, case-insensitive prefix matching and
//! character search.
use vstd::prelude::*;

verus! {

/// The ASCII whitespace characters recognised when trimming header lines.
pub open spec fn spec_is_ws(c: char) -> bool {
    c == ' ' || c == '\t' || c == '\n' || c == '\r' || c == '\x0b' || c == '\x0c'
}

pub fn is_ws(c: char) -> (r: bool)
    ensures
        r == spec_is_ws(c),
{
    c == ' ' || c == '\t' || c == '\n' || c == '\r' || c == '\x0b' || c == '\x0c'
}

/// ASCII lower-casing of a single character.
pub open spec fn spec_lower(c: char) -> char {
    if 'A' <= c && c <= 'Z' {
        ((c as u8) + 32) as char
    } else {
        c
    }
}

pub fn lower(c: char) -> (r: char)
    ensures
        r == spec_lower(c),
{
    if 'A' <= c && c <= 'Z' {
        (((c as u8) + 32) as u8) as char
    } else {
        c
    }
}

/// Number of leading whitespace characters.
pub open spec fn spec_ws_prefix_len(s: Seq<char>) -> int
    decreases s.len(),
{
    if s.len() == 0 {
        0
    } else if spec_is_ws(s[0]) {
        1 + spec_ws_prefix_len(s.skip(1))
    } else {
        0
    }
}

pub proof fn lemma_ws_prefix_len_bounds(s: Seq<char>)
    ensures
        0 <= spec_ws_prefix_len(s) <= s.len(),
        forall|i: int| 0 <= i < spec_ws_prefix_len(s) ==> spec_is_ws(s[i]),
        spec_ws_prefix_len(s) < s.len() ==> !spec_is_ws(s[spec_ws_prefix_len(s)]),
    decreases s.len(),
{
    if s.len() > 0 && spec_is_ws(s[0]) {
        lemma_ws_prefix_len_bounds(s.skip(1));
        assert forall|i: int| 0 <= i < spec_ws_prefix_len(s) implies spec_is_ws(s[i]) by {
            if i > 0 {
                assert(s.skip(1)[i - 1] == s[i]);
            }
        }
        if spec_ws_prefix_len(s) < s.len() {
            assert(s.skip(1)[spec_ws_prefix_len(s) - 1] == s[spec_ws_prefix_len(s)]);
        }
    }
}

/// Number of trailing whitespace characters.
pub open spec fn spec_ws_suffix_len(s: Seq<char>) -> int
    decreases s.len(),
{
    if s.len() == 0 {
        0
    } else if spec_is_ws(s[s.len() - 1]) {
        1 + spec_ws_suffix_len(s.take(s.len() - 1))
    } else {
        0
    }
}

pub proof fn lemma_ws_suffix_len_bounds(s: Seq<char>)
    ensures
        0 <= spec_ws_suffix_len(s) <= s.len(),
        forall|i: int| s.len() - spec_ws_suffix_len(s) <= i < s.len() ==> spec_is_ws(s[i]),
        spec_ws_suffix_len(s) < s.len() ==> !spec_is_ws(s[s.len() - spec_ws_suffix_len(s) - 1]),
    decreases s.len(),
{
    if s.len() > 0 && spec_is_ws(s[s.len() - 1]) {
        lemma_ws_suffix_len_bounds(s.take(s.len() - 1));
        assert forall|i: int| s.len() - spec_ws_suffix_len(s) <= i < s.len() implies spec_is_ws(
            s[i],
        ) by {
            if i < s.len() - 1 {
                assert(s.take(s.len() - 1)[i] == s[i]);
            }
        }
        if spec_ws_suffix_len(s) < s.len() {
            let st = spec_ws_suffix_len(s.take(s.len() - 1));
            assert(s.take(s.len() - 1)[s.len() - st - 2] == s[s.len() - st - 2]);
        }
    }
}

/// What `trim` keeps: the sequence with leading and trailing whitespace gone.
pub open spec fn spec_trim(s: Seq<char>) -> Seq<char> {
    if spec_ws_prefix_len(s) == s.len() {
        Seq::<char>::empty()
    } else {
        s.subrange(spec_ws_prefix_len(s), s.len() - spec_ws_suffix_len(s))
    }
}

/// Index of the first character not counted by the leading-whitespace scan.
fn ws_prefix_len(s: &str) -> (r: usize)
    ensures
        r == spec_ws_prefix_len(s@),
{
    let n: usize = s.unicode_len();
    let mut i: usize = 0;
    while i < n && is_ws(s.get_char(i))
        invariant
            0 <= i <= n,
            n == s@.len(),
            forall|j: int| 0 <= j < i ==> spec_is_ws(s@[j]),
        decreases n - i,
    {
        i = i + 1;
    }
    proof {
        lemma_ws_prefix_len_bounds(s@);
        if i < n {
            // i is the first non-whitespace index, and so is the spec value
            if spec_ws_prefix_len(s@) < i {
                assert(spec_is_ws(s@[spec_ws_prefix_len(s@)]));
            }
            if spec_ws_prefix_len(s@) > i {
                assert(spec_is_ws(s@[i as int]));
            }
        } else {
            if spec_ws_prefix_len(s@) < i {
                assert(spec_is_ws(s@[spec_ws_prefix_len(s@)]));
            }
        }
    }
    i
}

fn ws_suffix_len(s: &str) -> (r: usize)
    ensures
        r == spec_ws_suffix_len(s@),
{
    let n: usize = s.unicode_len();
    let mut k: usize = 0;
    while k < n && is_ws(s.get_char(n - 1 - k))
        invariant
            0 <= k <= n,
            n == s@.len(),
            forall|j: int| n - k <= j < n ==> spec_is_ws(s@[j]),
        decreases n - k,
    {
        k = k + 1;
    }
    proof {
        lemma_ws_suffix_len_bounds(s@);
        if k < n {
            if spec_ws_suffix_len(s@) < k {
                assert(spec_is_ws(s@[n - spec_ws_suffix_len(s@) - 1]));
            }
            if spec_ws_suffix_len(s@) > k {
                assert(spec_is_ws(s@[n - k - 1]));
            }
        } else {
            if spec_ws_suffix_len(s@) < k {
                assert(spec_is_ws(s@[n - spec_ws_suffix_len(s@) - 1]));
            }
        }
    }
    k
}

/// Strips leading and trailing ASCII whitespace.
pub fn trim(s: &str) -> (r: &str)
    ensures
        r@ == spec_trim(s@),
{
    let n: usize = s.unicode_len();
    let a = ws_prefix_len(s);
    if a == n {
        proof {
            lemma_ws_prefix_len_bounds(s@);
        }
        let r = s.substring_char(n, n);
        proof {
            assert(r@ =~= spec_trim(s@));
        }
        r
    } else {
        let b = ws_suffix_len(s);
        proof {
            lemma_ws_prefix_len_bounds(s@);
            lemma_ws_suffix_len_bounds(s@);
            // the non-whitespace character at index ws_prefix_len limits the suffix
            if n - b < a {
                assert(spec_is_ws(s@[a as int]));
            }
        }
        let r = s.substring_char(a, n - b);
        proof {
            assert(r@ =~= spec_trim(s@));
        }
        r
    }
}

/// Character-for-character equality of two string slices.
pub fn str_eq(a: &str, b: &str) -> (r: bool)
    ensures
        r == (a@ == b@),
{
    let na: usize = a.unicode_len();
    let nb: usize = b.unicode_len();
    if na != nb {
        proof {
            assert(a@ != b@);
        }
        return false;
    }
    let mut i: usize = 0;
    while i < na
        invariant
            0 <= i <= na,
            na == a@.len(),
            na == b@.len(),
            forall|j: int| 0 <= j < i ==> a@[j] == b@[j],
        decreases na - i,
    {
        if a.get_char(i) != b.get_char(i) {
            proof {
                assert(a@ != b@);
            }
            return false;
        }
        i = i + 1;
    }
    proof {
        assert(a@ =~= b@);
    }
    true
}

/// Lower-cased (ASCII) view of a sequence of characters.
pub open spec fn spec_lower_seq(s: Seq<char>) -> Seq<char> {
    Seq::new(s.len(), |i: int| spec_lower(s[i]))
}

/// Does `s` start with `pat`, comparing ASCII-case-insensitively?
pub open spec fn spec_starts_with_lower(s: Seq<char>, pat: Seq<char>) -> bool {
    pat.len() <= s.len() && (forall|i: int| 0 <= i < pat.len() ==> spec_lower(s[i]) == pat[i])
}

/// Case-insensitive prefix test; `pat` is expected in lower case already.
pub fn starts_with_lower(s: &str, pat: &str) -> (r: bool)
    ensures
        r == spec_starts_with_lower(s@, pat@),
{
    let np: usize = pat.unicode_len();
    let ns: usize = s.unicode_len();
    if np > ns {
        return false;
    }
    let mut i: usize = 0;
    while i < np
        invariant
            0 <= i <= np,
            np == pat@.len(),
            ns == s@.len(),
            np <= ns,
            forall|j: int| 0 <= j < i ==> spec_lower(s@[j]) == pat@[j],
        decreases np - i,
    {
        if lower(s.get_char(i)) != pat.get_char(i) {
            return false;
        }
        i = i + 1;
    }
    true
}

/// Relies on String::push: the character is appended at the end.
#[verifier::external_body]
pub fn push_char(s: &mut String, c: char)
    ensures
        final(s)@ == old(s)@.push(c),
{
    s.push(c)
}

/// Lower-cases a string, character by character.
pub fn lower_str(s: &str) -> (r: String)
    ensures
        r@ == spec_lower_seq(s@),
{
    let n = s.unicode_len();
    let mut out = String::new();
    let mut i: usize = 0;
    while i < n
        invariant
            0 <= i <= n,
            n == s@.len(),
            out@ =~= spec_lower_seq(s@).take(i as int),
        decreases n - i,
    {
        push_char(&mut out, lower(s.get_char(i)));
        proof {
            assert(out@ =~= spec_lower_seq(s@).take(i + 1));
        }
        i = i + 1;
    }
    proof {
        assert(spec_lower_seq(s@).take(n as int) =~= spec_lower_seq(s@));
    }
    out
}

/// Every `from` replaced by `to`.
pub open spec fn spec_replace_char(s: Seq<char>, from: char, to: char) -> Seq<char> {
    Seq::new(
        s.len(),
        |i: int|
            if s[i] == from {
                to
            } else {
                s[i]
            },
    )
}

pub fn replace_char(s: &str, from: char, to: char) -> (r: String)
    ensures
        r@ == spec_replace_char(s@, from, to),
{
    let n = s.unicode_len();
    let mut out = String::new();
    let mut i: usize = 0;
    while i < n
        invariant
            0 <= i <= n,
            n == s@.len(),
            out@ =~= spec_replace_char(s@, from, to).take(i as int),
        decreases n - i,
    {
        let c = s.get_char(i);
        push_char(&mut out, if c == from { to } else { c });
        proof {
            assert(out@ =~= spec_replace_char(s@, from, to).take(i + 1));
        }
        i = i + 1;
    }
    proof {
        assert(spec_replace_char(s@, from, to).take(n as int) =~= spec_replace_char(s@, from, to));
    }
    out
}

/// Index of the first occurrence of `c` in `s`, if any.
pub open spec fn spec_find_char(s: Seq<char>, c: char) -> Option<int>
    decreases s.len(),
{
    if s.len() == 0 {
        None
    } else if s[0] == c {
        Some(0int)
    } else {
        match spec_find_char(s.skip(1), c) {
            Some(i) => Some(i + 1),
            None => None,
        }
    }
}

pub proof fn lemma_find_char(s: Seq<char>, c: char)
    ensures
        match spec_find_char(s, c) {
            Some(i) => 0 <= i < s.len() && s[i] == c && (forall|j: int| 0 <= j < i ==> s[j] != c),
            None => forall|j: int| 0 <= j < s.len() ==> s[j] != c,
        },
    decreases s.len(),
{
    if s.len() > 0 && s[0] != c {
        lemma_find_char(s.skip(1), c);
        assert forall|j: int| 0 <= j < s.len() && spec_find_char(s, c) is None implies s[j]
            != c by {
            if j > 0 {
                assert(s.skip(1)[j - 1] == s[j]);
            }
        }
        if spec_find_char(s.skip(1), c) is Some {
            let i = spec_find_char(s.skip(1), c)->Some_0;
            assert(s.skip(1)[i] == s[i + 1]);
            assert forall|j: int| 0 <= j < i + 1 implies s[j] != c by {
                if j > 0 {
                    assert(s.skip(1)[j - 1] == s[j]);
                }
            }
        }
    }
}

/// First occurrence of `c` at or after position `from`.
pub fn find_char_from(s: &str, c: char, from: usize) -> (r: Option<usize>)
    requires
        from <= s@.len(),
    ensures
        match r {
            Some(i) => from <= i < s@.len() && s@[i as int] == c && (forall|j: int|
                from <= j < i ==> s@[j] != c),
            None => forall|j: int| from <= j < s@.len() ==> s@[j] != c,
        },
{
    let n: usize = s.unicode_len();
    let mut i: usize = from;
    while i < n
        invariant
            from <= i <= n,
            n == s@.len(),
            forall|j: int| from <= j < i ==> s@[j] != c,
        decreases n - i,
    {
        if s.get_char(i) == c {
            return Some(i);
        }
        i = i + 1;
    }
    None
}

/// Last occurrence of `c` in `s`, if any.
pub fn rfind_char(s: &str, c: char) -> (r: Option<usize>)
    ensures
        match r {
            Some(i) => i < s@.len() && s@[i as int] == c && (forall|j: int|
                i < j < s@.len() ==> s@[j] != c),
            None => forall|j: int| 0 <= j < s@.len() ==> s@[j] != c,
        },
{
    let n: usize = s.unicode_len();
    let mut k: usize = 0;
    while k < n
        invariant
            0 <= k <= n,
            n == s@.len(),
            forall|j: int| n - k <= j < n ==> s@[j] != c,
        decreases n - k,
    {
        if s.get_char(n - 1 - k) == c {
            return Some(n - 1 - k);
        }
        k = k + 1;
    }
    None
}

} // verus!
