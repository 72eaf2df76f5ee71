//! Spelling tolerance for configuration names: a kind given on the command
//! line is tried as written, lower-cased, kebab-cased, and with
//! underscores as dashes, so `HoeffdingTree`, `hoeffding_tree` and
//! `hoeffding-tree` all name the same learner.
use crate::text::{
    lower_str, push_char, spec_lower, spec_lower_seq, spec_replace_char, replace_char, str_eq,
    spec_trim, trim,
};
use vstd::prelude::*;

verus! {

/// Is the character an ASCII capital?
pub open spec fn spec_is_upper(c: char) -> bool {
    'A' <= c && c <= 'Z'
}

/// Is the character an ASCII small letter?
pub open spec fn spec_is_lower(c: char) -> bool {
    'a' <= c && c <= 'z'
}

/// The kebab-cased text from position `i` on, knowing whether the previous
/// character was a small letter: a capital closes a word with a dash and
/// is lowered, an underscore becomes a dash, anything else passes through.
pub open spec fn spec_kebab_from(s: Seq<char>, i: int, prev_lower: bool) -> Seq<char>
    decreases s.len() - i,
{
    if i < 0 || i >= s.len() {
        Seq::<char>::empty()
    } else {
        let c = s[i];
        if spec_is_upper(c) {
            (if prev_lower {
                seq!['-']
            } else {
                Seq::<char>::empty()
            }) + seq![spec_lower(c)] + spec_kebab_from(s, i + 1, false)
        } else if c == '_' {
            seq!['-'] + spec_kebab_from(s, i + 1, false)
        } else {
            seq![c] + spec_kebab_from(s, i + 1, spec_is_lower(c))
        }
    }
}

/// The kebab-cased form of a token; an empty token lower-cases to itself.
pub open spec fn spec_kebab(s: Seq<char>) -> Seq<char> {
    if spec_kebab_from(s, 0, false).len() == 0 {
        spec_lower_seq(s)
    } else {
        spec_kebab_from(s, 0, false)
    }
}

/// Turns a camel-case or snake-case token into kebab case.
pub fn kebab_from_token(token: &str) -> (r: String)
    ensures
        r@ == spec_kebab(token@),
{
    let n = token.unicode_len();
    let mut buf = String::new();
    let mut prev_lower = false;
    let mut i: usize = 0;
    while i < n
        invariant
            0 <= i <= n,
            n == token@.len(),
            spec_kebab_from(token@, 0, false) == buf@ + spec_kebab_from(
                token@,
                i as int,
                prev_lower,
            ),
        decreases n - i,
    {
        let c = token.get_char(i);
        if 'A' <= c && c <= 'Z' {
            if prev_lower {
                push_char(&mut buf, '-');
            }
            push_char(&mut buf, (((c as u8) + 32) as u8) as char);
            prev_lower = false;
        } else if c == '_' {
            push_char(&mut buf, '-');
            prev_lower = false;
        } else {
            push_char(&mut buf, c);
            prev_lower = 'a' <= c && c <= 'z';
        }
        i = i + 1;
    }
    proof {
        assert(spec_kebab_from(token@, n as int, prev_lower) =~= Seq::<char>::empty());
        assert(buf@ + Seq::<char>::empty() =~= buf@);
    }
    if buf.unicode_len() == 0 {
        lower_str(token)
    } else {
        buf
    }
}

/// Is `x` one of the spellings tried for the trimmed input `t`?
pub open spec fn spec_is_candidate(x: Seq<char>, t: Seq<char>) -> bool {
    x == t || x == spec_lower_seq(t) || x == spec_kebab(t) || x == spec_replace_char(t, '_', '-')
}

/// Appends `c` unless an equal string is already there; either way the
/// returned index is where `c`'s text stands afterwards.
fn push_if_absent(v: &mut Vec<String>, c: String) -> (ix: usize)
    ensures
        ix < final(v)@.len(),
        final(v)@[ix as int]@ == c@,
        old(v)@.len() <= final(v)@.len() <= old(v)@.len() + 1,
        forall|i: int| 0 <= i < old(v)@.len() ==> final(v)@[i] == old(v)@[i],
        forall|i: int|
            0 <= i < final(v)@.len() ==> ((exists|j: int|
                0 <= j < old(v)@.len() && (#[trigger] final(v)@[i])@ == old(v)@[j]@)
                || final(v)@[i]@ == c@),
        (forall|i: int, j: int| 0 <= i < j < old(v)@.len() ==> old(v)@[i]@ != old(v)@[j]@) ==> (
        forall|i: int, j: int| 0 <= i < j < final(v)@.len() ==> final(v)@[i]@ != final(v)@[j]@),
{
    let mut i: usize = 0;
    while i < v.len()
        invariant
            0 <= i <= v@.len(),
            forall|j: int| 0 <= j < i ==> v@[j]@ != c@,
        decreases v@.len() - i,
    {
        if str_eq(v[i].as_str(), c.as_str()) {
            return i;
        }
        i = i + 1;
    }
    let ix = v.len();
    v.push(c);
    ix
}

/// The spellings under which a kind name is looked up: as written, lower
/// case, kebab case, and with underscores as dashes, each kept once.
/// Blank input offers nothing.
pub fn candidate_spellings(input: &str) -> (r: Vec<String>)
    ensures
        spec_trim(input@).len() == 0 ==> r@.len() == 0,
        forall|i: int| 0 <= i < r@.len() ==> spec_is_candidate((#[trigger] r@[i])@, spec_trim(input@)),
        spec_trim(input@).len() > 0 ==> {
            let t = spec_trim(input@);
            &&& exists|i: int| 0 <= i < r@.len() && (#[trigger] r@[i])@ == t
            &&& exists|i: int| 0 <= i < r@.len() && (#[trigger] r@[i])@ == spec_lower_seq(t)
            &&& exists|i: int| 0 <= i < r@.len() && (#[trigger] r@[i])@ == spec_kebab(t)
            &&& exists|i: int|
                0 <= i < r@.len() && (#[trigger] r@[i])@ == spec_replace_char(t, '_', '-')
        },
        forall|i: int, j: int| 0 <= i < j < r@.len() ==> (#[trigger] r@[i])@ != (#[trigger] r@[j])@,
{
    let trimmed = trim(input);
    let mut out: Vec<String> = Vec::new();
    if trimmed.unicode_len() == 0 {
        return out;
    }
    let ghost t = spec_trim(input@);

    let w1 = push_if_absent(&mut out, trimmed.to_owned());
    let ghost len1 = out@.len();
    let w2 = push_if_absent(&mut out, lower_str(trimmed));
    let ghost len2 = out@.len();
    let w3 = push_if_absent(&mut out, kebab_from_token(trimmed));
    let ghost len3 = out@.len();
    let w4 = push_if_absent(&mut out, replace_char(trimmed, '_', '-'));
    proof {
        assert(out@[w1 as int]@ == t);
        assert(out@[w2 as int]@ == spec_lower_seq(t));
        assert(out@[w3 as int]@ == spec_kebab(t));
        assert(out@[w4 as int]@ == spec_replace_char(t, '_', '-'));
        assert forall|i: int|
            0 <= i < out@.len() implies spec_is_candidate((#[trigger] out@[i])@, t) by {}
    }
    out
}

} // verus!
