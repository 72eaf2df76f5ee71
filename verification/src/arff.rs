//! The ARFF header grammar: line classification, `@attribute` lines, whole
//! headers, and the data-row tokenizer.  Each parsing function is proved
//! equal to a functional description of the grammar over `Seq<char>`.
use crate::attributes::{Attribute, NominalAttribute, NumericAttribute};
use crate::instance_header::InstanceHeader;
use crate::text::{
    find_char_from, rfind_char, spec_find_char, lemma_find_char, spec_is_ws, is_ws,
    spec_starts_with_lower, starts_with_lower, spec_trim, trim,
};
use std::collections::HashMap;
use vstd::prelude::*;

verus! {

/// What went wrong while reading ARFF text.
#[derive(Clone, Copy, PartialEq, Eq, Structural, Debug)]
pub enum ParseErrorKind {
    /// A line or value that the grammar does not admit.
    InvalidData,
    /// The text ended before the `@data` marker.
    UnexpectedEof,
}

/// A parse failure: its kind and a line of context for the operator.
#[derive(Debug)]
pub struct ParseError {
    pub kind: ParseErrorKind,
    pub message: String,
}

impl ParseError {
    pub fn new(kind: ParseErrorKind, message: String) -> (r: ParseError)
        ensures
            r.kind == kind,
            r.message == message,
    {
        ParseError { kind, message }
    }
}

/// The type read from an `@attribute` line.
#[derive(Debug)]
pub enum AttributeKind {
    Numeric,
    Nominal(Vec<String>),
}

/// Lines that carry no content: blank ones and `%` comments.
pub open spec fn spec_is_comment_or_empty(s: Seq<char>) -> bool {
    spec_trim(s).len() == 0 || spec_trim(s)[0] == '%'
}

pub fn is_comment_or_empty(s: &str) -> (r: bool)
    ensures
        r == spec_is_comment_or_empty(s@),
{
    let t = trim(s);
    if t.unicode_len() == 0 {
        true
    } else {
        t.get_char(0) == '%'
    }
}

/// What surrounding-quote stripping keeps: the inside of a matched pair of
/// single or double quotes, or the text unchanged.
pub open spec fn spec_strip_quotes(s: Seq<char>) -> Seq<char> {
    if s.len() >= 2 && s[0] == s[s.len() - 1] && (s[0] == '\'' || s[0] == '"') {
        s.subrange(1, s.len() - 1)
    } else {
        s
    }
}

pub fn strip_surrounding_quotes(s: &str) -> (r: &str)
    ensures
        r@ == spec_strip_quotes(s@),
{
    let n = s.unicode_len();
    if n >= 2 {
        let first = s.get_char(0);
        let last = s.get_char(n - 1);
        if first == last && (first == '\'' || first == '"') {
            let r = s.substring_char(1, n - 1);
            proof {
                assert(r@ =~= spec_strip_quotes(s@));
            }
            return r;
        }
    }
    s
}

/// First whitespace position in `s`, if any.
pub open spec fn spec_find_ws(s: Seq<char>) -> Option<int>
    decreases s.len(),
{
    if s.len() == 0 {
        None
    } else if spec_is_ws(s[0]) {
        Some(0int)
    } else {
        match spec_find_ws(s.skip(1)) {
            Some(i) => Some(i + 1),
            None => None,
        }
    }
}

pub proof fn lemma_find_ws(s: Seq<char>)
    ensures
        match spec_find_ws(s) {
            Some(i) => 0 <= i < s.len() && spec_is_ws(s[i]) && (forall|j: int|
                0 <= j < i ==> !spec_is_ws(s[j])),
            None => forall|j: int| 0 <= j < s.len() ==> !spec_is_ws(s[j]),
        },
    decreases s.len(),
{
    if s.len() > 0 && !spec_is_ws(s[0]) {
        lemma_find_ws(s.skip(1));
        assert forall|j: int| 0 <= j < s.len() && spec_find_ws(s) is None implies !spec_is_ws(
            s[j],
        ) by {
            if j > 0 {
                assert(s.skip(1)[j - 1] == s[j]);
            }
        }
        if spec_find_ws(s.skip(1)) is Some {
            let i = spec_find_ws(s.skip(1))->Some_0;
            assert(s.skip(1)[i] == s[i + 1]);
            assert forall|j: int| 0 <= j < i + 1 implies !spec_is_ws(s[j]) by {
                if j > 0 {
                    assert(s.skip(1)[j - 1] == s[j]);
                }
            }
        }
    }
}

fn find_ws(s: &str) -> (r: Option<usize>)
    ensures
        match r {
            Some(i) => Some(i as int) == spec_find_ws(s@),
            None => spec_find_ws(s@) is None,
        },
{
    let n = s.unicode_len();
    let mut i: usize = 0;
    while i < n
        invariant
            0 <= i <= n,
            n == s@.len(),
            forall|j: int| 0 <= j < i ==> !spec_is_ws(s@[j]),
        decreases n - i,
    {
        if is_ws(s.get_char(i)) {
            proof {
                lemma_find_ws(s@);
            }
            return Some(i);
        }
        i = i + 1;
    }
    proof {
        lemma_find_ws(s@);
    }
    None
}

// --- the `@attribute` line grammar -------------------------------------

/// The name on an `@attribute` line and the text after it, or nothing when
/// the line is not one the grammar admits.  The name is quoted, running to
/// the matching quote, or unquoted, running to the first whitespace.
pub open spec fn spec_attr_name_split(rest: Seq<char>) -> Option<(Seq<char>, Seq<char>)> {
    if rest.len() > 0 && (rest[0] == '\'' || rest[0] == '"') {
        match spec_find_char(rest.skip(1), rest[0]) {
            Some(e) => Some(
                (rest.subrange(1, e + 1), spec_trim(rest.skip(e + 2))),
            ),
            None => None,
        }
    } else {
        match spec_find_ws(rest) {
            Some(w) => Some((rest.take(w), spec_trim(rest.skip(w + 1)))),
            None => None,
        }
    }
}

/// Does the type text declare a numeric attribute?
pub open spec fn spec_type_is_numeric(after: Seq<char>) -> bool {
    spec_starts_with_lower(after, "numeric"@) || spec_starts_with_lower(after, "real"@)
        || spec_starts_with_lower(after, "integer"@)
}

/// Pieces of `s` between commas, in order.
pub open spec fn spec_split_commas(s: Seq<char>) -> Seq<Seq<char>>
    decreases s.len(),
{
    match spec_find_char(s, ',') {
        None => seq![s],
        Some(i) => if 0 <= i < s.len() {
            seq![s.take(i)] + spec_split_commas(s.skip(i + 1))
        } else {
            seq![s]
        },
    }
}

/// One raw comma piece cleaned up: trimmed, then unquoted.
pub open spec fn spec_clean_value(p: Seq<char>) -> Seq<char> {
    spec_strip_quotes(spec_trim(p))
}

/// The nominal domain read from the comma pieces: each cleaned, empties
/// dropped.
pub open spec fn spec_clean_values(ps: Seq<Seq<char>>) -> Seq<Seq<char>>
    decreases ps.len(),
{
    if ps.len() == 0 {
        Seq::<Seq<char>>::empty()
    } else {
        let c = spec_clean_value(ps[0]);
        (if c.len() > 0 {
            seq![c]
        } else {
            Seq::<Seq<char>>::empty()
        }) + spec_clean_values(ps.skip(1))
    }
}

/// The domain declared by a brace group `{ ... }` whose inside is `inside`.
pub open spec fn spec_domain_of(inside: Seq<char>) -> Seq<Seq<char>> {
    spec_clean_values(spec_split_commas(inside))
}

/// Whether the whole `@attribute` line parses, in three steps: the
/// directive, the name, and the type.
pub open spec fn spec_attr_line_ok(s: Seq<char>) -> bool {
    let t = spec_trim(s);
    &&& spec_starts_with_lower(t, "@attribute"@)
    &&& spec_attr_name_split(spec_trim(t.skip(10))) is Some
    &&& {
        let after = spec_attr_name_split(spec_trim(t.skip(10)))->Some_0.1;
        ||| spec_type_is_numeric(after)
        ||| (after.len() > 0 && after[0] == '{' && spec_find_char(after.reverse(), '}') is Some
            && spec_domain_of(
            after.subrange(1, after.len() - 1 - spec_find_char(after.reverse(), '}')->Some_0),
        ).len() > 0)
    }
}

/// The name the line declares (meaningful when the line parses).
pub open spec fn spec_attr_name(s: Seq<char>) -> Seq<char> {
    spec_attr_name_split(spec_trim(spec_trim(s).skip(10)))->Some_0.0
}

/// The type text after the name.
pub open spec fn spec_attr_after(s: Seq<char>) -> Seq<char> {
    spec_attr_name_split(spec_trim(spec_trim(s).skip(10)))->Some_0.1
}

/// The nominal domain the line declares (meaningful when the line parses as
/// nominal).
pub open spec fn spec_attr_values(s: Seq<char>) -> Seq<Seq<char>> {
    let after = spec_attr_after(s);
    spec_domain_of(
        after.subrange(1, after.len() - 1 - spec_find_char(after.reverse(), '}')->Some_0),
    )
}

/// Splits `s` at every comma.
fn split_commas(s: &str) -> (r: Vec<String>)
    ensures
        r.deep_view() == spec_split_commas(s@),
    decreases s@.len(),
{
    let n = s.unicode_len();
    match find_char_from(s, ',', 0) {
        None => {
            proof {
                lemma_find_char(s@, ',');
                assert(spec_find_char(s@, ',') is None || s@[spec_find_char(s@, ',')->Some_0]
                    == ',');
            }
            let mut out: Vec<String> = Vec::new();
            out.push(s.to_owned());
            proof {
                assert(out.deep_view() =~= spec_split_commas(s@));
            }
            out
        },
        Some(i) => {
            proof {
                lemma_find_char(s@, ',');
                if spec_find_char(s@, ',') is None {
                    assert(s@[i as int] != ',');
                }
                let fi = spec_find_char(s@, ',')->Some_0;
                if fi < i {
                    assert(s@[fi] == ',');
                }
                if fi > i {
                    assert(s@[i as int] != ',');
                }
            }
            let head = s.substring_char(0, i).to_owned();
            let tail = s.substring_char(i + 1, n);
            let mut rest = split_commas(tail);
            rest.insert(0, head);
            proof {
                assert(head@ =~= s@.take(i as int));
                assert(tail@ =~= s@.skip(i + 1));
                assert(rest.deep_view() =~= spec_split_commas(s@));
            }
            rest
        },
    }
}

/// Cleans the comma pieces into the declared domain.
fn clean_values(ps: &Vec<String>) -> (r: Vec<String>)
    ensures
        r.deep_view() == spec_clean_values(ps.deep_view()),
{
    let mut out: Vec<String> = Vec::new();
    let mut i: usize = 0;
    while i < ps.len()
        invariant
            0 <= i <= ps@.len(),
            out.deep_view() == spec_clean_values(ps.deep_view().take(i as int)),
        decreases ps@.len() - i,
    {
        let t = trim(ps[i].as_str());
        let c = strip_surrounding_quotes(t);
        let ghost pre = out.deep_view();
        if c.unicode_len() > 0 {
            out.push(c.to_owned());
        }
        proof {
            lemma_clean_values_push(ps.deep_view(), i as int);
            assert(spec_clean_value(ps.deep_view()[i as int]) == c@);
            if c@.len() > 0 {
                assert(out.deep_view() =~= pre + seq![c@]);
            } else {
                assert(out.deep_view() =~= pre);
            }
        }
        i = i + 1;
    }
    proof {
        assert(ps.deep_view().take(ps@.len() as int) =~= ps.deep_view());
    }
    out
}

/// Cleaning a one-longer prefix appends that piece's contribution.
proof fn lemma_clean_values_push(ps: Seq<Seq<char>>, i: int)
    requires
        0 <= i < ps.len(),
    ensures
        spec_clean_values(ps.take(i + 1)) == spec_clean_values(ps.take(i)) + (if spec_clean_value(
            ps[i],
        ).len() > 0 {
            seq![spec_clean_value(ps[i])]
        } else {
            Seq::<Seq<char>>::empty()
        }),
    decreases i,
{
    if i == 0 {
        let p = ps.take(1);
        assert(p[0] == ps[0]);
        assert(p.skip(1) =~= Seq::<Seq<char>>::empty());
        assert(spec_clean_values(p.skip(1)) =~= Seq::<Seq<char>>::empty());
        assert(spec_clean_values(ps.take(0)) =~= Seq::<Seq<char>>::empty());
        assert(spec_clean_values(ps.take(1)) =~= spec_clean_values(ps.take(0)) + (
        if spec_clean_value(ps[0]).len() > 0 {
            seq![spec_clean_value(ps[0])]
        } else {
            Seq::<Seq<char>>::empty()
        }));
    } else {
        lemma_clean_values_push(ps.skip(1), i - 1);
        assert(ps.take(i + 1).skip(1) =~= ps.skip(1).take(i));
        assert(ps.take(i as int).skip(1) =~= ps.skip(1).take(i - 1));
        assert(ps.take(i + 1)[0] == ps[0]);
        assert(ps.take(i as int)[0] == ps[0]);
        assert(ps.skip(1)[i - 1] == ps[i]);
    }
}

/// Reads one `@attribute` line: its name, quoted or bare, and its type,
/// numeric or a nominal domain in braces.
pub fn parse_attribute_line(line: &str) -> (r: Result<(String, AttributeKind), ParseError>)
    ensures
        match r {
            Ok(p) => spec_attr_line_ok(line@) && p.0@ == spec_attr_name(line@) && (match p.1 {
                AttributeKind::Numeric => spec_type_is_numeric(spec_attr_after(line@)),
                AttributeKind::Nominal(vs) => !spec_type_is_numeric(spec_attr_after(line@))
                    && vs.deep_view() == spec_attr_values(line@),
            }),
            Err(e) => !spec_attr_line_ok(line@) && e.kind == ParseErrorKind::InvalidData,
        },
{
    let t = trim(line);
    if !starts_with_lower(t, "@attribute") {
        proof {
            reveal_strlit("@attribute");
        }
        return Err(
            ParseError::new(
                ParseErrorKind::InvalidData,
                String::from_str("Line is not '@attribute'"),
            ),
        );
    }
    proof {
        reveal_strlit("@attribute");
    }
    let tn = t.unicode_len();
    let after_directive = t.substring_char(10, tn);
    let rest = trim(after_directive);
    proof {
        assert(after_directive@ =~= spec_trim(line@).skip(10));
    }

    // the attribute's name, and what follows it
    let rn = rest.unicode_len();
    let name: String;
    let after: &str;
    if rn > 0 && (rest.get_char(0) == '\'' || rest.get_char(0) == '"') {
        let quote = rest.get_char(0);
        match find_char_from(rest, quote, 1) {
            None => {
                proof {
                    lemma_find_char(rest@.skip(1), quote);
                    if spec_find_char(rest@.skip(1), quote) is Some {
                        let e = spec_find_char(rest@.skip(1), quote)->Some_0;
                        assert(rest@.skip(1)[e] == rest@[e + 1]);
                    }
                }
                return Err(
                    ParseError::new(
                        ParseErrorKind::InvalidData,
                        String::from_str("Attribute name without closing quote marks"),
                    ),
                );
            },
            Some(e) => {
                proof {
                    lemma_find_char(rest@.skip(1), quote);
                    if spec_find_char(rest@.skip(1), quote) is None {
                        assert(rest@.skip(1)[e - 1] == rest@[e as int]);
                    } else {
                        let f = spec_find_char(rest@.skip(1), quote)->Some_0;
                        assert(rest@.skip(1)[f] == rest@[f + 1]);
                        if f + 1 < e {
                            assert(false);
                        }
                        if f + 1 > e {
                            assert(rest@.skip(1)[e - 1] == rest@[e as int]);
                            assert(false);
                        }
                    }
                }
                name = rest.substring_char(1, e).to_owned();
                after = trim(rest.substring_char(e + 1, rn));
                proof {
                    let sp = spec_attr_name_split(rest@);
                    assert(rest@.subrange(1, e as int) =~= name@);
                    assert(rest@.subrange(e + 1, rn as int) =~= rest@.skip(e as int + 1));
                    assert(sp is Some && sp->Some_0.0 == name@ && sp->Some_0.1 == after@);
                }
            },
        }
    } else {
        match find_ws(rest) {
            None => {
                return Err(
                    ParseError::new(
                        ParseErrorKind::InvalidData,
                        String::from_str("Attribute type is missing"),
                    ),
                );
            },
            Some(w) => {
                proof {
                    lemma_find_ws(rest@);
                }
                name = rest.substring_char(0, w).to_owned();
                after = trim(rest.substring_char(w + 1, rn));
                proof {
                    let sp = spec_attr_name_split(rest@);
                    assert(rest@.take(w as int) =~= name@);
                    assert(rest@.subrange(w as int + 1, rn as int) =~= rest@.skip(w + 1));
                    assert(sp is Some && sp->Some_0.0 == name@ && sp->Some_0.1 == after@);
                }
            },
        }
    }

    // the attribute's type
    if starts_with_lower(after, "numeric") || starts_with_lower(after, "real")
        || starts_with_lower(after, "integer") {
        proof {
            reveal_strlit("numeric");
            reveal_strlit("real");
            reveal_strlit("integer");
        }
        return Ok((name, AttributeKind::Numeric));
    }
    proof {
        reveal_strlit("numeric");
        reveal_strlit("real");
        reveal_strlit("integer");
    }

    let an = after.unicode_len();
    if an > 0 && after.get_char(0) == '{' {
        match rfind_char(after, '}') {
            None => {
                proof {
                    lemma_rfind_reverse(after@, '}');
                    if spec_find_char(after@.reverse(), '}') is Some {
                        let rp = spec_find_char(after@.reverse(), '}')->Some_0;
                        assert(0 <= rp < after@.reverse().len());
                        assert(after@[after@.len() - 1 - rp] == '}');
                        assert(false);
                    }
                }
                return Err(
                    ParseError::new(
                        ParseErrorKind::InvalidData,
                        String::from_str("Nominal set without closing '}'"),
                    ),
                );
            },
            Some(close) => {
                proof {
                    lemma_rfind_reverse(after@, '}');
                }
                let inside = after.substring_char(1, close);
                let parts = split_commas(inside);
                let values = clean_values(&parts);
                proof {
                    lemma_rfind_reverse(after@, '}');
                    if spec_find_char(after@.reverse(), '}') is None {
                        assert(after@[close as int] != '}');
                        assert(false);
                    }
                    let rev_pos = spec_find_char(after@.reverse(), '}')->Some_0;
                    assert(0 <= rev_pos < after@.reverse().len());
                    let p = after@.len() - 1 - rev_pos;
                    assert(after@[p] == '}');
                    // the backwards search and the reversed forwards search
                    // agree on the last brace
                    if (close as int) < p {
                        assert(after@[p] != '}');
                        assert(false);
                    }
                    if (close as int) > p {
                        assert(after@[close as int] != '}');
                        assert(false);
                    }
                    assert(inside@ =~= after@.subrange(1, after@.len() - 1 - rev_pos));
                }
                if values.len() == 0 {
                    return Err(
                        ParseError::new(
                            ParseErrorKind::InvalidData,
                            String::from_str("Empty nominal domain"),
                        ),
                    );
                }
                return Ok((name, AttributeKind::Nominal(values)));
            },
        }
    }

    Err(
        ParseError::new(
            ParseErrorKind::InvalidData,
            String::from_str("Attribute kind not supported"),
        ),
    )
}

// --- whole headers -----------------------------------------------------

/// What one `@attribute` line declares, as mathematical values.
pub struct AttrSpec {
    pub name: Seq<char>,
    pub numeric: bool,
    pub values: Seq<Seq<char>>,
}

/// The result of reading a header: the text ran out, a line at some index
/// was refused, or a relation name, attribute list and the index of the
/// first data line were found.
pub enum HeaderOutcome {
    Eof,
    Bad(int),
    Done(Option<Seq<char>>, Seq<AttrSpec>, int),
}

/// The relation name on an `@relation` line.
pub open spec fn spec_relation_name_of(l: Seq<char>) -> Seq<char> {
    spec_strip_quotes(spec_trim(spec_trim(l).skip(9)))
}

pub open spec fn spec_attr_of(l: Seq<char>) -> AttrSpec {
    AttrSpec {
        name: spec_attr_name(l),
        numeric: spec_type_is_numeric(spec_attr_after(l)),
        values: if spec_type_is_numeric(spec_attr_after(l)) {
            Seq::<Seq<char>>::empty()
        } else {
            spec_attr_values(l)
        },
    }
}

/// The first phase of reading a header: lines are scanned until an
/// `@relation` line fixes the name, or an `@attribute` or `@data` line ends
/// the search with no name; other lines are passed over.
pub open spec fn spec_seek_relation(lines: Seq<Seq<char>>, i: int) -> Option<
    (Option<Seq<char>>, int),
>
    decreases lines.len() - i,
{
    if i < 0 || i >= lines.len() {
        None
    } else {
        let l = lines[i];
        if spec_is_comment_or_empty(l) {
            spec_seek_relation(lines, i + 1)
        } else if spec_starts_with_lower(l, "@relation"@) {
            Some((Some(spec_relation_name_of(l)), i + 1))
        } else if spec_starts_with_lower(l, "@attribute"@) || spec_starts_with_lower(
            l,
            "@data"@,
        ) {
            Some((None, i))
        } else {
            spec_seek_relation(lines, i + 1)
        }
    }
}

/// The second phase: `@attribute` lines accumulate until `@data`; a line
/// that is neither, and not blank or a comment, is refused.
pub open spec fn spec_read_attrs(lines: Seq<Seq<char>>, i: int, acc: Seq<AttrSpec>)
    -> HeaderOutcome
    decreases lines.len() - i,
{
    if i < 0 || i >= lines.len() {
        HeaderOutcome::Eof
    } else {
        let l = lines[i];
        if spec_is_comment_or_empty(l) {
            spec_read_attrs(lines, i + 1, acc)
        } else if spec_starts_with_lower(l, "@attribute"@) {
            if spec_attr_line_ok(l) {
                spec_read_attrs(lines, i + 1, acc.push(spec_attr_of(l)))
            } else {
                HeaderOutcome::Bad(i)
            }
        } else if spec_starts_with_lower(l, "@data"@) {
            HeaderOutcome::Done(None, acc, i + 1)
        } else {
            HeaderOutcome::Bad(i)
        }
    }
}

/// Reading a whole header: the relation phase, then the attribute phase.
pub open spec fn spec_parse_header(lines: Seq<Seq<char>>) -> HeaderOutcome {
    match spec_seek_relation(lines, 0) {
        None => HeaderOutcome::Eof,
        Some((rel, i)) => match spec_read_attrs(lines, i, Seq::<AttrSpec>::empty()) {
            HeaderOutcome::Done(_, attrs, ds) => HeaderOutcome::Done(rel, attrs, ds),
            other => other,
        },
    }
}

/// Does the built attribute carry exactly what the line declared?
pub open spec fn spec_attr_matches(a: Attribute, s: AttrSpec) -> bool {
    match a {
        Attribute::Numeric(n) => s.numeric && n.name@ == s.name,
        Attribute::Nominal(n) => !s.numeric && n.name@ == s.name && n.values.deep_view()
            == s.values,
    }
}

/// Builds the descriptor an `@attribute` line declares, label-index cache
/// included.
fn build_attribute(name: String, kind: AttributeKind) -> (r: Attribute)
    ensures
        r.spec_name() == name@,
        match r {
            Attribute::Numeric(_) => kind is Numeric,
            Attribute::Nominal(n) => kind is Nominal && n.values.deep_view()
                == kind->Nominal_0.deep_view(),
        },
{
    match kind {
        AttributeKind::Numeric => Attribute::Numeric(NumericAttribute::new(name)),
        AttributeKind::Nominal(values) => {
            let mut map: HashMap<String, usize> = HashMap::new();
            let mut i: usize = 0;
            while i < values.len()
                invariant
                    0 <= i <= values@.len(),
                decreases values@.len() - i,
            {
                map.insert(values[i].clone(), i);
                i = i + 1;
            }
            let ghost gvalues = values.deep_view();
            let a = NominalAttribute::with_values(name, values, map);
            proof {
                assert(a.values.deep_view() =~= gvalues);
            }
            Attribute::Nominal(a)
        },
    }
}

/// The relation phase over the stored lines.
fn seek_relation(lines: &Vec<String>) -> (r: Result<(Option<String>, usize), ParseError>)
    ensures
        match r {
            Ok(p) => spec_seek_relation(lines.deep_view(), 0) == Some(
                (p.0.deep_view(), p.1 as int),
            ) && p.1 <= lines@.len(),
            Err(e) => spec_seek_relation(lines.deep_view(), 0) is None && e.kind
                == ParseErrorKind::UnexpectedEof,
        },
{
    let ghost ldv = lines.deep_view();
    let mut i: usize = 0;
    loop
        invariant
            0 <= i <= lines@.len(),
            ldv == lines.deep_view(),
            spec_seek_relation(ldv, 0) == spec_seek_relation(ldv, i as int),
        decreases lines@.len() - i,
    {
        if i >= lines.len() {
            return Err(
                ParseError::new(
                    ParseErrorKind::UnexpectedEof,
                    String::from_str("ARFF text ended before @data"),
                ),
            );
        }
        let line = lines[i].as_str();
        proof {
            assert(line@ == ldv[i as int]);
        }
        if is_comment_or_empty(line) {
            i = i + 1;
            continue;
        }
        if starts_with_lower(line, "@relation") {
            proof {
                reveal_strlit("@relation");
            }
            let t = trim(line);
            proof {
                crate::text::lemma_ws_prefix_len_bounds(line@);
                crate::text::lemma_ws_suffix_len_bounds(line@);
                // the nine characters of the directive are not whitespace,
                // so trimming keeps them
                assert forall|k: int| 0 <= k < 9 implies !spec_is_ws(line@[k]) by {
                    assert(crate::text::spec_lower(line@[k]) == "@relation"@[k]);
                    if spec_is_ws(line@[k]) {
                        assert(crate::text::spec_lower(line@[k]) == line@[k]);
                    }
                }
                if crate::text::spec_ws_prefix_len(line@) > 0 {
                    assert(spec_is_ws(line@[0]));
                }
                if crate::text::spec_ws_suffix_len(line@) > line@.len() - 9 {
                    assert(spec_is_ws(line@[8]));
                }
                assert(t@.len() >= 9);
            }
            let raw = t.substring_char(9, t.unicode_len());
            let rel = strip_surrounding_quotes(trim(raw)).to_owned();
            proof {
                assert(raw@ =~= spec_trim(line@).skip(9));
                assert(rel@ == spec_relation_name_of(ldv[i as int]));
            }
            return Ok((Some(rel), i + 1));
        }
        proof {
            reveal_strlit("@relation");
        }
        if starts_with_lower(line, "@attribute") || starts_with_lower(line, "@data") {
            proof {
                reveal_strlit("@attribute");
                reveal_strlit("@data");
            }
            return Ok((None, i));
        }
        proof {
            reveal_strlit("@attribute");
            reveal_strlit("@data");
        }
        i = i + 1;
    }
}

/// The attribute phase over the stored lines, from `start`.
fn read_attrs(lines: &Vec<String>, start: usize) -> (r: Result<(Vec<Attribute>, usize), ParseError>)
    requires
        start <= lines@.len(),
    ensures
        match r {
            Ok(p) => {
                &&& spec_read_attrs(lines.deep_view(), start as int, Seq::<AttrSpec>::empty())
                    matches HeaderOutcome::Done(_, attrs, ds) && ds == p.1 && attrs.len()
                    == p.0@.len() && (forall|k: int|
                    0 <= k < attrs.len() ==> spec_attr_matches(#[trigger] p.0@[k], attrs[k]))
            },
            Err(e) => match spec_read_attrs(
                lines.deep_view(),
                start as int,
                Seq::<AttrSpec>::empty(),
            ) {
                HeaderOutcome::Eof => e.kind == ParseErrorKind::UnexpectedEof,
                HeaderOutcome::Bad(_) => e.kind == ParseErrorKind::InvalidData,
                HeaderOutcome::Done(_, _, _) => false,
            },
        },
{
    let ghost ldv = lines.deep_view();
    let mut i: usize = start;
    let mut acc: Vec<Attribute> = Vec::new();
    let ghost mut gacc: Seq<AttrSpec> = Seq::<AttrSpec>::empty();
    loop
        invariant
            start <= i <= lines@.len(),
            ldv == lines.deep_view(),
            spec_read_attrs(ldv, start as int, Seq::<AttrSpec>::empty()) == spec_read_attrs(
                ldv,
                i as int,
                gacc,
            ),
            acc@.len() == gacc.len(),
            forall|k: int| 0 <= k < gacc.len() ==> spec_attr_matches(#[trigger] acc@[k], gacc[k]),
        decreases lines@.len() - i,
    {
        if i >= lines.len() {
            return Err(
                ParseError::new(
                    ParseErrorKind::UnexpectedEof,
                    String::from_str("ARFF text ended before @data"),
                ),
            );
        }
        let line = lines[i].as_str();
        proof {
            assert(line@ == ldv[i as int]);
        }
        if is_comment_or_empty(line) {
            i = i + 1;
            continue;
        }
        if starts_with_lower(line, "@attribute") {
            proof {
                reveal_strlit("@attribute");
            }
            match parse_attribute_line(line) {
                Ok((name, kind)) => {
                    let a = build_attribute(name, kind);
                    proof {
                        assert(spec_attr_matches(a, spec_attr_of(ldv[i as int])));
                    }
                    acc.push(a);
                    proof {
                        gacc = gacc.push(spec_attr_of(ldv[i as int]));
                    }
                    i = i + 1;
                    continue;
                },
                Err(e) => {
                    return Err(e);
                },
            }
        }
        proof {
            reveal_strlit("@attribute");
        }
        if starts_with_lower(line, "@data") {
            proof {
                reveal_strlit("@data");
            }
            return Ok((acc, i + 1));
        }
        proof {
            reveal_strlit("@data");
        }
        return Err(
            ParseError::new(
                ParseErrorKind::InvalidData,
                String::from_str("Unsupported header directive"),
            ),
        );
    }
}

/// Reads a header from its lines: an optional `@relation` line, `@attribute`
/// lines, then `@data`.  `class_index` names the class column; when absent
/// the last attribute is the class, as the wire format prescribes.  The
/// returned index is the line on which data starts.
pub fn parse_header(lines: &Vec<String>, class_index: Option<usize>) -> (r: Result<
    (InstanceHeader, usize),
    ParseError,
>)
    ensures
        match r {
            Ok(p) => {
                &&& spec_parse_header(lines.deep_view()) matches HeaderOutcome::Done(rel, attrs, ds)
                    && ds == p.1 && p.0.relation_name@ == (match rel {
                    Some(n) => n,
                    None => "unnamed_relation"@,
                }) && p.0.attributes@.len() == attrs.len() && (forall|k: int|
                    0 <= k < attrs.len() ==> spec_attr_matches(
                        #[trigger] p.0.attributes@[k],
                        attrs[k],
                    )) && p.0.spec_class_index() == (match class_index {
                    Some(ci) => ci as int,
                    None => if attrs.len() > 0 {
                        attrs.len() - 1
                    } else {
                        0
                    },
                })
            },
            Err(e) => match spec_parse_header(lines.deep_view()) {
                HeaderOutcome::Eof => e.kind == ParseErrorKind::UnexpectedEof,
                HeaderOutcome::Bad(_) => e.kind == ParseErrorKind::InvalidData,
                HeaderOutcome::Done(_, _, _) => false,
            },
        },
{
    let (rel, start) = match seek_relation(lines) {
        Ok(p) => p,
        Err(e) => {
            return Err(e);
        },
    };
    let (attrs, data_start) = match read_attrs(lines, start) {
        Ok(p) => p,
        Err(e) => {
            return Err(e);
        },
    };
    let relation = match rel {
        Some(n) => n,
        None => String::from_str("unnamed_relation"),
    };
    let n_attrs = attrs.len();
    let ci = match class_index {
        Some(ci) => ci,
        None => if n_attrs > 0 {
            n_attrs - 1
        } else {
            0
        },
    };
    Ok((InstanceHeader::new(relation, attrs, ci), data_start))
}

// --- writing headers back out ------------------------------------------

/// The serialized form of a header: its `@relation` line, one line per
/// attribute, and the `@data` marker.
pub fn header_to_arff_lines(header: &InstanceHeader) -> (r: Vec<String>)
    ensures
        r@.len() == header.attributes@.len() + 2,
        r@[0]@ == "@relation "@ + header.spec_relation_name(),
        forall|k: int|
            0 <= k < header.attributes@.len() ==> r@[k + 1]@
                == header.attributes@[k].spec_arff_representation(),
        r@[r@.len() - 1]@ == "@data"@,
{
    let mut out: Vec<String> = Vec::new();
    let mut first = String::from_str("@relation ");
    first.append(header.relation_name());
    out.push(first);
    let mut k: usize = 0;
    while k < header.attributes.len()
        invariant
            0 <= k <= header.attributes@.len(),
            out@.len() == k + 1,
            out@[0]@ == "@relation "@ + header.spec_relation_name(),
            forall|j: int|
                0 <= j < k ==> out@[j + 1]@ == header.attributes@[j].spec_arff_representation(),
        decreases header.attributes@.len() - k,
    {
        let line = header.attributes[k].arff_representation();
        out.push(line);
        k = k + 1;
    }
    out.push(String::from_str("@data"));
    out
}

// --- the round trip ----------------------------------------------------

/// A name that survives the trip through an `@attribute` line: it has
/// characters, none of them whitespace, and does not open like a quote.
pub open spec fn spec_wf_name(n: Seq<char>) -> bool {
    &&& n.len() > 0
    &&& forall|i: int| 0 <= i < n.len() ==> !spec_is_ws(n[i])
    &&& n[0] != '\''
    &&& n[0] != '"'
}

/// A nominal label that survives the trip: it has characters, starts and
/// ends off whitespace, contains no comma and no closing brace, and does
/// not look like a quoted pair.
pub open spec fn spec_wf_value(v: Seq<char>) -> bool {
    &&& v.len() > 0
    &&& !spec_is_ws(v[0])
    &&& !spec_is_ws(v[v.len() - 1])
    &&& forall|i: int| 0 <= i < v.len() ==> v[i] != ',' && v[i] != '}'
    &&& !(v.len() >= 2 && v[0] == v[v.len() - 1] && (v[0] == '\'' || v[0] == '"'))
}

/// A relation name that survives its line: nonempty, trimmed, and not
/// quote-shaped.
pub open spec fn spec_wf_relation(n: Seq<char>) -> bool {
    &&& n.len() > 0
    &&& !spec_is_ws(n[0])
    &&& !spec_is_ws(n[n.len() - 1])
    &&& !(n.len() >= 2 && n[0] == n[n.len() - 1] && (n[0] == '\'' || n[0] == '"'))
}

/// An attribute whose name and, for a nominal one, labels are all
/// well-formed.
pub open spec fn spec_wf_attribute(a: Attribute) -> bool {
    match a {
        Attribute::Numeric(n) => spec_wf_name(n.name@),
        Attribute::Nominal(n) => spec_wf_name(n.name@) && n.values.deep_view().len() > 0 && (forall|
            i: int,
        | 0 <= i < n.values.deep_view().len() ==> spec_wf_value(n.values.deep_view()[i])),
    }
}

/// Trimming does not touch text that starts and ends off whitespace.
proof fn lemma_trim_id(s: Seq<char>)
    requires
        s.len() > 0,
        !spec_is_ws(s[0]),
        !spec_is_ws(s[s.len() - 1]),
    ensures
        spec_trim(s) == s,
{
    crate::text::lemma_ws_prefix_len_bounds(s);
    crate::text::lemma_ws_suffix_len_bounds(s);
    if crate::text::spec_ws_prefix_len(s) > 0 {
        assert(spec_is_ws(s[0]));
    }
    if crate::text::spec_ws_suffix_len(s) > 0 {
        assert(spec_is_ws(s[s.len() - 1]));
    }
    assert(spec_trim(s) =~= s);
}

/// A whitespace-fronted, otherwise clean tail trims to the text past the
/// front blank.
proof fn lemma_trim_one_space(s: Seq<char>)
    requires
        s.len() >= 2,
        spec_is_ws(s[0]),
        !spec_is_ws(s[1]),
        !spec_is_ws(s[s.len() - 1]),
    ensures
        spec_trim(s) == s.skip(1),
{
    crate::text::lemma_ws_prefix_len_bounds(s);
    crate::text::lemma_ws_suffix_len_bounds(s);
    let p = crate::text::spec_ws_prefix_len(s);
    if p == 0 {
        assert(!spec_is_ws(s[0]));
    }
    if p > 1 {
        assert(spec_is_ws(s[1]));
    }
    if crate::text::spec_ws_suffix_len(s) > 0 {
        assert(spec_is_ws(s[s.len() - 1]));
    }
    assert(spec_trim(s) =~= s.skip(1));
}

/// The first whitespace of a well-formed name followed by a blank and a
/// tail is the blank after the name.
proof fn lemma_find_ws_after_name(rest: Seq<char>, name: Seq<char>)
    requires
        spec_wf_name(name),
        rest.len() > name.len(),
        forall|i: int| 0 <= i < name.len() ==> rest[i] == name[i],
        spec_is_ws(rest[name.len() as int]),
    ensures
        spec_find_ws(rest) == Some(name.len() as int),
{
    lemma_find_ws(rest);
    match spec_find_ws(rest) {
        Some(w) => {
            if w < name.len() {
                assert(!spec_is_ws(name[w]));
                assert(rest[w] == name[w]);
            }
            if w > name.len() {
                assert(!spec_is_ws(rest[name.len() as int]));
            }
        },
        None => {
            assert(!spec_is_ws(rest[name.len() as int]));
        },
    }
}

/// Heads the join of two or more labels: the first label, the separator,
/// then the join of the rest.
proof fn lemma_join_head(vs: Seq<Seq<char>>)
    requires
        vs.len() >= 2,
    ensures
        crate::attributes::spec_join_comma(vs) == vs[0] + ", "@ + crate::attributes::spec_join_comma(
            vs.skip(1),
        ),
    decreases vs.len(),
{
    let n = vs.len() as int;
    if n == 2 {
        assert(vs.take(1) =~= seq![vs[0]]);
        assert(vs.skip(1) =~= seq![vs[1]]);
        assert(crate::attributes::spec_join_comma(vs.take(1)) == vs[0]);
        assert(crate::attributes::spec_join_comma(vs.skip(1)) == vs[1]);
    } else {
        lemma_join_head(vs.take(n - 1));
        assert(vs.take(n - 1).len() >= 2);
        assert(vs.take(n - 1)[0] == vs[0]);
        assert(vs.take(n - 1).skip(1) =~= vs.skip(1).take(n - 2));
        assert(vs.skip(1)[n - 2] == vs[n - 1]);
        assert(vs.skip(1).take(n - 2) =~= vs.skip(1).take(vs.skip(1).len() - 1));
        // join(vs) = join(take(n-1)) + ", " + last
        //          = (vs[0] + ", " + join(skip(1).take(n-2))) + ", " + last
        //          = vs[0] + ", " + join(skip(1))
        assert(crate::attributes::spec_join_comma(vs.skip(1)) == crate::attributes::spec_join_comma(
            vs.skip(1).take(n - 2),
        ) + ", "@ + vs[n - 1]);
        assert(crate::attributes::spec_join_comma(vs) =~= vs[0] + ", "@
            + crate::attributes::spec_join_comma(vs.skip(1)));
    }
}

/// No comma stands in a padded label, so nothing splits it.
proof fn lemma_no_comma_no_split(s: Seq<char>)
    requires
        forall|i: int| 0 <= i < s.len() ==> s[i] != ',',
    ensures
        spec_find_char(s, ',') is None,
{
    lemma_find_char(s, ',');
    match spec_find_char(s, ',') {
        Some(i) => {
            assert(s[i] == ',');
        },
        None => {},
    }
}

/// A padded label cleans back to itself.
proof fn lemma_clean_padded(v: Seq<char>, lead: int, tail: int)
    requires
        spec_wf_value(v),
        0 <= lead,
        0 <= tail,
    ensures
        spec_clean_value(spec_pad(v, lead, tail)) == v,
    decreases lead + tail,
{
    assert(lead + tail >= 0);
    let s = spec_pad(v, lead, tail);
    if lead == 0 && tail == 0 {
        assert(s =~= v);
        lemma_trim_id(v);
    } else {
        crate::text::lemma_ws_prefix_len_bounds(s);
        crate::text::lemma_ws_suffix_len_bounds(s);
        if lead > 0 {
            assert(s.skip(1) =~= spec_pad(v, lead - 1, tail));
            lemma_clean_padded(v, lead - 1, tail);
            lemma_trim_skip_front(s);
        } else {
            assert(s.take(s.len() - 1) =~= spec_pad(v, lead, tail - 1));
            lemma_clean_padded(v, lead, tail - 1);
            lemma_trim_drop_back(s);
        }
    }
}

/// `v` with `lead` blanks in front and `tail` blanks behind.
pub open spec fn spec_pad(v: Seq<char>, lead: int, tail: int) -> Seq<char>
    decreases
            (if lead > 0 {
                lead
            } else {
                0
            }) + (if tail > 0 {
                tail
            } else {
                0
            }),
{
    if lead > 0 {
        seq![' '] + spec_pad(v, lead - 1, tail)
    } else if tail > 0 {
        spec_pad(v, lead, tail - 1) + seq![' ']
    } else {
        v
    }
}

/// Trimming swallows a leading blank.
proof fn lemma_trim_skip_front(s: Seq<char>)
    requires
        s.len() > 0,
        spec_is_ws(s[0]),
    ensures
        spec_trim(s) == spec_trim(s.skip(1)),
{
    crate::text::lemma_ws_prefix_len_bounds(s);
    crate::text::lemma_ws_prefix_len_bounds(s.skip(1));
    crate::text::lemma_ws_suffix_len_bounds(s);
    crate::text::lemma_ws_suffix_len_bounds(s.skip(1));
    let p = crate::text::spec_ws_prefix_len(s);
    assert(p == 1 + crate::text::spec_ws_prefix_len(s.skip(1)));
    if p == s.len() {
        assert(crate::text::spec_ws_prefix_len(s.skip(1)) == s.skip(1).len());
        assert(spec_trim(s) =~= spec_trim(s.skip(1)));
    } else {
        // the suffix scans agree because both stop at the same character
        lemma_ws_suffix_of_skip(s);
        assert(spec_trim(s) =~= spec_trim(s.skip(1)));
    }
}

/// Dropping the first character leaves the trailing-whitespace scan alone,
/// as long as something non-blank stands between.
proof fn lemma_ws_suffix_of_skip(s: Seq<char>)
    requires
        s.len() > 0,
        crate::text::spec_ws_prefix_len(s) < s.len(),
        spec_is_ws(s[0]),
    ensures
        crate::text::spec_ws_suffix_len(s.skip(1)) == crate::text::spec_ws_suffix_len(s),
{
    crate::text::lemma_ws_prefix_len_bounds(s);
    crate::text::lemma_ws_suffix_len_bounds(s);
    crate::text::lemma_ws_suffix_len_bounds(s.skip(1));
    let p = crate::text::spec_ws_prefix_len(s);
    let q = crate::text::spec_ws_suffix_len(s);
    let q1 = crate::text::spec_ws_suffix_len(s.skip(1));
    // the non-blank at index p bounds both scans
    assert(!spec_is_ws(s[p]));
    assert(p >= 1);
    if q > s.len() - 1 - p {
        assert(spec_is_ws(s[p]));
    }
    if q1 > s.skip(1).len() - p {
        assert(spec_is_ws(s.skip(1)[p - 1]));
    }
    if q1 < q {
        // s.skip(1) ends with at least q blanks
        assert(spec_is_ws(s.skip(1)[s.skip(1).len() - q1 - 1])) by {
            assert(s.skip(1)[s.skip(1).len() - q1 - 1] == s[s.len() - q1 - 1]);
        }
        assert(false);
    }
    if q1 > q {
        assert(spec_is_ws(s[s.len() - q - 1])) by {
            assert(s[s.len() - q - 1] == s.skip(1)[s.skip(1).len() - q - 1]);
        }
        assert(false);
    }
}

/// Trimming swallows a trailing blank.
proof fn lemma_trim_drop_back(s: Seq<char>)
    requires
        s.len() > 0,
        spec_is_ws(s[s.len() - 1]),
    ensures
        spec_trim(s) == spec_trim(s.take(s.len() - 1)),
{
    crate::text::lemma_ws_prefix_len_bounds(s);
    crate::text::lemma_ws_suffix_len_bounds(s);
    crate::text::lemma_ws_prefix_len_bounds(s.take(s.len() - 1));
    crate::text::lemma_ws_suffix_len_bounds(s.take(s.len() - 1));
    let t = s.take(s.len() - 1);
    let q = crate::text::spec_ws_suffix_len(s);
    assert(q == 1 + crate::text::spec_ws_suffix_len(t));
    let p = crate::text::spec_ws_prefix_len(s);
    let pt = crate::text::spec_ws_prefix_len(t);
    if p == s.len() {
        assert(pt == t.len()) by {
            if pt < t.len() {
                assert(!spec_is_ws(t[pt]));
                assert(t[pt] == s[pt]);
            }
        }
        assert(spec_trim(s) =~= spec_trim(t));
    } else {
        assert(p <= s.len() - q);
        assert(pt == p) by {
            if pt < p {
                assert(!spec_is_ws(t[pt]));
                assert(t[pt] == s[pt]);
            }
            if pt > p {
                assert(p < t.len());
                assert(spec_is_ws(t[p]));
                assert(t[p] == s[p]);
            }
        }
        assert(spec_trim(s) =~= spec_trim(t));
    }
}

/// A blank-padded join of well-formed labels splits and cleans back to the
/// labels themselves.
proof fn lemma_domain_of_join(vs: Seq<Seq<char>>)
    requires
        vs.len() >= 1,
        forall|i: int| 0 <= i < vs.len() ==> spec_wf_value(#[trigger] vs[i]),
    ensures
        spec_domain_of(seq![' '] + crate::attributes::spec_join_comma(vs) + seq![' ']) == vs,
    decreases vs.len(),
{
    reveal_strlit(", ");
    let s = seq![' '] + crate::attributes::spec_join_comma(vs) + seq![' '];
    if vs.len() == 1 {
        let v = vs[0];
        assert(crate::attributes::spec_join_comma(vs) == v);
        assert(spec_pad(v, 0, 0) == v);
        assert(spec_pad(v, 0, 1) =~= v + seq![' ']);
        assert(s =~= spec_pad(v, 1, 1)) by {
            assert(spec_pad(v, 1, 1) =~= seq![' '] + (v + seq![' ']));
        }
        assert(forall|i: int| 0 <= i < s.len() ==> s[i] != ',') by {
            assert(forall|i: int| 1 <= i < s.len() - 1 ==> s[i] == v[i - 1]);
        }
        lemma_no_comma_no_split(s);
        assert(spec_split_commas(s) == seq![s]);
        lemma_clean_padded(v, 1, 1);
        assert(spec_clean_value(s) == v);
        assert(seq![s].skip(1) =~= Seq::<Seq<char>>::empty());
        assert(spec_wf_value(v));
        assert(spec_clean_value(seq![s][0]) == v);
        assert(spec_clean_values(Seq::<Seq<char>>::empty()) == Seq::<Seq<char>>::empty());
        assert(spec_clean_values(seq![s].skip(1)) == Seq::<Seq<char>>::empty());
        assert(spec_clean_values(seq![s]) =~= seq![v]);
        assert(spec_domain_of(s) =~= vs);
    } else {
        let v = vs[0];
        let rest = vs.skip(1);
        lemma_join_head(vs);
        // s = " " + v + "," + (" " + join(rest) + " ")
        let tail = seq![' '] + crate::attributes::spec_join_comma(rest) + seq![' '];
        assert(", "@ =~= seq![',', ' ']);
        assert(crate::attributes::spec_join_comma(vs) =~= v + seq![',', ' ']
            + crate::attributes::spec_join_comma(rest));
        assert(s =~= (seq![' '] + v) + seq![','] + tail);
        let cut = 1 + v.len() as int;
        assert(s[cut] == ',');
        assert(forall|i: int| 0 <= i < cut ==> s[i] != ',') by {
            assert(s[0] == ' ');
            assert(forall|i: int| 1 <= i < cut ==> s[i] == v[i - 1]);
        }
        lemma_find_char(s, ',');
        match spec_find_char(s, ',') {
            None => {
                assert(s[cut] != ',');
                assert(false);
            },
            Some(f) => {
                if f < cut {
                    assert(s[f] != ',');
                    assert(false);
                }
                if f > cut {
                    assert(s[cut] != ',');
                    assert(false);
                }
                assert(f == cut);
            },
        }
        assert(spec_split_commas(s) == seq![s.take(cut)] + spec_split_commas(s.skip(cut + 1)));
        assert(spec_pad(v, 0, 0) == v);
        assert(s.take(cut) =~= spec_pad(v, 1, 0)) by {
            assert(spec_pad(v, 1, 0) =~= seq![' '] + v);
        }
        assert(s.skip(cut + 1) =~= tail);
        lemma_domain_of_join(rest);
        lemma_clean_padded(v, 1, 0);
        assert(spec_clean_value(s.take(cut)) == v);
        let parts = spec_split_commas(s);
        assert(parts[0] == s.take(cut));
        assert(parts.skip(1) =~= spec_split_commas(tail));
        assert(spec_clean_values(parts) =~= seq![v] + spec_clean_values(spec_split_commas(tail)));
        assert(seq![v] + rest =~= vs);
    }
}

/// Writing an attribute line and reading it back yields the attribute: its
/// name, its kind, and, for a nominal attribute, its domain, exactly.
#[verifier::rlimit(60)]
pub proof fn lemma_attribute_round_trip(a: Attribute)
    requires
        spec_wf_attribute(a),
    ensures
        spec_attr_line_ok(a.spec_arff_representation()),
        spec_attr_name(a.spec_arff_representation()) == a.spec_name(),
        match a {
            Attribute::Numeric(_) => spec_type_is_numeric(
                spec_attr_after(a.spec_arff_representation()),
            ),
            Attribute::Nominal(nom) => !spec_type_is_numeric(
                spec_attr_after(a.spec_arff_representation()),
            ) && spec_attr_values(a.spec_arff_representation()) == nom.values.deep_view(),
        },
{
    reveal_strlit("@attribute ");
    reveal_strlit("@attribute");
    reveal_strlit(" numeric");
    reveal_strlit("numeric");
    reveal_strlit("real");
    reveal_strlit("integer");
    reveal_strlit(" { ");
    reveal_strlit(" }");
    let name = a.spec_name();
    let line = a.spec_arff_representation();
    let tail: Seq<char> = match a {
        Attribute::Numeric(_) => " numeric"@,
        Attribute::Nominal(nom) => " { "@ + crate::attributes::spec_join_comma(
            nom.values.deep_view(),
        ) + " }"@,
    };
    assert(line =~= "@attribute "@ + name + tail);
    assert(tail.len() >= 2);
    let last = line[line.len() - 1];
    assert(last == tail[tail.len() - 1]);
    match a {
        Attribute::Numeric(_) => {
            assert(last == 'c');
        },
        Attribute::Nominal(_) => {
            assert(last == '}');
        },
    }
    assert(line[0] == '@');
    lemma_trim_id(line);

    // the directive
    assert(spec_starts_with_lower(line, "@attribute"@)) by {
        assert forall|i: int| 0 <= i < 10 implies crate::text::spec_lower(line[i])
            == "@attribute"@[i] by {
            assert(line[i] == "@attribute "@[i]);
        }
    }

    // the name
    let rest0 = line.skip(10);
    assert(rest0[0] == ' ');
    assert(rest0[1] == name[0]);
    assert(rest0[rest0.len() - 1] == last);
    lemma_trim_one_space(rest0);
    let rest = spec_trim(line.skip(10));
    assert(rest =~= name + tail);
    assert(rest[0] == name[0]);
    assert(forall|i: int| 0 <= i < name.len() ==> rest[i] == name[i]);
    assert(rest[name.len() as int] == tail[0]);
    assert(tail[0] == ' ');
    lemma_find_ws_after_name(rest, name);
    let sp = spec_attr_name_split(rest);
    assert(sp is Some);
    assert(sp->Some_0.0 =~= name);
    let after0 = rest.skip(name.len() as int + 1);
    assert(after0 =~= tail.skip(1));
    let after = sp->Some_0.1;
    assert(after == spec_trim(after0));

    match a {
        Attribute::Numeric(_) => {
            assert(after0 =~= "numeric"@);
            lemma_trim_id(after0);
            assert(after =~= "numeric"@);
            assert(spec_starts_with_lower(after, "numeric"@)) by {
                assert(forall|i: int|
                    0 <= i < 7 ==> crate::text::spec_lower(after[i]) == "numeric"@[i]);
            }
        },
        Attribute::Nominal(nom) => {
            let vs = nom.values.deep_view();
            let join = crate::attributes::spec_join_comma(vs);
            assert(after0 =~= seq!['{', ' '] + join + seq![' ', '}']);
            assert(after0[0] == '{');
            assert(after0[after0.len() - 1] == '}');
            lemma_trim_id(after0);
            assert(after == after0);
            // not a numeric declaration: the brace differs from each
            // pattern's first character
            assert(!spec_starts_with_lower(after, "numeric"@)) by {
                if spec_starts_with_lower(after, "numeric"@) {
                    assert(crate::text::spec_lower(after[0]) == "numeric"@[0]);
                }
            }
            assert(!spec_starts_with_lower(after, "real"@)) by {
                if spec_starts_with_lower(after, "real"@) {
                    assert(crate::text::spec_lower(after[0]) == "real"@[0]);
                }
            }
            assert(!spec_starts_with_lower(after, "integer"@)) by {
                if spec_starts_with_lower(after, "integer"@) {
                    assert(crate::text::spec_lower(after[0]) == "integer"@[0]);
                }
            }
            // the last brace closes the domain
            assert(after.reverse()[0] == '}');
            assert(spec_find_char(after.reverse(), '}') == Some(0int));
            let inside = after.subrange(1, after.len() - 1);
            assert(inside =~= seq![' '] + join + seq![' ']);
            lemma_domain_of_join(vs);
            assert(spec_domain_of(inside) == vs);
            assert(vs.len() > 0);
            assert(spec_attr_line_ok(line));
            assert(spec_attr_values(line) == vs);
        },
    }
}

/// A header whose relation name and attributes all survive serialization.
pub open spec fn spec_wf_header(h: &InstanceHeader) -> bool {
    &&& spec_wf_relation(h.spec_relation_name())
    &&& forall|k: int|
        0 <= k < h.attributes@.len() ==> spec_wf_attribute(#[trigger] h.attributes@[k])
}

/// An attribute's own line is neither blank nor a comment, announces
/// itself as an `@attribute` line, and parses back to the attribute.
proof fn lemma_attr_line_classified(a: Attribute)
    requires
        spec_wf_attribute(a),
    ensures
        !spec_is_comment_or_empty(a.spec_arff_representation()),
        spec_starts_with_lower(a.spec_arff_representation(), "@attribute"@),
        spec_attr_line_ok(a.spec_arff_representation()),
        spec_attr_matches(a, spec_attr_of(a.spec_arff_representation())),
{
    lemma_attribute_round_trip(a);
    reveal_strlit("@attribute ");
    reveal_strlit("@attribute");
    let line = a.spec_arff_representation();
    let name = a.spec_name();
    assert(forall|i: int| 0 <= i < 11 ==> line[i] == "@attribute "@[i]);
    assert(spec_starts_with_lower(line, "@attribute"@)) by {
        assert(forall|i: int|
            0 <= i < 10 ==> crate::text::spec_lower(line[i]) == "@attribute"@[i]);
    }
    // a line that opens a directive is no comment
    reveal_strlit(" numeric");
    reveal_strlit(" }");
    let tail: Seq<char> = match a {
        Attribute::Numeric(_) => " numeric"@,
        Attribute::Nominal(nom) => " { "@ + crate::attributes::spec_join_comma(
            nom.values.deep_view(),
        ) + " }"@,
    };
    reveal_strlit(" { ");
    assert(line =~= "@attribute "@ + name + tail);
    assert(line[line.len() - 1] == tail[tail.len() - 1]);
    match a {
        Attribute::Numeric(_) => {
            assert(line[line.len() - 1] == 'c');
        },
        Attribute::Nominal(_) => {
            assert(line[line.len() - 1] == '}');
        },
    }
    assert(line[0] == '@');
    lemma_trim_id(line);
    assert(!spec_is_comment_or_empty(line));
}

/// The attribute phase read off the serialized lines: every attribute line
/// joins the accumulator, and the closing `@data` line ends the phase one
/// past itself.
proof fn lemma_read_attrs_of_serialized(
    lines: Seq<Seq<char>>,
    h: &InstanceHeader,
    i: int,
    acc: Seq<AttrSpec>,
)
    requires
        spec_wf_header(h),
        lines.len() == h.attributes@.len() + 2,
        forall|k: int|
            0 <= k < h.attributes@.len() ==> lines[k + 1] == (
            #[trigger] h.attributes@[k]).spec_arff_representation(),
        lines[lines.len() - 1] == "@data"@,
        1 <= i <= h.attributes@.len() + 1,
    ensures
        spec_read_attrs(lines, i, acc) matches HeaderOutcome::Done(rel0, fin, ds) && rel0 is None
            && ds == lines.len() && fin.len() == acc.len() + (h.attributes@.len() + 1 - i) && (
        forall|j: int| 0 <= j < acc.len() ==> (#[trigger] fin[j]) == acc[j]) && (forall|j: int|
            0 <= j < h.attributes@.len() + 1 - i ==> (#[trigger] fin[acc.len() + j])
                == spec_attr_of(lines[i + j])),
    decreases h.attributes@.len() + 1 - i,
{
    let n = h.attributes@.len() as int;
    reveal_strlit("@data");
    reveal_strlit("@attribute");
    if i == n + 1 {
        // the data marker
        let l = lines[i];
        assert(l == "@data"@);
        assert(l[0] == '@');
        assert(l[l.len() - 1] == 'a');
        lemma_trim_id(l);
        assert(!spec_is_comment_or_empty(l));
        assert(!spec_starts_with_lower(l, "@attribute"@));
        assert(spec_starts_with_lower(l, "@data"@)) by {
            assert(forall|k: int| 0 <= k < 5 ==> crate::text::spec_lower(l[k]) == "@data"@[k]);
        }
        assert(spec_read_attrs(lines, i, acc) == HeaderOutcome::Done(
            None::<Seq<char>>,
            acc,
            i + 1,
        ));
    } else {
        let a = h.attributes@[i - 1];
        lemma_attr_line_classified(a);
        assert(lines[i] == a.spec_arff_representation());
        lemma_read_attrs_of_serialized(lines, h, i + 1, acc.push(spec_attr_of(lines[i])));
        assert(spec_read_attrs(lines, i, acc) == spec_read_attrs(
            lines,
            i + 1,
            acc.push(spec_attr_of(lines[i])),
        ));
        let fin = spec_read_attrs(lines, i, acc)->Done_1;
        let acc2 = acc.push(spec_attr_of(lines[i]));
        assert forall|j: int| 0 <= j < n + 1 - i implies (#[trigger] fin[acc.len() + j])
            == spec_attr_of(lines[i + j]) by {
            if j == 0 {
                assert(fin[acc.len() as int] == acc2[acc.len() as int]);
                assert(acc2[acc.len() as int] == spec_attr_of(lines[i]));
            } else {
                assert(fin[acc2.len() + (j - 1)] == spec_attr_of(lines[i + 1 + (j - 1)]));
                assert(acc2.len() + (j - 1) == acc.len() + j);
            }
        }
    }
}

/// Writing a well-formed header out and reading the lines back yields the
/// same relation name, the same attributes in the same order, and data
/// starting right past the written lines.
pub proof fn lemma_header_round_trip(lines: Seq<Seq<char>>, h: &InstanceHeader)
    requires
        spec_wf_header(h),
        lines.len() == h.attributes@.len() + 2,
        lines[0] == "@relation "@ + h.spec_relation_name(),
        forall|k: int|
            0 <= k < h.attributes@.len() ==> lines[k + 1] == (
            #[trigger] h.attributes@[k]).spec_arff_representation(),
        lines[lines.len() - 1] == "@data"@,
    ensures
        spec_parse_header(lines) matches HeaderOutcome::Done(rel, attrs, ds) && rel == Some(
            h.spec_relation_name(),
        ) && ds == lines.len() && attrs.len() == h.attributes@.len() && (forall|k: int|
            0 <= k < attrs.len() ==> spec_attr_matches(#[trigger] h.attributes@[k], attrs[k])),
{
    let n = h.attributes@.len() as int;
    let rel = h.spec_relation_name();
    reveal_strlit("@relation ");
    reveal_strlit("@relation");
    let l0 = lines[0];
    assert(l0 =~= "@relation "@ + rel);
    assert(l0[0] == '@');
    assert(l0[l0.len() - 1] == rel[rel.len() - 1]);
    lemma_trim_id(l0);
    assert(!spec_is_comment_or_empty(l0));
    assert(spec_starts_with_lower(l0, "@relation"@)) by {
        assert(forall|i: int| 0 <= i < 10 ==> l0[i] == "@relation "@[i]);
        assert(forall|i: int| 0 <= i < 9 ==> crate::text::spec_lower(l0[i]) == "@relation"@[i]);
    }
    // the relation name comes back out of its line
    let rest0 = spec_trim(l0).skip(9);
    assert(rest0 =~= seq![' '] + rel);
    assert(rest0[0] == ' ');
    assert(rest0[1] == rel[0]);
    assert(rest0[rest0.len() - 1] == rel[rel.len() - 1]);
    lemma_trim_one_space(rest0);
    assert(rest0.skip(1) =~= rel);
    assert(spec_relation_name_of(l0) == rel);
    assert(spec_seek_relation(lines, 0) == Some((Some(rel), 1int)));

    lemma_read_attrs_of_serialized(lines, h, 1, Seq::<AttrSpec>::empty());
    let fin = spec_read_attrs(lines, 1, Seq::<AttrSpec>::empty())->Done_1;
    assert forall|k: int| 0 <= k < n implies spec_attr_matches(
        #[trigger] h.attributes@[k],
        fin[k],
    ) by {
        lemma_attr_line_classified(h.attributes@[k]);
        assert(fin[0 + k] == spec_attr_of(lines[1 + k]));
    }
}

// --- data rows ---------------------------------------------------------

/// One cell of a data row, classified but not yet converted: the `?`
/// marker, a nominal label resolved to its domain index, or the text of a
/// numeric value, left for the caller to read as a number.
#[derive(Debug)]
pub enum DataToken {
    Missing,
    NominalIndex(usize),
    NumericText(String),
}

/// Position of the first comma at quote depth zero, scanning from `i` with
/// `q` holding the quote currently open.
pub open spec fn spec_csv_find(s: Seq<char>, i: int, q: Option<char>) -> Option<int>
    decreases s.len() - i,
{
    if i < 0 || i >= s.len() {
        None
    } else {
        let c = s[i];
        match q {
            None => if c == ',' {
                Some(i)
            } else if c == '\'' || c == '"' {
                spec_csv_find(s, i + 1, Some(c))
            } else {
                spec_csv_find(s, i + 1, None)
            },
            Some(qc) => if c == qc {
                spec_csv_find(s, i + 1, None)
            } else {
                spec_csv_find(s, i + 1, q)
            },
        }
    }
}

pub proof fn lemma_csv_find_range(s: Seq<char>, i: int, q: Option<char>)
    requires
        0 <= i,
    ensures
        spec_csv_find(s, i, q) matches Some(j) ==> i <= j < s.len(),
    decreases s.len() - i,
{
    if 0 <= i < s.len() {
        lemma_csv_find_range(s, i + 1, Some(s[i]));
        lemma_csv_find_range(s, i + 1, None);
        lemma_csv_find_range(s, i + 1, q);
    }
}

/// The pieces of a data row: split on commas, but commas inside single or
/// double quotes do not split.
pub open spec fn spec_split_csv(s: Seq<char>) -> Seq<Seq<char>>
    decreases s.len(),
{
    match spec_csv_find(s, 0, None) {
        None => seq![s],
        Some(i) => if 0 <= i < s.len() {
            seq![s.take(i)] + spec_split_csv(s.skip(i + 1))
        } else {
            seq![s]
        },
    }
}

/// Finds the first splitting comma.
fn csv_find(s: &str) -> (r: Option<usize>)
    ensures
        match r {
            Some(i) => Some(i as int) == spec_csv_find(s@, 0, None),
            None => spec_csv_find(s@, 0, None) is None,
        },
{
    let n = s.unicode_len();
    let mut i: usize = 0;
    let mut q: Option<char> = None;
    while i < n
        invariant
            0 <= i <= n,
            n == s@.len(),
            spec_csv_find(s@, 0, None) == spec_csv_find(s@, i as int, q),
        decreases n - i,
    {
        let c = s.get_char(i);
        match q {
            None => {
                if c == ',' {
                    return Some(i);
                } else if c == '\'' || c == '"' {
                    q = Some(c);
                }
            },
            Some(qc) => {
                if c == qc {
                    q = None;
                }
            },
        }
        i = i + 1;
    }
    None
}

/// Splits a data row on its unquoted commas.
pub fn split_csv_preserving_quotes(s: &str) -> (r: Vec<String>)
    ensures
        r.deep_view() == spec_split_csv(s@),
    decreases s@.len(),
{
    let n = s.unicode_len();
    match csv_find(s) {
        None => {
            let mut out: Vec<String> = Vec::new();
            out.push(s.to_owned());
            proof {
                assert(out.deep_view() =~= spec_split_csv(s@));
            }
            out
        },
        Some(i) => {
            proof {
                lemma_csv_find_range(s@, 0, None);
            }
            let head = s.substring_char(0, i).to_owned();
            let tail = s.substring_char(i + 1, n);
            let mut rest = split_csv_preserving_quotes(tail);
            rest.insert(0, head);
            proof {
                assert(head@ =~= s@.take(i as int));
                assert(tail@ =~= s@.skip(i + 1));
                assert(rest.deep_view() =~= spec_split_csv(s@));
            }
            rest
        },
    }
}

/// Is the cell the missing-value marker?
pub open spec fn spec_cell_missing(cell: Seq<char>) -> bool {
    spec_trim(cell) == "?"@
}

/// Index of the last domain label equal to `key`, the entry a cached
/// label-index table built by later-wins insertion would give.
pub open spec fn spec_nominal_lookup(values: Seq<Seq<char>>, key: Seq<char>) -> Option<int>
    decreases values.len(),
{
    if values.len() == 0 {
        None
    } else if values[values.len() - 1] == key {
        Some(values.len() - 1)
    } else {
        spec_nominal_lookup(values.take(values.len() - 1), key)
    }
}

pub proof fn lemma_nominal_lookup(values: Seq<Seq<char>>, key: Seq<char>)
    ensures
        match spec_nominal_lookup(values, key) {
            Some(i) => 0 <= i < values.len() && values[i] == key && (forall|j: int|
                i < j < values.len() ==> values[j] != key),
            None => forall|j: int| 0 <= j < values.len() ==> values[j] != key,
        },
    decreases values.len(),
{
    if values.len() > 0 && values[values.len() - 1] != key {
        let t = values.take(values.len() - 1);
        lemma_nominal_lookup(t, key);
        assert(forall|j: int| 0 <= j < t.len() ==> t[j] == values[j]);
        match spec_nominal_lookup(t, key) {
            Some(i) => {
                assert(values[i] == key);
                assert forall|j: int| i < j < values.len() implies values[j] != key by {
                    if j < values.len() - 1 {
                        assert(t[j] != key);
                    }
                }
            },
            None => {
                assert forall|j: int| 0 <= j < values.len() implies values[j] != key by {
                    if j < values.len() - 1 {
                        assert(t[j] != key);
                    }
                }
            },
        }
    }
}

/// Does the cell resolve against the attribute in its column?
pub open spec fn spec_cell_ok(a: Attribute, cell: Seq<char>) -> bool {
    spec_cell_missing(cell) || match a {
        Attribute::Numeric(_) => true,
        Attribute::Nominal(n) => spec_nominal_lookup(
            n.values.deep_view(),
            spec_strip_quotes(spec_trim(cell)),
        ) is Some,
    }
}

/// The token a cell yields under its column's attribute.
pub open spec fn spec_token_matches(t: DataToken, a: Attribute, cell: Seq<char>) -> bool {
    match t {
        DataToken::Missing => spec_cell_missing(cell),
        DataToken::NumericText(s) => !spec_cell_missing(cell) && a is Numeric && s@ == spec_trim(
            cell,
        ),
        DataToken::NominalIndex(ix) => !spec_cell_missing(cell) && a is Nominal
            && spec_nominal_lookup(
            a->Nominal_0.values.deep_view(),
            spec_strip_quotes(spec_trim(cell)),
        ) == Some(ix as int),
    }
}

/// Index of the last domain label equal to `key`, the entry the cached
/// label-index table, built by later-wins insertion, holds for it.
fn nominal_index_of(nom: &NominalAttribute, key: &str) -> (r: Option<usize>)
    ensures
        match r {
            Some(ix) => spec_nominal_lookup(nom.values.deep_view(), key@) == Some(ix as int),
            None => spec_nominal_lookup(nom.values.deep_view(), key@) is None,
        },
{
    let mut j: usize = nom.values.len();
    proof {
        assert(nom.values.deep_view().take(nom.values.deep_view().len() as int)
            =~= nom.values.deep_view());
    }
    while j > 0
        invariant
            0 <= j <= nom.values@.len(),
            spec_nominal_lookup(nom.values.deep_view(), key@) == spec_nominal_lookup(
                nom.values.deep_view().take(j as int),
                key@,
            ),
        decreases j,
    {
        proof {
            assert(nom.values.deep_view().take(j as int)[j - 1] == nom.values.deep_view()[j - 1]);
            assert(nom.values.deep_view().take(j as int).take(j - 1) =~= nom.values.deep_view().take(
                j - 1,
            ));
        }
        if crate::text::str_eq(nom.values[j - 1].as_str(), key) {
            return Some(j - 1);
        }
        j = j - 1;
    }
    proof {
        assert(nom.values.deep_view().take(0) =~= Seq::<Seq<char>>::empty());
    }
    None
}

/// Splits a data row into classified cells: the missing marker, nominal
/// labels resolved to indices, and numeric text kept for the caller to read
/// as a number.  A row with the wrong arity, or a label outside its
/// domain, is refused.
pub fn parse_instance_tokens(header: &InstanceHeader, line: &str) -> (r: Result<
    Vec<DataToken>,
    ParseError,
>)
    ensures
        match r {
            Ok(toks) => {
                &&& spec_split_csv(line@).len() == header.attributes@.len()
                &&& toks@.len() == header.attributes@.len()
                &&& forall|k: int|
                    0 <= k < toks@.len() ==> spec_token_matches(
                        #[trigger] toks@[k],
                        header.attributes@[k],
                        spec_split_csv(line@)[k],
                    )
            },
            Err(e) => e.kind == ParseErrorKind::InvalidData && (spec_split_csv(line@).len()
                != header.attributes@.len() || exists|k: int|
                0 <= k < header.attributes@.len() && !spec_cell_ok(
                    #[trigger] header.attributes@[k],
                    spec_split_csv(line@)[k],
                )),
        },
{
    let tokens = split_csv_preserving_quotes(line);
    if tokens.len() != header.attributes.len() {
        return Err(
            ParseError::new(
                ParseErrorKind::InvalidData,
                String::from_str("Number of columns differs from number of attributes"),
            ),
        );
    }
    let ghost cells = spec_split_csv(line@);
    let mut out: Vec<DataToken> = Vec::new();
    let mut idx: usize = 0;
    while idx < tokens.len()
        invariant
            0 <= idx <= tokens@.len(),
            tokens@.len() == header.attributes@.len(),
            tokens.deep_view() == cells,
            cells == spec_split_csv(line@),
            out@.len() == idx,
            forall|k: int|
                0 <= k < idx ==> spec_token_matches(
                    #[trigger] out@[k],
                    header.attributes@[k],
                    cells[k],
                ),
        decreases tokens@.len() - idx,
    {
        let raw = trim(tokens[idx].as_str());
        proof {
            assert(tokens[idx as int]@ == cells[idx as int]);
        }
        if crate::text::str_eq(raw, "?") {
            proof {
                reveal_strlit("?");
            }
            out.push(DataToken::Missing);
            idx = idx + 1;
            continue;
        }
        proof {
            reveal_strlit("?");
        }
        match &header.attributes[idx] {
            Attribute::Numeric(_) => {
                out.push(DataToken::NumericText(raw.to_owned()));
            },
            Attribute::Nominal(nom) => {
                let key = strip_surrounding_quotes(raw);
                match nominal_index_of(nom, key) {
                    Some(ix) => {
                        out.push(DataToken::NominalIndex(ix));
                    },
                    None => {
                        return Err(
                            ParseError::new(
                                ParseErrorKind::InvalidData,
                                String::from_str("Nominal value not found in domain"),
                            ),
                        );
                    },
                }
            },
        }
        idx = idx + 1;
    }
    Ok(out)
}

/// A backwards search and a forwards search over the reversed text find the
/// same last occurrence.
proof fn lemma_rfind_reverse(s: Seq<char>, c: char)
    ensures
        match spec_find_char(s.reverse(), c) {
            Some(i) => 0 <= i && s.len() - 1 - i >= 0 && s[s.len() - 1 - i] == c && (forall|j: int|
                s.len() - 1 - i < j < s.len() ==> s[j] != c),
            None => forall|j: int| 0 <= j < s.len() ==> s[j] != c,
        },
{
    lemma_find_char(s.reverse(), c);
    match spec_find_char(s.reverse(), c) {
        Some(i) => {
            assert(s.reverse()[i] == s[s.len() - 1 - i]);
            assert forall|j: int| s.len() - 1 - i < j < s.len() implies s[j] != c by {
                let rj = s.len() - 1 - j;
                assert(s.reverse()[rj] == s[j]);
            }
        },
        None => {
            assert forall|j: int| 0 <= j < s.len() implies s[j] != c by {
                let rj = s.len() - 1 - j;
                assert(s.reverse()[rj] == s[j]);
            }
        },
    }
}

} // verus!
