use vstd::prelude::*;

use crate::types::strings_view;

verus! {

/// `s` with every match of `from`, taken from the left without overlaps,
/// replaced by `to`.
pub open spec fn replaced(s: Seq<char>, from: Seq<char>, to: Seq<char>) -> Seq<char>
    decreases s.len(),
{
    if from.len() == 0 || s.len() < from.len() {
        s
    } else if s.take(from.len() as int) == from {
        to + replaced(s.skip(from.len() as int), from, to)
    } else {
        seq![s[0]] + replaced(s.skip(1), from, to)
    }
}

/// The characters with Unicode's White_Space property.
pub open spec fn is_ws(c: char) -> bool {
    let n = c as u32;
    (0x9 <= n <= 0xd) || n == 0x20 || n == 0x85 || n == 0xa0 || n == 0x1680 || (0x2000 <= n
        <= 0x200a) || n == 0x2028 || n == 0x2029 || n == 0x202f || n == 0x205f || n == 0x3000
}

pub open spec fn trim_start(s: Seq<char>) -> Seq<char>
    decreases s.len(),
{
    if s.len() > 0 && is_ws(s[0]) {
        trim_start(s.skip(1))
    } else {
        s
    }
}

pub open spec fn trim_end(s: Seq<char>) -> Seq<char>
    decreases s.len(),
{
    if s.len() > 0 && is_ws(s.last()) {
        trim_end(s.drop_last())
    } else {
        s
    }
}

/// `s` without leading and trailing white space.
pub open spec fn trimmed(s: Seq<char>) -> Seq<char> {
    trim_end(trim_start(s))
}

/// The pieces of `s` between the occurrences of `c`; one piece more than
/// there are occurrences.
pub open spec fn split_on(s: Seq<char>, c: char) -> Seq<Seq<char>>
    decreases s.len(),
{
    if s.len() == 0 {
        seq![seq![]]
    } else {
        let rest = split_on(s.drop_last(), c);
        if s.last() == c {
            rest.push(seq![])
        } else {
            rest.update(rest.len() - 1, rest.last().push(s.last()))
        }
    }
}

/// `s` without the prefix `p`, where it starts with it.
pub open spec fn without_prefix(s: Seq<char>, p: Seq<char>) -> Seq<char> {
    if p.len() <= s.len() && s.take(p.len() as int) == p {
        s.skip(p.len() as int)
    } else {
        s
    }
}

pub open spec fn nbsp_entity() -> Seq<char> {
    seq!['&', 'n', 'b', 's', 'p', ';']
}

pub open spec fn amp_entity() -> Seq<char> {
    seq!['&', 'a', 'm', 'p', ';']
}

/// The text of `s` with the entities for a non-breaking space and an
/// ampersand decoded.
pub open spec fn decoded(s: Seq<char>) -> Seq<char> {
    replaced(replaced(s, nbsp_entity(), seq![' ']), amp_entity(), seq!['&'])
}

/// The middle dot that separates the components of a meal.
pub open spec fn component_sep() -> char {
    '\u{b7}'
}

/// `s` without later repetitions of an element; first occurrences keep their order.
pub open spec fn dedup(s: Seq<Seq<char>>) -> Seq<Seq<char>>
    decreases s.len(),
{
    if s.len() == 0 {
        s
    } else {
        let d = dedup(s.drop_last());
        if d.contains(s.last()) {
            d
        } else {
            d.push(s.last())
        }
    }
}

/// A component read from the list: trimmed, then decoded.
pub open spec fn clean_component(p: Seq<char>) -> Seq<char> {
    decoded(trimmed(p))
}

/// The components listed in `blob`: split at the middle dots, each piece
/// cleaned, repetitions dropped. An empty blob lists none.
pub open spec fn components_of(blob: Seq<char>) -> Seq<Seq<char>> {
    if blob.len() == 0 {
        seq![]
    } else {
        dedup(split_on(blob, component_sep()).map_values(|p: Seq<char>| clean_component(p)))
    }
}

/// Relies on `str::replace`: each match of `from`, scanned from the left
/// without overlaps, is replaced by `to`.
#[verifier::external_body]
fn replace_all(s: &str, from: &str, to: &str) -> (r: String)
    requires
        from@.len() > 0,
    ensures
        r@ == replaced(s@, from@, to@),
{
    s.replace(from, to)
}

/// Relies on `str::trim`: leading and trailing White_Space characters are removed.
#[verifier::external_body]
fn trim_ws(s: &str) -> (r: &str)
    ensures
        r@ == trimmed(s@),
{
    s.trim()
}

/// Relies on `str::split` with a `char` pattern: the substrings between the
/// occurrences of `c`, in order.
#[verifier::external_body]
fn split_char(s: &str, c: char) -> (r: Vec<String>)
    ensures
        strings_view(r@) == split_on(s@, c),
{
    s.split(c).map(|p| p.to_string()).collect()
}

/// Relies on `str::strip_prefix`: the rest after `p` where `s` starts with
/// `p`, else `s` itself.
#[verifier::external_body]
fn strip_prefix_or_keep<'a>(s: &'a str, p: &str) -> (r: &'a str)
    ensures
        r@ == without_prefix(s@, p@),
{
    s.strip_prefix(p).unwrap_or(s)
}

/// Relies on `String::push`: appends one character.
#[verifier::external_body]
pub(crate) fn push_char(s: &mut String, c: char)
    ensures
        final(s)@ == old(s)@.push(c),
{
    s.push(c)
}

/// Decodes the non-breaking space and ampersand entities of `s`.
pub fn decode_entities(s: &str) -> (r: String)
    ensures
        r@ == decoded(s@),
{
    let nbsp = "&nbsp;";
    let amp = "&amp;";
    proof {
        reveal_strlit("&nbsp;");
        reveal_strlit("&amp;");
        reveal_strlit(" ");
        reveal_strlit("&");
        assert(nbsp@ =~= nbsp_entity());
        assert(amp@ =~= amp_entity());
        assert(" "@ =~= seq![' ']);
        assert("&"@ =~= seq!['&']);
    }
    let spaced = replace_all(s, nbsp, " ");
    replace_all(spaced.as_str(), amp, "&")
}

/// `s` trimmed, as an owned string.
pub fn trim_text(s: &str) -> (r: String)
    ensures
        r@ == trimmed(s@),
{
    trim_ws(s).to_string()
}

/// `s` without a leading `": "`.
pub fn strip_label_sep(s: &str) -> (r: String)
    ensures
        r@ == without_prefix(s@, seq![':', ' ']),
{
    proof {
        reveal_strlit(": ");
        assert(": "@ =~= seq![':', ' ']);
    }
    strip_prefix_or_keep(s, ": ").to_string()
}

fn contains_string(v: &Vec<String>, s: &String) -> (r: bool)
    ensures
        r == strings_view(v@).contains(s@),
{
    let mut i: usize = 0;
    while i < v.len()
        invariant
            i <= v.len(),
            forall|j: int| 0 <= j < i ==> v@[j]@ != s@,
        decreases v.len() - i,
    {
        if v[i] == *s {
            assert(strings_view(v@)[i as int] == s@);
            return true;
        }
        i += 1;
    }
    false
}

/// Reads the components of a meal from their listing: split at the middle
/// dots, trimmed, decoded, without repetitions. An empty listing gives none.
pub fn parse_components(blob: &str) -> (r: Vec<String>)
    ensures
        strings_view(r@) == components_of(blob@),
{
    let mut out: Vec<String> = Vec::new();
    if blob.is_empty() {
        return out;
    }
    let pieces = split_char(blob, '\u{b7}');
    let ghost cleaned = split_on(blob@, component_sep()).map_values(|p: Seq<char>| clean_component(p));
    let mut i: usize = 0;
    while i < pieces.len()
        invariant
            i <= pieces.len(),
            cleaned.len() == pieces.len(),
            forall|j: int| 0 <= j < pieces.len() ==> cleaned[j] == clean_component(#[trigger] pieces@[j]@),
            strings_view(out@) == dedup(cleaned.take(i as int)),
        decreases pieces.len() - i,
    {
        let t = trim_ws(pieces[i].as_str());
        let c = decode_entities(t);
        proof {
            assert(cleaned.take(i as int + 1).drop_last() =~= cleaned.take(i as int));
            assert(cleaned.take(i as int + 1).last() == c@);
        }
        if !contains_string(&out, &c) {
            proof {
                assert(strings_view(out@.push(c)) =~= strings_view(out@).push(c@));
            }
            out.push(c);
        }
        i += 1;
    }
    proof {
        assert(cleaned.take(pieces.len() as int) =~= cleaned);
    }
    out
}

} // verus!
