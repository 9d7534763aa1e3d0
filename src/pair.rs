//! Parsing of `"<left><sep><right>"` pairs such as `"1000x750"` or
//! `"-1.20,0.35"`.
//!
//! The text is split on the first occurrence of the separator and each
//! half is parsed in full; the pair is `None` when the separator does not
//! occur or either half does not parse.

use crate::decimal::{decimal_i32, decimal_usize, parse_i32, parse_usize};
use std::str::FromStr;
use vstd::prelude::*;

verus! {

/// True when `left` and `right` are the parts of `s` before and after the
/// first occurrence of `sep`.
pub open spec fn is_first_split(s: Seq<char>, sep: char, left: Seq<char>, right: Seq<char>) -> bool {
    &&& s == left + seq![sep] + right
    &&& !left.contains(sep)
}

/// The pair of two parsed halves: present when both are.
pub open spec fn join_spec<T>(left: Option<T>, right: Option<T>) -> Option<(T, T)> {
    match (left, right) {
        (Some(l), Some(r)) => Some((l, r)),
        _ => None,
    }
}

/// True when `left` and `right` are the halves of the first split of `s`
/// on `sep`, `parse` may return `pl` for `left` and `pr` for `right`, and
/// `r` is the pair they make.
pub open spec fn parsed_split<T, P: Fn(&str) -> Option<T>>(
    parse: P,
    s: Seq<char>,
    sep: char,
    left: &str,
    right: &str,
    pl: Option<T>,
    pr: Option<T>,
    r: Option<(T, T)>,
) -> bool {
    &&& is_first_split(s, sep, left@, right@)
    &&& parse.ensures((left,), pl)
    &&& parse.ensures((right,), pr)
    &&& r == join_spec(pl, pr)
}

/// A string has one first split on a separator.
pub proof fn lemma_first_split_unique(
    s: Seq<char>,
    sep: char,
    a1: Seq<char>,
    b1: Seq<char>,
    a2: Seq<char>,
    b2: Seq<char>,
)
    requires
        is_first_split(s, sep, a1, b1),
        is_first_split(s, sep, a2, b2),
    ensures
        a1 == a2,
        b1 == b2,
{
    if a1.len() < a2.len() {
        assert(s[a1.len() as int] == sep);
        assert(a2[a1.len() as int] == s[a1.len() as int]);
        assert(a2.contains(sep));
    } else if a2.len() < a1.len() {
        assert(s[a2.len() as int] == sep);
        assert(a1[a2.len() as int] == s[a2.len() as int]);
        assert(a1.contains(sep));
    }
    assert(a1 =~= s.subrange(0, a1.len() as int));
    assert(a2 =~= s.subrange(0, a2.len() as int));
    assert(b1 =~= s.subrange(a1.len() as int + 1, s.len() as int));
    assert(b2 =~= s.subrange(a2.len() as int + 1, s.len() as int));
}

/// Relies on `str::split_once`: on the first occurrence of `sep` it returns
/// the text before and after it, and `None` when `sep` does not occur.
#[verifier::external_body]
fn split_once_at(s: &str, sep: char) -> (r: Option<(&str, &str)>)
    ensures
        r is None <==> !s@.contains(sep),
        r matches Some((a, b)) ==> is_first_split(s@, sep, a@, b@),
{
    s.split_once(sep)
}

/// Relies on `str::parse` through `T::from_str`; what it accepts is up to `T`.
#[verifier::external_body]
fn parse_text<T: FromStr>(s: &str) -> (r: Option<T>) {
    s.parse::<T>().ok()
}

/// Joins two parsed halves: a pair when both are present, else `None`.
pub fn join_halves<T>(left: Option<T>, right: Option<T>) -> (r: Option<(T, T)>)
    ensures
        r == join_spec(left, right),
{
    match (left, right) {
        (Some(l), Some(r)) => Some((l, r)),
        _ => None,
    }
}

/// Parses `s` as `<left><separator><right>` with `parse` for each half:
/// `None` when the separator does not occur; otherwise the halves of the
/// first split go to `parse`, and the result is their pair when both parse
/// and `None` when either does not.
pub fn parse_pair_with<T, P: Fn(&str) -> Option<T>>(s: &str, separator: char, parse: &P) -> (r:
    Option<(T, T)>)
    requires
        forall|h: &str| parse.requires((h,)),
    ensures
        !s@.contains(separator) ==> r is None,
        s@.contains(separator) ==> exists|left: &str, right: &str, pl: Option<T>, pr: Option<T>|
            #[trigger] parsed_split(*parse, s@, separator, left, right, pl, pr, r),
{
    match split_once_at(s, separator) {
        None => None,
        Some((left, right)) => {
            let pl = parse(left);
            let pr = parse(right);
            let r = join_halves(pl, pr);
            assert(parsed_split(*parse, s@, separator, left, right, pl, pr, r));
            r
        },
    }
}

/// Parses `s` as `<left><separator><right>`, each half as `T` through its
/// `FromStr`: `None` when the separator does not occur, and otherwise the
/// pair of the two halves of the first split when both parse in full.
pub fn parse_pair<T: FromStr>(s: &str, separator: char) -> (r: Option<(T, T)>)
    ensures
        !s@.contains(separator) ==> r is None,
        r is Some ==> s@.contains(separator),
{
    parse_pair_with(s, separator, &|h: &str| parse_text::<T>(h))
}

/// Parses `s` as `<left><separator><right>`, each half a decimal `i32`:
/// the pair of the two halves of the first split when both are decimal
/// integers in range, and `None` otherwise or when the separator does not
/// occur.
pub fn parse_i32_pair(s: &str, separator: char) -> (r: Option<(i32, i32)>)
    ensures
        !s@.contains(separator) ==> r is None,
        forall|a: Seq<char>, b: Seq<char>|
            #[trigger] is_first_split(s@, separator, a, b) ==> r == join_spec(
                decimal_i32(a),
                decimal_i32(b),
            ),
{
    let parse = |h: &str| -> (v: Option<i32>)
        ensures
            v == decimal_i32(h@),
        { parse_i32(h) };
    let r = parse_pair_with(s, separator, &parse);
    proof {
        assert forall|a: Seq<char>, b: Seq<char>|
            #[trigger] is_first_split(s@, separator, a, b) implies r == join_spec(
            decimal_i32(a),
            decimal_i32(b),
        ) by {
            assert(s@[a.len() as int] == separator);
            assert(s@.contains(separator));
            let (left, right, pl, pr) = choose|left: &str, right: &str, pl: Option<i32>, pr: Option<i32>|
                #[trigger] parsed_split(parse, s@, separator, left, right, pl, pr, r);
            lemma_first_split_unique(s@, separator, a, b, left@, right@);
        }
    }
    r
}

/// Parses `s` as `<left><separator><right>`, each half an unsigned decimal
/// `usize`, such as image dimensions `"1000x750"`: the pair of the two
/// halves of the first split when both are decimal integers in range, and
/// `None` otherwise or when the separator does not occur.
pub fn parse_usize_pair(s: &str, separator: char) -> (r: Option<(usize, usize)>)
    ensures
        !s@.contains(separator) ==> r is None,
        forall|a: Seq<char>, b: Seq<char>|
            #[trigger] is_first_split(s@, separator, a, b) ==> r == join_spec(
                decimal_usize(a),
                decimal_usize(b),
            ),
{
    let parse = |h: &str| -> (v: Option<usize>)
        ensures
            v == decimal_usize(h@),
        { parse_usize(h) };
    let r = parse_pair_with(s, separator, &parse);
    proof {
        assert forall|a: Seq<char>, b: Seq<char>|
            #[trigger] is_first_split(s@, separator, a, b) implies r == join_spec(
            decimal_usize(a),
            decimal_usize(b),
        ) by {
            assert(s@[a.len() as int] == separator);
            assert(s@.contains(separator));
            let (left, right, pl, pr) = choose|left: &str, right: &str, pl: Option<usize>, pr: Option<usize>|
                #[trigger] parsed_split(parse, s@, separator, left, right, pl, pr, r);
            lemma_first_split_unique(s@, separator, a, b, left@, right@);
        }
    }
    r
}

} // verus!
