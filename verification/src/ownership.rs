//! Recognising, by their printed paths, the functions that the points-to
//! analysis treats in a way of their own.

use crate::ir::Callee;
use crate::text::{
    contains, ends_with, is_prefix, is_suffix, occurs_in, starts_with, str_eq,
};
use regex::Regex;
use vstd::prelude::*;

verus! {

/// Whether the regular expression `pattern` matches somewhere in `text`;
/// `None` where `pattern` is not a regular expression that can be built.
pub uninterp spec fn regex_match(pattern: Seq<char>, text: Seq<char>) -> Option<bool>;

/// `Regex::new` and `Regex::is_match` of the regex crate: builds the regular
/// expression `pattern` and searches `text` for a match. Gives `None` where
/// `Regex::new` returns an error.
#[verifier::external_body]
pub(crate) fn regex_is_match(pattern: &str, text: &str) -> (r: Option<bool>)
    ensures
        r == regex_match(pattern@, text@),
{
    match Regex::new(pattern) {
        Ok(re) => Some(re.is_match(text)),
        Err(_) => None,
    }
}

/// The groups of the first match of the regular expression `pattern` in
/// `text`: for each group of the expression, the whole match first, the
/// part of `text` that the group matched, or `None` for a group that took
/// no part in the match. `None` where `pattern` is not a regular expression
/// that can be built, and where it matches nowhere in `text`.
pub uninterp spec fn regex_groups(pattern: Seq<char>, text: Seq<char>) -> Option<
    Seq<Option<Seq<char>>>,
>;

/// The characters of the groups of a match.
pub open spec fn group_texts(groups: Option<Vec<Option<String>>>) -> Option<Seq<Option<Seq<char>>>> {
    match groups {
        Some(v) => Some(
            v@.map_values(
                |g: Option<String>|
                    match g {
                        Some(s) => Some(s@),
                        None => None,
                    },
            ),
        ),
        None => None,
    }
}

/// `Regex::new`, `Regex::captures` and `Captures::iter` of the regex crate:
/// builds the regular expression `pattern`, searches `text` for the first
/// match and hands out what each group matched. Gives `None` where
/// `Regex::new` returns an error and where there is no match.
#[verifier::external_body]
pub(crate) fn regex_captures(pattern: &str, text: &str) -> (r: Option<Vec<Option<String>>>)
    ensures
        group_texts(r) == regex_groups(pattern@, text@),
{
    match Regex::new(pattern) {
        Ok(re) => re.captures(text).map(
            |c| c.iter().map(|g| g.map(|m| m.as_str().to_string())).collect(),
        ),
        Err(_) => None,
    }
}

/// The pattern of the paths of atomic operations.
pub open spec fn atomic_operate_pattern() -> Seq<char> {
    r"^(std|core)::sync::atomic::((Atomic[A-Za-z]+(::<.*?>)?)(::)?(load|store|swap|compare_exchange(_weak)?|fetch_(and|add|sub|or|update|max|xor)|compare_and_swap))"@
}

/// The pattern of the paths of pointer arithmetic on raw pointers.
pub open spec fn ptr_arith_pattern() -> Seq<char> {
    r"^std::ptr::mut_ptr::<.*>::(add|offset)"@
}

/// Whether a type printed as `arg_ty_name` is an `Arc`.
pub fn is_arc(arg_ty_name: &str) -> (r: bool)
    ensures
        r == is_prefix("std::sync::Arc<"@, arg_ty_name@),
{
    starts_with(arg_ty_name, "std::sync::Arc<")
}

/// Whether a type printed as `arg_ty_name` is an `Rc`.
pub fn is_rc(arg_ty_name: &str) -> (r: bool)
    ensures
        r == is_prefix("std::rc::Rc<"@, arg_ty_name@),
{
    starts_with(arg_ty_name, "std::rc::Rc<")
}

/// What `is_arc_or_rc_clone` decides.
pub open spec fn spec_is_arc_or_rc_clone(callee: Callee) -> bool {
    &&& callee.path@ == "std::clone::Clone::clone"@
    &&& callee.type_args.len() == 1
    &&& (is_prefix("std::sync::Arc<"@, callee.type_args[0]@) || is_prefix(
        "std::rc::Rc<"@,
        callee.type_args[0]@,
    ))
}

/// Whether the call clones an `Arc` or an `Rc`: the function is
/// `Clone::clone` and its one generic argument is such a pointer.
pub fn is_arc_or_rc_clone(callee: &Callee) -> (r: bool)
    ensures
        r == spec_is_arc_or_rc_clone(*callee),
{
    if !str_eq(callee.path.as_str(), "std::clone::Clone::clone") {
        return false;
    }
    if callee.type_args.len() != 1 {
        return false;
    }
    let arg = callee.type_args[0].as_str();
    is_arc(arg) || is_rc(arg)
}

/// Whether a function with this path reads an element without a bounds
/// check.
pub fn is_get_unchecked(path: &str) -> (r: bool)
    ensures
        r == occurs_in("get_unchecked"@, path@),
{
    contains(path, "get_unchecked")
}

/// Whether a function with this path is an operation of an atomic type.
pub fn is_atomic_operate(path: &str) -> (r: bool)
    ensures
        r == (regex_match(atomic_operate_pattern(), path@) == Some(true)),
{
    match regex_is_match(
        r"^(std|core)::sync::atomic::((Atomic[A-Za-z]+(::<.*?>)?)(::)?(load|store|swap|compare_exchange(_weak)?|fetch_(and|add|sub|or|update|max|xor)|compare_and_swap))",
        path,
    ) {
        Some(b) => b,
        None => false,
    }
}

/// What `is_ptr_operate` decides.
pub open spec fn spec_is_ptr_operate(path: Seq<char>) -> bool {
    regex_match(ptr_arith_pattern(), path) == Some(true) || is_prefix("std::ptr::read::<"@, path)
}

/// Whether a function with this path does arithmetic on a raw pointer or
/// reads through one.
pub fn is_ptr_operate(path: &str) -> (r: bool)
    ensures
        r == spec_is_ptr_operate(path@),
{
    let arith = match regex_is_match(r"^std::ptr::mut_ptr::<.*>::(add|offset)", path) {
        Some(b) => b,
        None => false,
    };
    arith || starts_with(path, "std::ptr::read::<")
}

/// Whether a function with this path gives the address of a pointer.
pub fn is_addr(path: &str) -> (r: bool)
    ensures
        r == is_suffix("addr"@, path@),
{
    ends_with(path, "addr")
}

/// Whether a function with this path tests a pointer for null.
pub fn is_null(path: &str) -> (r: bool)
    ensures
        r == is_suffix("is_null"@, path@),
{
    ends_with(path, "is_null")
}

/// Whether a function with this path converts between a raw pointer and a
/// smart pointer.
pub fn is_smart_pointers(path: &str) -> (r: bool)
    ensures
        r == (is_suffix("from_raw"@, path@) || is_suffix("into_raw"@, path@)),
{
    ends_with(path, "from_raw") || ends_with(path, "into_raw")
}

} // verus!
