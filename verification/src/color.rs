//! Highlight categories and the fixed ANSI SGR escape codes of the engine.

use vstd::prelude::*;

verus! {

/// The vocabulary categories, in rising priority order: success, event,
/// error, custom. Custom user-supplied terms always win over the built-in
/// categories; error terms outrank event terms, which outrank success terms.
#[derive(Clone, Copy, Debug, PartialEq, Eq, Structural)]
pub enum Category {
    Error,
    Success,
    Event,
    Custom,
}

/// Priority of a category when overlapping matches are resolved.
pub open spec fn priority(c: Category) -> int {
    match c {
        Category::Custom => 4,
        Category::Error => 3,
        Category::Event => 2,
        Category::Success => 1,
    }
}

pub fn priority_exec(c: Category) -> (r: u8)
    ensures
        r as int == priority(c),
{
    match c {
        Category::Custom => 4,
        Category::Error => 3,
        Category::Event => 2,
        Category::Success => 1,
    }
}

/// The SGR reset escape `ESC [ 0 m`.
pub open spec fn reset_seq() -> Seq<u8> {
    seq![27u8, 91u8, 48u8, 109u8]
}

/// The SGR escape that opens a highlight of category `c`:
/// error is bold red, success bold green, event yellow, custom
/// background-yellow.
pub open spec fn category_color(c: Category) -> Seq<u8> {
    match c {
        Category::Error => seq![27u8, 91u8, 49u8, 59u8, 51u8, 49u8, 109u8],  // ESC[1;31m
        Category::Success => seq![27u8, 91u8, 49u8, 59u8, 51u8, 50u8, 109u8],  // ESC[1;32m
        Category::Event => seq![27u8, 91u8, 51u8, 51u8, 109u8],  // ESC[33m
        Category::Custom => seq![27u8, 91u8, 52u8, 51u8, 109u8],  // ESC[43m
    }
}

pub fn reset_code() -> (r: Vec<u8>)
    ensures
        r@ == reset_seq(),
{
    let mut v: Vec<u8> = Vec::new();
    v.push(27);
    v.push(91);
    v.push(48);
    v.push(109);
    assert(v@ =~= reset_seq());
    v
}

pub fn category_color_code(c: Category) -> (r: Vec<u8>)
    ensures
        r@ == category_color(c),
{
    let mut v: Vec<u8> = Vec::new();
    v.push(27);
    v.push(91);
    match c {
        Category::Error => {
            v.push(49);
            v.push(59);
            v.push(51);
            v.push(49);
        },
        Category::Success => {
            v.push(49);
            v.push(59);
            v.push(51);
            v.push(50);
        },
        Category::Event => {
            v.push(51);
            v.push(51);
        },
        Category::Custom => {
            v.push(52);
            v.push(51);
        },
    }
    v.push(109);
    assert(v@ =~= category_color(c));
    v
}

} // verus!
