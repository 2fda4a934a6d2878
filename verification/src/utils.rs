//! List-item prefixes for rendered ordered and unordered lists.

use vstd::prelude::*;

use crate::chars::{
    dec_digits, lower_letter, lower_letter_char, push_char, push_decimal,
    upper_letter, upper_letter_char,
};

verus! {

/// The bullet character used at a given nesting depth of an unordered list;
/// depths past the last bullet reuse it.
pub open spec fn bullet_char(depth: nat) -> char {
    if depth == 0 {
        '\u{25AA}'
    } else if depth == 1 {
        '\u{2022}'
    } else if depth == 2 {
        '\u{25E6}'
    } else if depth == 3 {
        '\u{2023}'
    } else {
        '\u{2043}'
    }
}

/// The prefix rendered before a list item: `"1. "`, `"A. "` or `"a. "` for
/// ordered lists at depth 0, 1 and below, and a depth-dependent bullet
/// followed by a space for unordered lists.
pub open spec fn spec_list_item_prefix(ix: nat, ordered: bool, depth: nat) -> Seq<char> {
    if ordered {
        if depth == 0 {
            dec_digits(ix + 1) + seq!['.', ' ']
        } else if depth == 1 {
            seq![upper_letter(ix as int % 26), '.', ' ']
        } else {
            seq![lower_letter(ix as int % 26), '.', ' ']
        }
    } else {
        seq![bullet_char(if depth < 4 { depth } else { 4 }), ' ']
    }
}

/// Returns the prefix for a list item.
///
/// Ordered items count `1. 2. ...` at the top level, `A. B. ...` one level
/// down, and `a. b. ...` below that, wrapping around after `Z`/`z`; unordered
/// items get a bullet that varies with depth.
pub fn list_item_prefix(ix: usize, ordered: bool, depth: usize) -> (r: String)
    requires
        ix < usize::MAX,
    ensures
        r@ == spec_list_item_prefix(ix as nat, ordered, depth as nat),
{
    let mut out = String::new();
    if ordered {
        if depth == 0 {
            push_decimal(&mut out, (ix + 1) as u64);
        } else if depth == 1 {
            push_char(&mut out, upper_letter_char(ix % 26));
        } else {
            push_char(&mut out, lower_letter_char(ix % 26));
        }
        push_char(&mut out, '.');
        push_char(&mut out, ' ');
    } else {
        let bullet = if depth == 0 {
            '\u{25AA}'
        } else if depth == 1 {
            '\u{2022}'
        } else if depth == 2 {
            '\u{25E6}'
        } else if depth == 3 {
            '\u{2023}'
        } else {
            '\u{2043}'
        };
        push_char(&mut out, bullet);
        push_char(&mut out, ' ');
    }
    assert(out@ =~= spec_list_item_prefix(ix as nat, ordered, depth as nat));
    out
}

} // verus!
