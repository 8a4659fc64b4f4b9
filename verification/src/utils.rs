//! Helpers shared by the site modules: grouping work into batches and
//! cleaning up extracted text.

use crate::engine::{batches_view, partition, spec_partition};
use vstd::prelude::*;

verus! {

/// Split a vector of values into groups of at most `range`, in order.
///
/// All groups but the last hold exactly `range` values; concatenating the
/// groups in order reproduces the input.
pub fn group_by_range<T>(v: Vec<T>, range: u8) -> (g: Vec<Vec<T>>)
    requires
        range >= 1,
    ensures
        batches_view(g) == spec_partition(v@, range as int),
{
    match partition(v, range as usize) {
        Ok(g) => g,
        Err(_) => vstd::pervasive::unreached(),
    }
}

/// The characters of `s` with every newline and tab removed.
pub open spec fn spec_remove_escape_code(s: Seq<char>) -> Seq<char> {
    s.filter(|c: char| c != '\n' && c != '\t')
}

/// Remove escape characters such as `\n` and `\t` from a string.
pub fn remove_escape_code(s: &str) -> (r: String)
    ensures
        r@ == spec_remove_escape_code(s@),
{
    let len = s.unicode_len();
    let mut out = String::new();
    let mut i: usize = 0;
    while i < len
        invariant
            len == s@.len(),
            i <= len,
            out@ == spec_remove_escape_code(s@.take(i as int)),
        decreases len - i,
    {
        let c = s.get_char(i);
        proof {
            reveal_with_fuel(Seq::filter, 2);
            assert(s@.take(i + 1).drop_last() =~= s@.take(i as int));
            assert(s@.take(i + 1).last() == c);
        }
        if c != '\n' && c != '\t' {
            let piece = s.substring_char(i, i + 1);
            out.append(piece);
            proof {
                assert(seq![c] =~= s@.subrange(i as int, i + 1));
                assert(out@ =~= spec_remove_escape_code(s@.take(i as int)).push(c));
            }
        }
        i += 1;
    }
    proof {
        assert(s@.take(len as int) =~= s@);
    }
    out
}

} // verus!
