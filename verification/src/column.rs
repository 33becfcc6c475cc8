//! Mapping of a player's column name to a column index.

use vstd::prelude::*;
use vstd::string::StrSliceExecFns;

verus! {

/// The index that stands for every name that is not a column.
pub const NO_COLUMN: u32 = 11;

/// What `str::trim` returns for `s`: `s` without its leading and trailing
/// white space.
pub uninterp spec fn trimmed(s: Seq<char>) -> Seq<char>;

/// `str::trim`: the slice of `s` that is left when leading and trailing
/// white space is removed. The result is named, not spelled out.
#[verifier::external_body]
fn trim(s: &str) -> (t: &str)
    ensures
        t@ == trimmed(s@),
{
    s.trim()
}

/// The index of the column called `name`: `a` is 0, `b` is 1, and so on up
/// to `k`, which is 10. Every other name gives 11.
pub open spec fn column_of(name: Seq<char>) -> int {
    if name.len() == 1 && 'a' as u32 <= name[0] as u32 <= 'k' as u32 {
        name[0] as u32 - 'a' as u32
    } else {
        NO_COLUMN as int
    }
}

/// The index of the column that the player's text names, white space
/// around the name aside.
pub open spec fn column_index(col: Seq<char>) -> int {
    column_of(trimmed(col))
}

/// The index of the column called `name`, which carries no white space.
pub fn column_number(name: &str) -> (n: u32)
    ensures
        n == column_of(name@),
        n <= NO_COLUMN,
{
    if name.unicode_len() == 1 {
        let code: u32 = name.get_char(0) as u32;
        if 'a' as u32 <= code && code <= 'k' as u32 {
            return code - 'a' as u32;
        }
    }
    NO_COLUMN
}

/// The index of the column that the player's text names.
pub fn get_col_num(col: String) -> (n: u32)
    ensures
        n == column_index(col@),
        n <= NO_COLUMN,
{
    column_number(trim(col.as_str()))
}

} // verus!
