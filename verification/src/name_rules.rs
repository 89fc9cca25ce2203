//! The character and length rules that display names and room names share:
//! 2 to 20 characters, each ASCII alphanumeric or `-` or `_`.

use vstd::prelude::*;
use vstd::string::StrSliceExecFns;

verus! {

/// A character allowed in a display name or room name.
pub open spec fn is_name_char(c: char) -> bool {
    ('a' <= c && c <= 'z') || ('A' <= c && c <= 'Z') || ('0' <= c && c <= '9') || c == '-' || c
        == '_'
}

/// The full rule: 2 to 20 characters, all of them name characters.
pub open spec fn valid_name_seq(s: Seq<char>) -> bool {
    &&& 2 <= s.len() <= 20
    &&& forall|i: int| 0 <= i < s.len() ==> is_name_char(#[trigger] s[i])
}

/// Runtime check for a single name character.
pub fn name_char(c: char) -> (r: bool)
    ensures
        r == is_name_char(c),
{
    ('a' <= c && c <= 'z') || ('A' <= c && c <= 'Z') || ('0' <= c && c <= '9') || c == '-' || c
        == '_'
}

/// Whether `name` is present and satisfies the name rule.
pub fn valid_name(name: Option<&str>) -> (r: bool)
    ensures
        r == match name {
            Some(s) => valid_name_seq(s@),
            None => false,
        },
{
    match name {
        None => false,
        Some(s) => {
            let n = s.unicode_len();
            if n < 2 || n > 20 {
                return false;
            }
            let mut i: usize = 0;
            while i < n
                invariant
                    name == Some(s),
                    0 <= i <= n,
                    n == s@.len(),
                    2 <= n <= 20,
                    forall|j: int| 0 <= j < i ==> is_name_char(#[trigger] s@[j]),
                decreases n - i,
            {
                if !name_char(s.get_char(i)) {
                    return false;
                }
                i = i + 1;
            }
            true
        },
    }
}

} // verus!
