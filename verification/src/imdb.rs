//! The shape of an IMDb title id.
use vstd::prelude::*;
use crate::text::chars_of;

verus! {

/// `tt` followed by at least one ASCII digit, and nothing else.
pub open spec fn imdb_id_shape(s: Seq<char>) -> bool {
    &&& s.len() > 2
    &&& s[0] == 't'
    &&& s[1] == 't'
    &&& forall|i: int| 2 <= i < s.len() ==> '0' <= #[trigger] s[i] && s[i] <= '9'
}

pub fn looks_like_imdb_id(id: &str) -> (r: bool)
    ensures
        r == imdb_id_shape(id@),
{
    let v = chars_of(id);
    if v.len() <= 2 || v[0] != 't' || v[1] != 't' {
        return false;
    }
    let mut i: usize = 2;
    while i < v.len()
        invariant
            2 <= i <= v.len(),
            v@ == id@,
            forall|j: int| 2 <= j < i ==> '0' <= #[trigger] v@[j] && v@[j] <= '9',
        decreases v.len() - i,
    {
        if v[i] < '0' || v[i] > '9' {
            return false;
        }
        i = i + 1;
    }
    true
}

} // verus!
