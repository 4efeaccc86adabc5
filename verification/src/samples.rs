//! Sample keys in the shape the mapping uses: date-prefixed filenames,
//! strictly ascending, as the test suite draws on.

use vstd::prelude::*;
use vstd::string::StringExecFns;
use crate::order::{keys_view, lemma_adjacent_sorted, lemma_lex_lt_at, sorted_ascending};

verus! {

/// Five strictly ascending date-prefixed keys.
pub fn test_keys() -> (r: Vec<String>)
    ensures
        r@.len() == 5,
        r@[0]@ == "2022-01-01_00-00-00_UTC.jpg"@,
        r@[1]@ == "2023-06-15_12-30-00_UTC.jpg"@,
        r@[2]@ == "2024-01-01_00-00-00_UTC.jpg"@,
        r@[3]@ == "2024-06-15_12-30-00_UTC.jpg"@,
        r@[4]@ == "2025-01-01_00-00-00_UTC.jpg"@,
        sorted_ascending(keys_view(r@)),
{
    let mut r: Vec<String> = Vec::new();
    r.push(String::from_str("2022-01-01_00-00-00_UTC.jpg"));
    r.push(String::from_str("2023-06-15_12-30-00_UTC.jpg"));
    r.push(String::from_str("2024-01-01_00-00-00_UTC.jpg"));
    r.push(String::from_str("2024-06-15_12-30-00_UTC.jpg"));
    r.push(String::from_str("2025-01-01_00-00-00_UTC.jpg"));
    proof {
        reveal_strlit("2022-01-01_00-00-00_UTC.jpg");
        reveal_strlit("2023-06-15_12-30-00_UTC.jpg");
        reveal_strlit("2024-01-01_00-00-00_UTC.jpg");
        reveal_strlit("2024-06-15_12-30-00_UTC.jpg");
        reveal_strlit("2025-01-01_00-00-00_UTC.jpg");
        lemma_lex_lt_at("2022-01-01_00-00-00_UTC.jpg"@, "2023-06-15_12-30-00_UTC.jpg"@, 3);
        lemma_lex_lt_at("2023-06-15_12-30-00_UTC.jpg"@, "2024-01-01_00-00-00_UTC.jpg"@, 3);
        lemma_lex_lt_at("2024-01-01_00-00-00_UTC.jpg"@, "2024-06-15_12-30-00_UTC.jpg"@, 6);
        lemma_lex_lt_at("2024-06-15_12-30-00_UTC.jpg"@, "2025-01-01_00-00-00_UTC.jpg"@, 3);
        let kv = keys_view(r@);
        assert forall|m: int| 0 <= m < kv.len() - 1 implies
            #[trigger] crate::order::lex_lt(kv[m], kv[m + 1]) by {
            assert(kv[m] == r@[m]@);
            assert(kv[m + 1] == r@[m + 1]@);
        }
        lemma_adjacent_sorted(kv);
    }
    r
}

} // verus!
