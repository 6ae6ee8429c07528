use vstd::prelude::*;
use vstd::string::StringExecFns;

use crate::text::push_char;

verus! {

/// How a query is put into the search URL: every space becomes `+`; every
/// other character passes through unescaped (no percent-encoding is applied).
pub open spec fn encode_query(s: Seq<char>) -> Seq<char> {
    s.map_values(|c: char| if c == ' ' { '+' } else { c })
}

/// The fixed search endpoint, up to and including the query parameter.
pub open spec fn search_base() -> Seq<char> {
    "http://127.0.0.1:3000/api/search/songs?query="@
}

/// Build the search request URL for a free-text query.
pub fn build_search_url(query: &str) -> (r: String)
    ensures
        r@ == search_base() + encode_query(query@),
{
    let mut s = String::from_str("http://127.0.0.1:3000/api/search/songs?query=");
    let len = query.unicode_len();
    let mut i: usize = 0;
    proof {
        assert(encode_query(query@).take(0) =~= Seq::<char>::empty());
        assert(search_base() + Seq::<char>::empty() =~= search_base());
    }
    while i < len
        invariant
            len == query@.len(),
            i <= len,
            s@ == search_base() + encode_query(query@).take(i as int),
        decreases len - i,
    {
        let c = query.get_char(i);
        let e: char = if c == ' ' {
            '+'
        } else {
            c
        };
        push_char(&mut s, e);
        proof {
            assert(s@ =~= search_base() + encode_query(query@).take(i + 1));
        }
        i = i + 1;
    }
    proof {
        assert(encode_query(query@).take(len as int) =~= encode_query(query@));
        assert(encode_query(query@).take(0) =~= Seq::<char>::empty());
    }
    s
}

} // verus!
