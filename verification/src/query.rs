//! The search of the database's variables by a part of their names, without
//! regard to upper and lower case.

use vstd::prelude::*;
use crate::text::{chars_of, occurs_at};
use crate::value::{table_view, Entries, LuaValue};

verus! {

/// The text in lower case, as the standard library turns it.
pub uninterp spec fn lowercase(text: Seq<char>) -> Seq<char>;

/// `str::to_lowercase` of std: the text with every character in lower case.
/// What it gives depends on the text alone.
#[verifier::external_body]
fn lower(s: &str) -> (r: String)
    ensures
        r@ == lowercase(s@),
{
    s.to_lowercase()
}

/// `part` stands somewhere in `whole`.
pub open spec fn contains_text(whole: Seq<char>, part: Seq<char>) -> bool {
    exists|i: int|
        0 <= i && i + part.len() <= whole.len() && #[trigger] whole.subrange(i, i + part.len())
            == part
}

/// Whether `part` stands somewhere in `whole`.
pub fn text_contains(whole: &str, part: &str) -> (r: bool)
    ensures
        r == contains_text(whole@, part@),
{
    let w = chars_of(whole);
    let p = chars_of(part);
    if p.len() > w.len() {
        return false;
    }
    let last = w.len() - p.len();
    let mut i: usize = 0;
    loop
        invariant
            i <= last,
            last + p.len() == w.len(),
            w@ == whole@,
            p@ == part@,
            forall|j: int| 0 <= j < i ==> #[trigger] w@.subrange(j, j + p.len()) != p@,
        decreases last - i,
    {
        if occurs_at(&w, i, &p) {
            return true;
        }
        if i == last {
            return false;
        }
        i += 1;
    }
}

/// Whether a variable of this name is shown for the query: for the empty query
/// every one, else one whose name in lower case holds the query in lower case.
pub open spec fn shown_for(name: Seq<char>, query: Seq<char>) -> bool {
    query.len() == 0 || contains_text(lowercase(name), lowercase(query))
}

/// The indices of those of the first `n` entries that are shown for the query,
/// in their order, and no more of them than `limit`.
pub open spec fn shown_indices(es: Entries, query: Seq<char>, limit: nat, n: int) -> Seq<int>
    decreases n,
{
    if n <= 0 || n > es.len() {
        Seq::empty()
    } else {
        let before = shown_indices(es, query, limit, n - 1);
        if before.len() < limit && shown_for(es[n - 1].0, query) {
            before.push(n - 1)
        } else {
            before
        }
    }
}

/// The indices as integers.
pub open spec fn indices_view(indices: Seq<usize>) -> Seq<int> {
    Seq::new(indices.len(), |i: int| indices[i] as int)
}

/// The variables that are shown for the query: the indices of the first
/// `limit` entries whose names hold the query, without regard to upper and
/// lower case.
pub fn matching_variables(flat: &Vec<(String, LuaValue)>, query: &str, limit: usize) -> (r: Vec<
    usize,
>)
    ensures
        indices_view(r@) == shown_indices(
            table_view(flat@),
            query@,
            limit as nat,
            flat@.len() as int,
        ),
{
    let ghost es = table_view(flat@);
    let wanted = lower(query);
    let mut out: Vec<usize> = Vec::new();
    let mut i: usize = 0;
    assert(indices_view(out@) =~= shown_indices(es, query@, limit as nat, 0));
    while i < flat.len()
        invariant
            i <= flat.len(),
            es == table_view(flat@),
            wanted@ == lowercase(query@),
            out.len() <= i,
            indices_view(out@) == shown_indices(es, query@, limit as nat, i as int),
        decreases flat.len() - i,
    {
        if out.len() < limit {
            let shown = query.is_empty() || text_contains(
                lower(flat[i].0.as_str()).as_str(),
                wanted.as_str(),
            );
            if shown {
                out.push(i);
                assert(indices_view(out@) =~= shown_indices(es, query@, limit as nat, i + 1));
            }
        }
        i += 1;
    }
    out
}

} // verus!
