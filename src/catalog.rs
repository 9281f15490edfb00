use vstd::prelude::*;

verus! {

/// The lowercase form of a string, as std's `str::to_lowercase` computes it.
pub uninterp spec fn lower_of(s: Seq<char>) -> Seq<char>;

/// Relies on `str::to_lowercase`: the result depends on the characters alone.
#[verifier::external_body]
fn lowercase(s: &str) -> (r: String)
    ensures
        r@ == lower_of(s@),
{
    s.to_lowercase()
}

/// Normalises a catalog of tradable symbols to lowercase, keeping their order.
pub fn normalize_symbols(symbols: &Vec<String>) -> (r: Vec<String>)
    ensures
        r.len() == symbols.len(),
        forall|i: int| 0 <= i < r.len() ==> #[trigger] r[i]@ == lower_of(symbols[i]@),
{
    let mut out: Vec<String> = Vec::with_capacity(symbols.len());
    let mut i: usize = 0;
    while i < symbols.len()
        invariant
            i <= symbols.len(),
            out.len() == i,
            forall|j: int| 0 <= j < i ==> #[trigger] out[j]@ == lower_of(symbols[j]@),
        decreases symbols.len() - i,
    {
        out.push(lowercase(symbols[i].as_str()));
        i += 1;
    }
    out
}

} // verus!
