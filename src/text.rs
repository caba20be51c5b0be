//! Counting and truncating text by grapheme cluster.

use vstd::prelude::*;
use unicode_segmentation::UnicodeSegmentation;

verus! {

/// The extended grapheme clusters of a string, in order.
pub uninterp spec fn graphemes_of(s: Seq<char>) -> Seq<Seq<char>>;

/// Relies on `UnicodeSegmentation::graphemes(s, true)`: the extended grapheme
/// clusters of `s`, in order, as slices of it.
#[verifier::external_body]
pub(crate) fn grapheme_clusters<'a>(s: &'a str) -> (r: Vec<&'a str>)
    ensures
        r@.len() == graphemes_of(s@).len(),
        forall|i: int| 0 <= i < r@.len() ==> #[trigger] r@[i]@ == graphemes_of(s@)[i],
{
    s.graphemes(true).collect()
}

/// The first `n` grapheme clusters of a string (all of them if it has fewer),
/// joined back together.
pub open spec fn clip_spec(s: Seq<char>, n: nat) -> Seq<char> {
    let g = graphemes_of(s);
    g.take(if n < g.len() { n as int } else { g.len() as int }).flatten_alt()
}

/// Joins the first `n` of `clusters` (all of them if there are fewer).
pub fn join_first(clusters: &Vec<&str>, n: u16) -> (r: String)
    ensures
        r@ == clusters@.map_values(|c: &str| c@).take(
            if (n as int) < clusters@.len() { n as int } else { clusters@.len() as int },
        ).flatten_alt(),
{
    let ghost gs = clusters@.map_values(|c: &str| c@);
    let keep: usize = if (n as usize) < clusters.len() { n as usize } else { clusters.len() };
    let mut out = String::new();
    let mut i: usize = 0;
    while i < keep
        invariant
            keep <= clusters@.len(),
            gs == clusters@.map_values(|c: &str| c@),
            i <= keep,
            out@ == gs.take(i as int).flatten_alt(),
        decreases keep - i,
    {
        out.append(clusters[i]);
        proof {
            assert(gs.take(i + 1).drop_last() =~= gs.take(i as int));
        }
        i = i + 1;
    }
    out
}

/// Truncates `s` to at most `n` grapheme clusters.
pub fn clip(s: &str, n: u16) -> (r: String)
    ensures
        r@ == clip_spec(s@, n as nat),
{
    let g = grapheme_clusters(s);
    let r = join_first(&g, n);
    assert(g@.map_values(|c: &str| c@) =~= graphemes_of(s@));
    r
}

} // verus!
