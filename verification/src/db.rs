//! Pure pieces of the book-database layer: the aggregate shape it answers
//! with, and the list decoding its row mapping uses.
use vstd::prelude::*;

use crate::model::{AuthorAggregate, CategoryAggregate, RatingAggregate, TagAggregate};
use crate::textops::{split_commas, trim, trim_spec};

verus! {

/// Counts of the catalog dimensions, as the metadata endpoint answers them.
pub struct MetadataAggregate {
    pub authors: Vec<AuthorAggregate>,
    pub tags: Vec<TagAggregate>,
    pub categories: Vec<CategoryAggregate>,
    pub ratings: Vec<RatingAggregate>,
}

/// What splitting a concatenated id list yields: each comma piece trimmed,
/// empty pieces dropped.
pub open spec fn split_ids_spec(s: Seq<char>) -> Seq<Seq<char>> {
    split_commas(s).map_values(|p: Seq<char>| trim_spec(p)).filter(
        |p: Seq<char>| p.len() != 0,
    )
}

/// Decodes a comma-concatenated id list into its trimmed, non-empty pieces.
pub fn split_comma_separated_string(s: String) -> (r: Vec<String>)
    ensures
        r@.map_values(|p: String| p@) == split_ids_spec(s@),
{
    proof {
        reveal(Seq::filter);
    }
    let pieces = crate::textops::split_on_commas(s.as_str());
    let ghost trimmed = split_commas(s@).map_values(|p: Seq<char>| trim_spec(p));
    let mut out: Vec<String> = Vec::new();
    let mut i: usize = 0;
    proof {
        assert(trimmed.take(0).filter(|p: Seq<char>| p.len() != 0) =~= Seq::<Seq<char>>::empty());
        assert(out@.map_values(|p: String| p@) =~= trimmed.take(0).filter(
            |p: Seq<char>| p.len() != 0,
        ));
    }
    while i < pieces.len()
        invariant
            i <= pieces@.len(),
            pieces@.map_values(|p: String| p@) == split_commas(s@),
            trimmed == split_commas(s@).map_values(|p: Seq<char>| trim_spec(p)),
            out@.map_values(|p: String| p@) == trimmed.take(i as int).filter(
                |p: Seq<char>| p.len() != 0,
            ),
        decreases pieces@.len() - i,
    {
        let piece = trim(pieces[i].as_str());
        proof {
            reveal(Seq::filter);
            assert(pieces@[i as int]@ == split_commas(s@)[i as int]);
            assert(piece@ == trimmed[i as int]);
            assert(trimmed.take(i + 1 as int) =~= trimmed.take(i as int).push(
                trimmed[i as int],
            ));
            assert(trimmed.take(i + 1 as int).drop_last() =~= trimmed.take(i as int));
        }
        if piece.unicode_len() > 0 {
            let ghost before = out@;
            out.push(piece);
            proof {
                reveal(Seq::filter);
                assert(out@.map_values(|p: String| p@) =~= before.map_values(
                    |p: String| p@,
                ).push(trimmed[i as int]));
                assert(out@.map_values(|p: String| p@) =~= trimmed.take(i + 1 as int).filter(
                    |p: Seq<char>| p.len() != 0,
                ));
            }
        } else {
            proof {
                reveal(Seq::filter);
                assert(out@.map_values(|p: String| p@) =~= trimmed.take(i + 1 as int).filter(
                    |p: Seq<char>| p.len() != 0,
                ));
            }
        }
        i = i + 1;
    }
    proof {
        reveal(Seq::filter);
        assert(trimmed.take(pieces@.len() as int) =~= trimmed);
    }
    out
}

} // verus!
