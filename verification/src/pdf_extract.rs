//! Pure pieces of PDF metadata handling: keyword parsing, category
//! inference, and the title fallback derived from a file name.
use vstd::prelude::*;

use crate::textops::{
    contains_seq, lower_of, split_commas, str_contains, to_lowercase, trim, trim_spec,
};

verus! {

/// What parsing a keyword list yields: each comma piece trimmed and
/// lowercased, empty results dropped.
pub open spec fn keywords_spec(s: Seq<char>) -> Seq<Seq<char>> {
    split_commas(s).map_values(|p: Seq<char>| lower_of(trim_spec(p))).filter(
        |p: Seq<char>| p.len() != 0,
    )
}

/// Parses comma-separated keywords into trimmed lowercase words.
pub fn parse_keywords(keywords: &str) -> (r: Vec<String>)
    ensures
        r@.map_values(|p: String| p@) == keywords_spec(keywords@),
{
    proof {
        reveal(Seq::filter);
    }
    let pieces = crate::textops::split_on_commas(keywords);
    let ghost mapped = split_commas(keywords@).map_values(|p: Seq<char>| lower_of(trim_spec(p)));
    let mut out: Vec<String> = Vec::new();
    let mut i: usize = 0;
    proof {
        assert(out@.map_values(|p: String| p@) =~= mapped.take(0).filter(
            |p: Seq<char>| p.len() != 0,
        ));
    }
    while i < pieces.len()
        invariant
            i <= pieces@.len(),
            pieces@.map_values(|p: String| p@) == split_commas(keywords@),
            mapped == split_commas(keywords@).map_values(|p: Seq<char>| lower_of(trim_spec(p))),
            out@.map_values(|p: String| p@) == mapped.take(i as int).filter(
                |p: Seq<char>| p.len() != 0,
            ),
        decreases pieces@.len() - i,
    {
        let trimmed = trim(pieces[i].as_str());
        let word = to_lowercase(trimmed.as_str());
        proof {
            reveal(Seq::filter);
            assert(pieces@[i as int]@ == split_commas(keywords@)[i as int]);
            assert(word@ == mapped[i as int]);
            assert(mapped.take(i + 1 as int) =~= mapped.take(i as int).push(mapped[i as int]));
            assert(mapped.take(i + 1 as int).drop_last() =~= mapped.take(i as int));
        }
        if word.unicode_len() > 0 {
            let ghost before = out@;
            out.push(word);
            proof {
                reveal(Seq::filter);
                assert(out@.map_values(|p: String| p@) =~= before.map_values(
                    |p: String| p@,
                ).push(mapped[i as int]));
                assert(out@.map_values(|p: String| p@) =~= mapped.take(i + 1 as int).filter(
                    |p: Seq<char>| p.len() != 0,
                ));
            }
        } else {
            proof {
                reveal(Seq::filter);
                assert(out@.map_values(|p: String| p@) =~= mapped.take(i + 1 as int).filter(
                    |p: Seq<char>| p.len() != 0,
                ));
            }
        }
        i = i + 1;
    }
    proof {
        reveal(Seq::filter);
        assert(mapped.take(pieces@.len() as int) =~= mapped);
    }
    out
}

/// The category a metadata text names, by the first matching cue word.
pub open spec fn category_of(t: Seq<char>) -> Option<Seq<char>> {
    if contains_seq(t, "mathematics"@) || contains_seq(t, "math"@) {
        Some("mathematics"@)
    } else if contains_seq(t, "physics"@) {
        Some("physics"@)
    } else if contains_seq(t, "biology"@) {
        Some("biology"@)
    } else if contains_seq(t, "chemistry"@) {
        Some("chemistry"@)
    } else if contains_seq(t, "computer"@) || contains_seq(t, "programming"@) {
        Some("computers"@)
    } else if contains_seq(t, "philosophy"@) {
        Some("philosophy"@)
    } else if contains_seq(t, "literature"@) || contains_seq(t, "fiction"@) {
        Some("literature"@)
    } else if contains_seq(t, "history"@) {
        Some("history"@)
    } else if contains_seq(t, "economics"@) {
        Some("economics"@)
    } else if contains_seq(t, "psychology"@) {
        Some("psychology"@)
    } else {
        None
    }
}

/// Infers a category from a PDF's subject and keywords: the two fields are
/// joined with a space, lowercased, and searched for cue words in a fixed
/// order of precedence.
pub fn infer_category_from_metadata(subject: Option<&str>, keywords: Option<&str>) -> (r: Option<
    String,
>)
    ensures
        ({
            let joined = (match subject {
                Some(s) => s@,
                None => Seq::<char>::empty(),
            }) + " "@ + (match keywords {
                Some(k) => k@,
                None => Seq::<char>::empty(),
            });
            match r {
                Some(c) => category_of(lower_of(joined)) == Some(c@),
                None => category_of(lower_of(joined)) is None,
            }
        }),
{
    let mut joined = String::new();
    match subject {
        Some(s) => joined.append(s),
        None => {},
    }
    joined.append(" ");
    match keywords {
        Some(k) => joined.append(k),
        None => {},
    }
    proof {
        assert(joined@ =~= (match subject {
            Some(s) => s@,
            None => Seq::<char>::empty(),
        }) + " "@ + (match keywords {
            Some(k) => k@,
            None => Seq::<char>::empty(),
        }));
    }
    let text = to_lowercase(joined.as_str());
    let t = text.as_str();
    if str_contains(t, "mathematics") || str_contains(t, "math") {
        Some(String::from_str("mathematics"))
    } else if str_contains(t, "physics") {
        Some(String::from_str("physics"))
    } else if str_contains(t, "biology") {
        Some(String::from_str("biology"))
    } else if str_contains(t, "chemistry") {
        Some(String::from_str("chemistry"))
    } else if str_contains(t, "computer") || str_contains(t, "programming") {
        Some(String::from_str("computers"))
    } else if str_contains(t, "philosophy") {
        Some(String::from_str("philosophy"))
    } else if str_contains(t, "literature") || str_contains(t, "fiction") {
        Some(String::from_str("literature"))
    } else if str_contains(t, "history") {
        Some(String::from_str("history"))
    } else if str_contains(t, "economics") {
        Some(String::from_str("economics"))
    } else if str_contains(t, "psychology") {
        Some(String::from_str("psychology"))
    } else {
        None
    }
}

/// The title a file name falls back to: the extension stripped, underscores
/// and dashes turned into spaces, the result trimmed.
pub open spec fn title_fallback_spec(name: Seq<char>) -> Seq<char> {
    trim_spec(despace(strip_extension(name)))
}

/// The name without its last dot and what follows it; a dotless name stays.
pub open spec fn strip_extension(name: Seq<char>) -> Seq<char> {
    if exists|i: int| 0 <= i < name.len() && name[i] == '.' {
        name.subrange(0, last_dot(name, name.len() as int - 1))
    } else {
        name
    }
}

/// The index of the last dot at or before `from`.
pub open spec fn last_dot(name: Seq<char>, from: int) -> int
    decreases from + 1,
{
    if from < 0 {
        0
    } else if from < name.len() && name[from] == '.' {
        from
    } else {
        last_dot(name, from - 1)
    }
}

/// Underscores and dashes replaced by spaces.
pub open spec fn despace(s: Seq<char>) -> Seq<char> {
    s.map_values(
        |c: char|
            if c == '_' || c == '-' {
                ' '
            } else {
                c
            },
    )
}

/// Derives the fallback title from an uploaded file's name.
pub fn title_from_filename(name: &str) -> (r: String)
    ensures
        r@ == title_fallback_spec(name@),
{
    let n = name.unicode_len();
    // find the last dot, scanning from the end
    let mut cut: usize = n;
    let mut k: usize = n;
    while k > 0
        invariant
            n == name@.len(),
            k <= n,
            cut <= n,
            cut == n ==> forall|j: int| k <= j < n ==> name@[j] != '.',
            cut < n ==> k <= cut && name@[cut as int] == '.' && (forall|j: int|
                cut < j < n ==> name@[j] != '.'),
        decreases k,
    {
        if cut == n && name.get_char(k - 1) == '.' {
            cut = k - 1;
        }
        k = k - 1;
    }
    let stem = if cut < n {
        name.substring_char(0, cut)
    } else {
        name
    };
    proof {
        if cut < n {
            assert(name@[cut as int] == '.');
            lemma_last_dot(name@, name@.len() as int - 1, cut as int);
            assert(stem@ == strip_extension(name@));
        } else {
            assert(forall|j: int| 0 <= j < name@.len() ==> name@[j] != '.');
            assert(stem@ == strip_extension(name@));
        }
    }
    // replace separators with spaces
    let m = stem.unicode_len();
    let mut flat = String::new();
    let mut i: usize = 0;
    while i < m
        invariant
            m == stem@.len(),
            i <= m,
            flat@ == despace(stem@.take(i as int)),
        decreases m - i,
    {
        let c = stem.get_char(i);
        if c == '_' || c == '-' {
            flat.append(" ");
            proof {
                reveal_strlit(" ");
            }
        } else {
            flat.append(stem.substring_char(i, i + 1));
            proof {
                assert(stem@.subrange(i as int, i + 1 as int) =~= seq![stem@[i as int]]);
            }
        }
        proof {
            assert(stem@.take(i + 1 as int) =~= stem@.take(i as int).push(stem@[i as int]));
            assert(flat@ =~= despace(stem@.take(i + 1 as int)));
        }
        i = i + 1;
    }
    proof {
        assert(stem@.take(m as int) =~= stem@);
    }
    trim(flat.as_str())
}

/// The last dot found from the right is the one `last_dot` names.
proof fn lemma_last_dot(name: Seq<char>, from: int, cut: int)
    requires
        0 <= cut <= from < name.len(),
        name[cut] == '.',
        forall|j: int| cut < j <= from ==> name[j] != '.',
    ensures
        last_dot(name, from) == cut,
    decreases from,
{
    if from > cut {
        lemma_last_dot(name, from - 1, cut);
    }
}

} // verus!
