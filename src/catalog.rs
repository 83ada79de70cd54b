use vstd::prelude::*;
use crate::canonical::{canonical, canonicalize};
use crate::order::{
    insert_sorted, lemma_lex_asymmetric, lemma_lex_irreflexive, lex_lt,
    strictly_sorted, texts,
};
use crate::save::SaveData;

verus! {

/// Canonical names of the first `k` song entries of a document.
pub open spec fn doc_names_upto(doc: SaveData, k: int) -> Set<Seq<char>>
    decreases k,
{
    if k <= 0 {
        Set::empty()
    } else {
        doc_names_upto(doc, k - 1).insert(canonical(doc.game_record@[k - 1].song_id@))
    }
}

/// Canonical names of every song entry of a profile; a profile whose save
/// document could not be had contributes none.
pub open spec fn profile_names(profile: Option<SaveData>) -> Set<Seq<char>> {
    match profile {
        Some(doc) => doc_names_upto(doc, doc.game_record@.len() as int),
        None => Set::empty(),
    }
}

pub open spec fn names_upto(profiles: Seq<Option<SaveData>>, n: int) -> Set<Seq<char>>
    decreases n,
{
    if n <= 0 {
        Set::empty()
    } else {
        names_upto(profiles, n - 1).union(profile_names(profiles[n - 1]))
    }
}

/// Every canonical song name observed in any profile.
pub open spec fn catalog_names(profiles: Seq<Option<SaveData>>) -> Set<Seq<char>> {
    names_upto(profiles, profiles.len() as int)
}

/// `names` lists the catalog of `profiles`: each observed canonical name
/// exactly once, in ascending lexicographic order.
pub open spec fn is_catalog(profiles: Seq<Option<SaveData>>, names: Seq<Seq<char>>) -> bool {
    strictly_sorted(names) && names.to_set() == catalog_names(profiles)
}

/// The sorted list of distinct canonical song names over all profiles.
pub fn get_all_song_names(profiles: &Vec<Option<SaveData>>) -> (r: Vec<String>)
    ensures
        is_catalog(profiles@, texts(r@)),
{
    let mut names: Vec<String> = Vec::new();
    assert(texts(names@).to_set() =~= Set::empty());
    let mut p: usize = 0;
    while p < profiles.len()
        invariant
            p <= profiles@.len(),
            strictly_sorted(texts(names@)),
            texts(names@).to_set() == names_upto(profiles@, p as int),
        decreases profiles@.len() - p,
    {
        match &profiles[p] {
            Some(doc) => {
                let mut k: usize = 0;
                assert(names_upto(profiles@, p as int) =~= names_upto(profiles@, p as int).union(
                    doc_names_upto(*doc, 0)));
                while k < doc.game_record.len()
                    invariant
                        k <= doc.game_record@.len(),
                        strictly_sorted(texts(names@)),
                        texts(names@).to_set() == names_upto(profiles@, p as int).union(
                            doc_names_upto(*doc, k as int)),
                    decreases doc.game_record@.len() - k,
                {
                    let name = canonicalize(doc.game_record[k].song_id.as_str());
                    insert_sorted(&mut names, name);
                    assert(texts(names@).to_set() =~= names_upto(profiles@, p as int).union(
                        doc_names_upto(*doc, k + 1)));
                    k = k + 1;
                }
            },
            None => {
                assert(names_upto(profiles@, p + 1) =~= names_upto(profiles@, p as int));
            },
        }
        p = p + 1;
    }
    names
}

proof fn lemma_sorted_head_not_in_tail(a: Seq<Seq<char>>)
    requires
        strictly_sorted(a),
        a.len() > 0,
    ensures
        !a.drop_first().contains(a[0]),
        strictly_sorted(a.drop_first()),
{
    if a.drop_first().contains(a[0]) {
        let j = choose|j: int| 0 <= j < a.drop_first().len() && a.drop_first()[j] == a[0];
        assert(lex_lt(a[0], a[j + 1]));
        lemma_lex_irreflexive(a[0]);
    }
    assert forall|i: int, j: int| 0 <= i < j < a.drop_first().len() implies lex_lt(
        #[trigger] a.drop_first()[i],
        #[trigger] a.drop_first()[j],
    ) by {
        assert(lex_lt(a[i + 1], a[j + 1]));
    }
}

/// Two strictly sorted lists that hold the same names are the same list.
pub proof fn lemma_sorted_lists_unique(a: Seq<Seq<char>>, b: Seq<Seq<char>>)
    requires
        strictly_sorted(a),
        strictly_sorted(b),
        a.to_set() == b.to_set(),
    ensures
        a == b,
    decreases a.len(),
{
    if a.len() == 0 {
        if b.len() > 0 {
            assert(b.to_set().contains(b[0]));
        }
        assert(a =~= b);
    } else if b.len() == 0 {
        assert(a.to_set().contains(a[0]));
    } else {
        assert(a.to_set().contains(a[0]));
        assert(b.to_set().contains(b[0]));
        let i = choose|i: int| 0 <= i < b.len() && b[i] == a[0];
        let j = choose|j: int| 0 <= j < a.len() && a[j] == b[0];
        if i > 0 {
            assert(lex_lt(b[0], a[0]));
            if j > 0 {
                assert(lex_lt(a[0], b[0]));
                lemma_lex_asymmetric(a[0], b[0]);
            } else {
                lemma_lex_irreflexive(a[0]);
            }
        }
        assert(a[0] == b[0]);
        lemma_sorted_head_not_in_tail(a);
        lemma_sorted_head_not_in_tail(b);
        assert(a.drop_first().to_set() =~= b.drop_first().to_set()) by {
            assert forall|x: Seq<char>| a.drop_first().contains(x) implies b.drop_first().contains(x) by {
                let p = choose|p: int| 0 <= p < a.drop_first().len() && a.drop_first()[p] == x;
                assert(a.to_set().contains(x));
                let q = choose|q: int| 0 <= q < b.len() && b[q] == x;
                assert(q != 0);
                assert(b.drop_first()[q - 1] == x);
            }
            assert forall|x: Seq<char>| b.drop_first().contains(x) implies a.drop_first().contains(x) by {
                let p = choose|p: int| 0 <= p < b.drop_first().len() && b.drop_first()[p] == x;
                assert(b.to_set().contains(x));
                let q = choose|q: int| 0 <= q < a.len() && a[q] == x;
                assert(q != 0);
                assert(a.drop_first()[q - 1] == x);
            }
        }
        lemma_sorted_lists_unique(a.drop_first(), b.drop_first());
        assert(a =~= b) by {
            assert forall|k: int| 0 <= k < a.len() implies a[k] == b[k] by {
                if k > 0 {
                    assert(a[k] == a.drop_first()[k - 1]);
                    assert(b[k] == b.drop_first()[k - 1]);
                }
            }
        }
    }
}

/// Building the catalog is deterministic: any two lists that meet the
/// catalog's contract on the same profiles are equal, so building it twice
/// on unchanged input yields the same sorted name list.
pub proof fn lemma_catalog_deterministic(
    profiles: Seq<Option<SaveData>>,
    first: Seq<Seq<char>>,
    second: Seq<Seq<char>>,
)
    requires
        is_catalog(profiles, first),
        is_catalog(profiles, second),
    ensures
        first == second,
{
    lemma_sorted_lists_unique(first, second);
}

} // verus!
