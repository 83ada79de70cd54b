use vstd::prelude::*;
use crate::canonical::canonical;
use crate::catalog::{catalog_names, doc_names_upto, get_all_song_names, is_catalog, names_upto};
use crate::order::{lex_lt, strictly_sorted, texts};
use crate::save::{
    emits, lemma_rows_come_from_slots, process_save_file, save_rows, slot_row, views, ProcessedRecord,
    RowModel, SaveData,
};

verus! {

/// Rows of one profile; a profile whose save document could not be had
/// contributes none.
pub open spec fn profile_rows(profile: Option<SaveData>) -> Seq<RowModel> {
    match profile {
        Some(doc) => save_rows(doc),
        None => Seq::empty(),
    }
}

/// Rows of the first `n` profiles, profile after profile.
pub open spec fn rows_of_profiles(profiles: Seq<Option<SaveData>>, n: int) -> Seq<RowModel>
    decreases n,
{
    if n <= 0 {
        Seq::empty()
    } else {
        rows_of_profiles(profiles, n - 1) + profile_rows(profiles[n - 1])
    }
}

/// Every row obtainable by parsing each profile once.
pub open spec fn all_rows(profiles: Seq<Option<SaveData>>) -> Seq<RowModel> {
    rows_of_profiles(profiles, profiles.len() as int)
}

/// The rows of all profiles that belong to `song`, in profile order.
pub open spec fn song_rows(profiles: Seq<Option<SaveData>>, song: Seq<char>) -> Seq<RowModel> {
    all_rows(profiles).filter(|row: RowModel| row.song_name == song)
}

/// Collects, over all profiles in order, the rows whose canonical song name
/// is `song_name`.
pub fn aggregate(profiles: &Vec<Option<SaveData>>, song_name: &str) -> (r: Vec<ProcessedRecord>)
    ensures
        views(r@) == song_rows(profiles@, song_name@),
{
    let target = song_name.to_owned();
    let ghost pred = |row: RowModel| row.song_name == song_name@;
    let mut out: Vec<ProcessedRecord> = Vec::new();
    let mut p: usize = 0;
    assert(views(out@) =~= rows_of_profiles(profiles@, 0).filter(pred));
    while p < profiles.len()
        invariant
            p <= profiles@.len(),
            target@ == song_name@,
            pred == (|row: RowModel| row.song_name == song_name@),
            views(out@) == rows_of_profiles(profiles@, p as int).filter(pred),
        decreases profiles@.len() - p,
    {
        match &profiles[p] {
            Some(doc) => {
                let rows = process_save_file(doc);
                let ghost start = views(out@);
                let mut i: usize = 0;
                assert(views(rows@).take(0).filter(pred) =~= Seq::<RowModel>::empty());
                while i < rows.len()
                    invariant
                        i <= rows@.len(),
                        target@ == song_name@,
                        pred == (|row: RowModel| row.song_name == song_name@),
                        views(out@) == start + views(rows@).take(i as int).filter(pred),
                    decreases rows@.len() - i,
                {
                    let ghost before = views(out@);
                    assert(views(rows@).take(i + 1) =~= views(rows@).take(i as int).push(rows@[i as int]@));
                    proof {
                        views(rows@).take(i as int).lemma_filter_push(rows@[i as int]@, pred);
                    }
                    if rows[i].song_name == target {
                        out.push(rows[i].duplicate());
                        assert(views(out@) =~= before.push(rows@[i as int]@));
                    }
                    i = i + 1;
                }
                assert(views(rows@).take(rows@.len() as int) =~= views(rows@));
                proof {
                    Seq::filter_distributes_over_add(rows_of_profiles(profiles@, p as int), save_rows(*doc), pred);
                }
            },
            None => {
                assert(rows_of_profiles(profiles@, p + 1) =~= rows_of_profiles(profiles@, p as int));
            },
        }
        p = p + 1;
    }
    out
}

/// The rows to export for one song.
pub struct SongTable {
    pub song_name: String,
    pub records: Vec<ProcessedRecord>,
}

pub open spec fn table_names(tables: Seq<SongTable>) -> Seq<Seq<char>> {
    tables.map_values(|t: SongTable| t.song_name@)
}

/// What one run exports: for each catalog name, in ascending order, the
/// song's aggregated rows; a song with no rows gets no table.
pub fn plan_exports(profiles: &Vec<Option<SaveData>>) -> (r: Vec<SongTable>)
    ensures
        strictly_sorted(table_names(r@)),
        forall|name: Seq<char>|
            table_names(r@).contains(name) <==> catalog_names(profiles@).contains(name)
                && song_rows(profiles@, name).len() > 0,
        forall|i: int|
            0 <= i < r@.len() ==> views(#[trigger] r@[i].records@) == song_rows(profiles@, r@[i].song_name@),
        forall|i: int| 0 <= i < r@.len() ==> (#[trigger] r@[i].records@).len() > 0,
{
    let names = get_all_song_names(profiles);
    let ghost all = texts(names@);
    let mut out: Vec<SongTable> = Vec::new();
    let ghost mut idx: Seq<int> = Seq::empty();
    let mut i: usize = 0;
    while i < names.len()
        invariant
            i <= names@.len(),
            all == texts(names@),
            is_catalog(profiles@, all),
            strictly_sorted(table_names(out@)),
            idx.len() == out@.len(),
            forall|j: int| 0 <= j < out@.len() ==> 0 <= #[trigger] idx[j] < i && all[idx[j]] == out@[j].song_name@,
            forall|name: Seq<char>|
                table_names(out@).contains(name) <==> (exists|k: int| 0 <= k < i && all[k] == name)
                    && song_rows(profiles@, name).len() > 0,
            forall|j: int|
                0 <= j < out@.len() ==> views(#[trigger] out@[j].records@) == song_rows(profiles@, out@[j].song_name@),
            forall|j: int| 0 <= j < out@.len() ==> (#[trigger] out@[j].records@).len() > 0,
        decreases names@.len() - i,
    {
        let records = aggregate(profiles, names[i].as_str());
        let ghost before = out@;
        if records.len() > 0 {
            assert(views(records@).len() == records@.len());
            out.push(SongTable { song_name: names[i].clone(), records });
            assert(table_names(out@) =~= table_names(before).push(all[i as int]));
            assert forall|p: int, q: int| 0 <= p < q < table_names(out@).len() implies lex_lt(
                #[trigger] table_names(out@)[p],
                #[trigger] table_names(out@)[q],
            ) by {
                if q == before.len() {
                    let k = idx[p];
                    assert(before[p] == out@[p]);
                    assert(lex_lt(all[k], all[i as int]));
                } else {
                    assert(table_names(before)[p] == table_names(out@)[p]);
                    assert(table_names(before)[q] == table_names(out@)[q]);
                }
            }
            proof {
                idx = idx.push(i as int);
            }
            assert forall|j: int| 0 <= j < out@.len() implies 0 <= #[trigger] idx[j] < i + 1 && all[idx[j]] == out@[j].song_name@ by {
                if j < before.len() {
                    assert(out@[j] == before[j]);
                }
            }
            assert forall|name: Seq<char>|
                table_names(out@).contains(name) <==> (exists|k: int| 0 <= k < i + 1 && all[k] == name)
                    && song_rows(profiles@, name).len() > 0 by {
                if table_names(out@).contains(name) {
                    let j = choose|j: int| 0 <= j < table_names(out@).len() && table_names(out@)[j] == name;
                    if j < before.len() {
                        assert(table_names(before)[j] == name);
                        assert(table_names(before).contains(name));
                        let k = choose|k: int| 0 <= k < i && all[k] == name;
                        assert(0 <= k < i + 1 && all[k] == name);
                    } else {
                        assert(all[i as int] == name);
                        assert(names@[i as int]@ == name);
                    }
                }
                if exists|k: int| 0 <= k < i + 1 && all[k] == name {
                    let k = choose|k: int| 0 <= k < i + 1 && all[k] == name;
                    if k < i {
                        if song_rows(profiles@, name).len() > 0 {
                            assert(table_names(before).contains(name));
                            let j = choose|j: int| 0 <= j < table_names(before).len() && table_names(before)[j] == name;
                            assert(table_names(out@)[j] == name);
                        }
                    } else {
                        assert(table_names(out@)[before.len() as int] == name);
                    }
                }
            }
        } else {
            assert forall|name: Seq<char>|
                table_names(out@).contains(name) <==> (exists|k: int| 0 <= k < i + 1 && all[k] == name)
                    && song_rows(profiles@, name).len() > 0 by {
                if exists|k: int| 0 <= k < i + 1 && all[k] == name {
                    let k = choose|k: int| 0 <= k < i + 1 && all[k] == name;
                    if k == i {
                        assert(views(records@).len() == 0);
                    } else {
                        assert(exists|k: int| 0 <= k < i && all[k] == name);
                    }
                }
            }
        }
        i = i + 1;
    }
    assert forall|name: Seq<char>|
        (exists|k: int| 0 <= k < names@.len() && all[k] == name) <==> catalog_names(profiles@).contains(name) by {
        if catalog_names(profiles@).contains(name) {
            assert(all.to_set().contains(name));
        }
        if exists|k: int| 0 <= k < names@.len() && all[k] == name {
            let k = choose|k: int| 0 <= k < names@.len() && all[k] == name;
            assert(all.contains(name));
        }
    }
    out
}

} // verus!

verus! {

proof fn lemma_doc_names_contains(doc: SaveData, k: int, e: int)
    requires
        0 <= e < k <= doc.game_record@.len(),
    ensures
        doc_names_upto(doc, k).contains(canonical(doc.game_record@[e].song_id@)),
    decreases k,
{
    if e < k - 1 {
        lemma_doc_names_contains(doc, k - 1, e);
    }
}

proof fn lemma_row_name_in_catalog(profiles: Seq<Option<SaveData>>, n: int, r: RowModel)
    requires
        0 <= n <= profiles.len(),
        rows_of_profiles(profiles, n).contains(r),
    ensures
        names_upto(profiles, n).contains(r.song_name),
    decreases n,
{
    let prev = rows_of_profiles(profiles, n - 1);
    let here = profile_rows(profiles[n - 1]);
    let full = prev + here;
    let j = choose|j: int| 0 <= j < full.len() && #[trigger] full[j] == r;
    if j < prev.len() {
        assert(prev[j] == r);
        lemma_row_name_in_catalog(profiles, n - 1, r);
    } else {
        assert(here[j - prev.len()] == r);
        let doc = profiles[n - 1]->Some_0;
        lemma_rows_come_from_slots(doc, r);
        let (k, i) = choose|k: int, i: int| #[trigger] emits(doc, k, i) && r == slot_row(doc, k, i);
        lemma_doc_names_contains(doc, doc.game_record@.len() as int, k);
    }
}

/// Aggregating by song partitions the rows: a song's aggregate holds only
/// rows of that song, all taken from the rows of the profiles; and every row
/// obtainable by parsing each profile once has its song in the catalog and
/// stands in that song's aggregate. So the union of the aggregates over the
/// catalog is the set of all rows.
pub proof fn lemma_aggregates_partition_rows(profiles: Seq<Option<SaveData>>)
    ensures
        forall|song: Seq<char>, r: RowModel| #[trigger] song_rows(profiles, song).contains(r)
            ==> r.song_name == song && all_rows(profiles).contains(r),
        forall|r: RowModel| #[trigger] all_rows(profiles).contains(r)
            ==> catalog_names(profiles).contains(r.song_name)
                && song_rows(profiles, r.song_name).contains(r),
{
    assert forall|song: Seq<char>, r: RowModel| #[trigger] song_rows(profiles, song).contains(r)
        implies r.song_name == song && all_rows(profiles).contains(r) by {
        let pred = |row: RowModel| row.song_name == song;
        all_rows(profiles).filter_lemma(pred);
        all_rows(profiles).lemma_filter_contains_rev(pred, r);
    }
    assert forall|r: RowModel| #[trigger] all_rows(profiles).contains(r)
        implies catalog_names(profiles).contains(r.song_name)
            && song_rows(profiles, r.song_name).contains(r) by {
        lemma_row_name_in_catalog(profiles, profiles.len() as int, r);
        let pred = |row: RowModel| row.song_name == r.song_name;
        all_rows(profiles).filter_lemma(pred);
        let j = choose|j: int| 0 <= j < all_rows(profiles).len() && #[trigger] all_rows(profiles)[j] == r;
        assert(pred(all_rows(profiles)[j]));
    }
}

proof fn lemma_insert_missing_upto(profiles: Seq<Option<SaveData>>, at: int, n: int)
    requires
        0 <= at <= profiles.len(),
        0 <= n <= profiles.len() + 1,
    ensures
        n <= at ==> rows_of_profiles(profiles.insert(at, None), n) == rows_of_profiles(profiles, n)
            && names_upto(profiles.insert(at, None), n) == names_upto(profiles, n),
        n > at ==> rows_of_profiles(profiles.insert(at, None), n) == rows_of_profiles(profiles, n - 1)
            && names_upto(profiles.insert(at, None), n) == names_upto(profiles, n - 1),
    decreases n,
{
    let grown = profiles.insert(at, None);
    if n > 0 {
        lemma_insert_missing_upto(profiles, at, n - 1);
        if n - 1 == at {
            assert(grown[n - 1] is None);
            assert(rows_of_profiles(grown, n) =~= rows_of_profiles(grown, n - 1));
            assert(names_upto(grown, n) =~= names_upto(grown, n - 1));
        } else if n - 1 < at {
            assert(grown[n - 1] == profiles[n - 1]);
        } else {
            assert(grown[n - 1] == profiles[n - 2]);
        }
    }
}

/// A profile whose save document is missing or unreadable contributes no
/// row and no catalog name: adding one anywhere changes neither.
pub proof fn lemma_missing_profile_contributes_nothing(profiles: Seq<Option<SaveData>>, at: int)
    requires
        0 <= at <= profiles.len(),
    ensures
        all_rows(profiles.insert(at, None)) == all_rows(profiles),
        catalog_names(profiles.insert(at, None)) == catalog_names(profiles),
        forall|song: Seq<char>| song_rows(profiles.insert(at, None), song) == song_rows(profiles, song),
{
    lemma_insert_missing_upto(profiles, at, (profiles.len() + 1) as int);
    assert(profiles.insert(at, None).len() == profiles.len() + 1);
}

} // verus!
