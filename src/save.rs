use vstd::prelude::*;
use crate::canonical::{canonical, canonicalize};
use crate::decimal::{decimal, decimal_string};

verus! {

/// Number of difficulty slots a song can have; slots past it are ignored.
pub const SLOT_COUNT: usize = 4;

/// One recorded performance on one song and difficulty.
/// `acc_bits` is the IEEE 754 binary64 bit pattern of the accuracy.
#[derive(Clone, Copy, Debug, PartialEq, Eq, Structural)]
pub struct ScoreRecord {
    pub score: i32,
    pub acc_bits: u64,
    pub fc: bool,
}

/// Profile-level values copied onto every row of one save document.
/// `ranking_score_bits` is the IEEE 754 binary64 bit pattern of the ranking score.
#[derive(Clone, Copy, Debug, PartialEq, Eq, Structural)]
pub struct Summary {
    pub ranking_score_bits: u64,
    pub game_version: i32,
}

/// The `saveInfo` part of a save document.
#[derive(Clone, Copy, Debug, PartialEq, Eq, Structural)]
pub struct SaveInfo {
    pub summary: Summary,
}

/// The score slots recorded under one raw song identifier; slot `i` holds
/// the difficulty of index `i`.
#[derive(Clone, Debug)]
pub struct SongScores {
    pub song_id: String,
    pub slots: Vec<Option<ScoreRecord>>,
}

/// One profile's save document.
#[derive(Clone, Debug)]
pub struct SaveData {
    pub game_record: Vec<SongScores>,
    pub save_info: SaveInfo,
}

/// One flat output row: a present slot of one song in one profile.
#[derive(Clone, Debug)]
pub struct ProcessedRecord {
    pub song_name: String,
    pub difficulty: String,
    pub score: i32,
    pub acc_bits: u64,
    pub fc: bool,
    pub ranking_score_bits: u64,
    pub game_version: String,
}

/// What a `ProcessedRecord` holds, with texts as character sequences.
pub ghost struct RowModel {
    pub song_name: Seq<char>,
    pub difficulty: Seq<char>,
    pub score: i32,
    pub acc_bits: u64,
    pub fc: bool,
    pub ranking_score_bits: u64,
    pub game_version: Seq<char>,
}

impl View for ProcessedRecord {
    type V = RowModel;

    open spec fn view(&self) -> RowModel {
        RowModel {
            song_name: self.song_name@,
            difficulty: self.difficulty@,
            score: self.score,
            acc_bits: self.acc_bits,
            fc: self.fc,
            ranking_score_bits: self.ranking_score_bits,
            game_version: self.game_version@,
        }
    }
}

/// The models of a sequence of records, in order.
pub open spec fn views(v: Seq<ProcessedRecord>) -> Seq<RowModel> {
    v.map_values(|p: ProcessedRecord| p@)
}

/// Difficulty label of slot `i`: EZ, HD, IN, AT for slots 0 to 3.
pub open spec fn difficulty_label(i: int) -> Seq<char> {
    if i == 0 {
        seq!['E', 'Z']
    } else if i == 1 {
        seq!['H', 'D']
    } else if i == 2 {
        seq!['I', 'N']
    } else {
        seq!['A', 'T']
    }
}

/// Number of slots of a song that are read: at most `SLOT_COUNT`.
pub open spec fn slot_limit(len: int) -> int {
    if len < SLOT_COUNT { len } else { SLOT_COUNT as int }
}

pub open spec fn row_model(name: Seq<char>, i: int, rec: ScoreRecord, summary: Summary) -> RowModel {
    RowModel {
        song_name: name,
        difficulty: difficulty_label(i),
        score: rec.score,
        acc_bits: rec.acc_bits,
        fc: rec.fc,
        ranking_score_bits: summary.ranking_score_bits,
        game_version: decimal(summary.game_version as int),
    }
}

/// Rows of the first `n` slots, one per present slot, in slot order.
pub open spec fn slot_rows(
    name: Seq<char>,
    slots: Seq<Option<ScoreRecord>>,
    summary: Summary,
    n: int,
) -> Seq<RowModel>
    decreases n,
{
    if n <= 0 {
        Seq::empty()
    } else {
        let prev = slot_rows(name, slots, summary, n - 1);
        match slots[n - 1] {
            Some(rec) => prev.push(row_model(name, n - 1, rec, summary)),
            None => prev,
        }
    }
}

/// Rows of one song entry, under its canonical name.
pub open spec fn entry_rows(e: SongScores, summary: Summary) -> Seq<RowModel> {
    slot_rows(canonical(e.song_id@), e.slots@, summary, slot_limit(e.slots@.len() as int))
}

/// Rows of the first `k` song entries of a document, entry after entry.
pub open spec fn rows_upto(doc: SaveData, k: int) -> Seq<RowModel>
    decreases k,
{
    if k <= 0 {
        Seq::empty()
    } else {
        rows_upto(doc, k - 1) + entry_rows(doc.game_record@[k - 1], doc.save_info.summary)
    }
}

/// All rows of a save document.
pub open spec fn save_rows(doc: SaveData) -> Seq<RowModel> {
    rows_upto(doc, doc.game_record@.len() as int)
}

/// Label of a difficulty slot.
pub fn difficulty_name(i: usize) -> (r: &'static str)
    requires
        i < SLOT_COUNT,
    ensures
        r@ == difficulty_label(i as int),
{
    proof {
        reveal_strlit("EZ");
        reveal_strlit("HD");
        reveal_strlit("IN");
        reveal_strlit("AT");
    }
    if i == 0 {
        "EZ"
    } else if i == 1 {
        "HD"
    } else if i == 2 {
        "IN"
    } else {
        "AT"
    }
}

/// Flattens a save document into rows: for each song entry, one row per
/// present slot among its first `SLOT_COUNT`, labelled by slot index and
/// carrying the document's ranking score and game version.
pub fn process_save_file(save: &SaveData) -> (r: Vec<ProcessedRecord>)
    ensures
        views(r@) == save_rows(*save),
{
    let summary = save.save_info.summary;
    let game_version = decimal_string(summary.game_version);
    let mut out: Vec<ProcessedRecord> = Vec::new();
    let mut k: usize = 0;
    while k < save.game_record.len()
        invariant
            k <= save.game_record@.len(),
            summary == save.save_info.summary,
            game_version@ == decimal(summary.game_version as int),
            views(out@) == rows_upto(*save, k as int),
        decreases save.game_record@.len() - k,
    {
        let entry = &save.game_record[k];
        let name = canonicalize(entry.song_id.as_str());
        let limit: usize = if entry.slots.len() < SLOT_COUNT { entry.slots.len() } else { SLOT_COUNT };
        let mut i: usize = 0;
        while i < limit
            invariant
                i <= limit,
                limit == slot_limit(entry.slots@.len() as int),
                name@ == canonical(entry.song_id@),
                summary == save.save_info.summary,
                game_version@ == decimal(summary.game_version as int),
                views(out@) == rows_upto(*save, k as int) + slot_rows(name@, entry.slots@, summary, i as int),
            decreases limit - i,
        {
            let ghost before = out@;
            match &entry.slots[i] {
                Some(rec) => {
                    let row = ProcessedRecord {
                        song_name: name.clone(),
                        difficulty: difficulty_name(i).to_owned(),
                        score: rec.score,
                        acc_bits: rec.acc_bits,
                        fc: rec.fc,
                        ranking_score_bits: summary.ranking_score_bits,
                        game_version: game_version.clone(),
                    };
                    out.push(row);
                    assert(views(out@) =~= views(before).push(row@));
                },
                None => {},
            }
            assert(views(out@) =~= rows_upto(*save, k as int) + slot_rows(name@, entry.slots@, summary, i + 1));
            i = i + 1;
        }
        assert(views(out@) =~= rows_upto(*save, k + 1));
        k = k + 1;
    }
    out
}

} // verus!

verus! {

impl ProcessedRecord {
    /// A copy of this record, field by field.
    pub fn duplicate(&self) -> (r: ProcessedRecord)
        ensures
            r@ == self@,
    {
        ProcessedRecord {
            song_name: self.song_name.clone(),
            difficulty: self.difficulty.clone(),
            score: self.score,
            acc_bits: self.acc_bits,
            fc: self.fc,
            ranking_score_bits: self.ranking_score_bits,
            game_version: self.game_version.clone(),
        }
    }
}

} // verus!

verus! {

pub open spec fn is_present(slot: Option<ScoreRecord>) -> bool {
    slot is Some
}

/// Number of present slots among the first `SLOT_COUNT` of a song.
pub open spec fn present_slots(slots: Seq<Option<ScoreRecord>>) -> nat {
    slots.take(slot_limit(slots.len() as int)).filter(|o: Option<ScoreRecord>| is_present(o)).len()
}

/// Number of present slots, at most `SLOT_COUNT` per song, over the first
/// `k` song entries.
pub open spec fn present_upto(doc: SaveData, k: int) -> nat
    decreases k,
{
    if k <= 0 {
        0
    } else {
        present_upto(doc, k - 1) + present_slots(doc.game_record@[k - 1].slots@)
    }
}

proof fn lemma_slot_rows_len(name: Seq<char>, slots: Seq<Option<ScoreRecord>>, summary: Summary, n: int)
    requires
        0 <= n <= slots.len(),
    ensures
        slot_rows(name, slots, summary, n).len()
            == slots.take(n).filter(|o: Option<ScoreRecord>| is_present(o)).len(),
    decreases n,
{
    let pred = |o: Option<ScoreRecord>| is_present(o);
    if n == 0 {
        assert(slots.take(0) =~= Seq::<Option<ScoreRecord>>::empty());
    } else {
        lemma_slot_rows_len(name, slots, summary, n - 1);
        assert(slots.take(n) =~= slots.take(n - 1).push(slots[n - 1]));
        slots.take(n - 1).lemma_filter_push(slots[n - 1], pred);
    }
}

proof fn lemma_rows_upto_len(doc: SaveData, k: int)
    requires
        0 <= k <= doc.game_record@.len(),
    ensures
        rows_upto(doc, k).len() == present_upto(doc, k),
    decreases k,
{
    if k > 0 {
        lemma_rows_upto_len(doc, k - 1);
        let e = doc.game_record@[k - 1];
        lemma_slot_rows_len(canonical(e.song_id@), e.slots@, doc.save_info.summary, slot_limit(e.slots@.len() as int));
    }
}

/// A save document yields exactly as many rows as it has present slots,
/// counting at most `SLOT_COUNT` slots per song.
pub proof fn lemma_row_count(doc: SaveData)
    ensures
        save_rows(doc).len() == present_upto(doc, doc.game_record@.len() as int),
{
    lemma_rows_upto_len(doc, doc.game_record@.len() as int);
}

proof fn lemma_slot_rows_origin(
    name: Seq<char>,
    slots: Seq<Option<ScoreRecord>>,
    summary: Summary,
    n: int,
    r: RowModel,
)
    requires
        0 <= n <= slots.len(),
        slot_rows(name, slots, summary, n).contains(r),
    ensures
        exists|i: int|
            0 <= i < n && #[trigger] slots[i] is Some && r == row_model(name, i, slots[i]->Some_0, summary),
    decreases n,
{
    let prev = slot_rows(name, slots, summary, n - 1);
    match slots[n - 1] {
        Some(rec) => {
            let full = prev.push(row_model(name, n - 1, rec, summary));
            let j = choose|j: int| 0 <= j < full.len() && #[trigger] full[j] == r;
            if j < prev.len() {
                assert(prev[j] == r);
                lemma_slot_rows_origin(name, slots, summary, n - 1, r);
                let i = choose|i: int|
                    0 <= i < n - 1 && #[trigger] slots[i] is Some && r == row_model(name, i, slots[i]->Some_0, summary);
                assert(0 <= i < n);
            } else {
                assert(slots[n - 1] is Some);
            }
        },
        None => {
            lemma_slot_rows_origin(name, slots, summary, n - 1, r);
            let i = choose|i: int|
                0 <= i < n - 1 && #[trigger] slots[i] is Some && r == row_model(name, i, slots[i]->Some_0, summary);
            assert(0 <= i < n);
        },
    }
}

/// The row of slot `i` of song entry `k` of a document.
pub open spec fn slot_row(doc: SaveData, k: int, i: int) -> RowModel {
    row_model(
        canonical(doc.game_record@[k].song_id@),
        i,
        doc.game_record@[k].slots@[i]->Some_0,
        doc.save_info.summary,
    )
}

/// Slot `i` of song entry `k` is present and below `SLOT_COUNT`.
pub open spec fn emits(doc: SaveData, k: int, i: int) -> bool {
    &&& 0 <= k < doc.game_record@.len()
    &&& 0 <= i < SLOT_COUNT
    &&& i < doc.game_record@[k].slots@.len()
    &&& doc.game_record@[k].slots@[i] is Some
}

proof fn lemma_rows_upto_origin(doc: SaveData, k: int, r: RowModel)
    requires
        0 <= k <= doc.game_record@.len(),
        rows_upto(doc, k).contains(r),
    ensures
        exists|e: int, i: int| 0 <= e < k && #[trigger] emits(doc, e, i) && r == slot_row(doc, e, i),
    decreases k,
{
    let prev = rows_upto(doc, k - 1);
    let ent = doc.game_record@[k - 1];
    let here = entry_rows(ent, doc.save_info.summary);
    let full = prev + here;
    let j = choose|j: int| 0 <= j < full.len() && #[trigger] full[j] == r;
    if j < prev.len() {
        assert(prev[j] == r);
        lemma_rows_upto_origin(doc, k - 1, r);
        let (e, i) = choose|e: int, i: int| 0 <= e < k - 1 && #[trigger] emits(doc, e, i) && r == slot_row(doc, e, i);
        assert(0 <= e < k);
    } else {
        assert(here[j - prev.len()] == r);
        lemma_slot_rows_origin(
            canonical(ent.song_id@),
            ent.slots@,
            doc.save_info.summary,
            slot_limit(ent.slots@.len() as int),
            r,
        );
        let i = choose|i: int|
            0 <= i < slot_limit(ent.slots@.len() as int) && #[trigger] ent.slots@[i] is Some
                && r == row_model(canonical(ent.song_id@), i, ent.slots@[i]->Some_0, doc.save_info.summary);
        assert(emits(doc, k - 1, i));
    }
}

/// Every row of a save document comes from a present slot whose index is
/// below `SLOT_COUNT`; its difficulty is the label of that index alone, and
/// its song name is the canonical form of the entry's identifier.
pub proof fn lemma_rows_come_from_slots(doc: SaveData, r: RowModel)
    requires
        save_rows(doc).contains(r),
    ensures
        exists|k: int, i: int| #[trigger] emits(doc, k, i) && r == slot_row(doc, k, i),
{
    lemma_rows_upto_origin(doc, doc.game_record@.len() as int, r);
}

} // verus!
