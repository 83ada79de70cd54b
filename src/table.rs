use vstd::prelude::*;
use crate::save::{ProcessedRecord, RowModel};

verus! {

/// Number of columns of an exported table.
pub const COLUMN_COUNT: usize = 7;

/// One cell of an exported table. `Real` holds the IEEE 754 binary64 bit
/// pattern of a number.
#[derive(Clone, Debug)]
pub enum Cell {
    Text(String),
    Integer(i32),
    Real(u64),
    Boolean(bool),
}

/// What a `Cell` holds, with text as a character sequence.
pub ghost enum CellModel {
    Text(Seq<char>),
    Integer(i32),
    Real(u64),
    Boolean(bool),
}

impl View for Cell {
    type V = CellModel;

    open spec fn view(&self) -> CellModel {
        match self {
            Cell::Text(s) => CellModel::Text(s@),
            Cell::Integer(n) => CellModel::Integer(*n),
            Cell::Real(b) => CellModel::Real(*b),
            Cell::Boolean(b) => CellModel::Boolean(*b),
        }
    }
}

pub open spec fn cell_views(v: Seq<Cell>) -> Seq<CellModel> {
    v.map_values(|c: Cell| c@)
}

/// Name of column `i`, in the fixed column order.
pub open spec fn column_name(i: int) -> Seq<char> {
    if i == 0 {
        "song_name"@
    } else if i == 1 {
        "difficulty"@
    } else if i == 2 {
        "score"@
    } else if i == 3 {
        "acc"@
    } else if i == 4 {
        "fc"@
    } else if i == 5 {
        "ranking_score"@
    } else {
        "game_version"@
    }
}

/// The header row: each column's name as text.
pub open spec fn header_cells() -> Seq<CellModel> {
    Seq::new(COLUMN_COUNT as nat, |i: int| CellModel::Text(column_name(i)))
}

/// The cells of one record, in column order.
pub open spec fn row_cells(m: RowModel) -> Seq<CellModel> {
    seq![
        CellModel::Text(m.song_name),
        CellModel::Text(m.difficulty),
        CellModel::Integer(m.score),
        CellModel::Real(m.acc_bits),
        CellModel::Boolean(m.fc),
        CellModel::Real(m.ranking_score_bits),
        CellModel::Text(m.game_version),
    ]
}

/// The record that a row of cells holds, if the row has the record layout.
pub open spec fn record_of(cells: Seq<CellModel>) -> Option<RowModel> {
    if cells.len() == COLUMN_COUNT {
        match (cells[0], cells[1], cells[2], cells[3], cells[4], cells[5], cells[6]) {
            (
                CellModel::Text(song_name),
                CellModel::Text(difficulty),
                CellModel::Integer(score),
                CellModel::Real(acc_bits),
                CellModel::Boolean(fc),
                CellModel::Real(ranking_score_bits),
                CellModel::Text(game_version),
            ) => Some(
                RowModel { song_name, difficulty, score, acc_bits, fc, ranking_score_bits, game_version },
            ),
            _ => None,
        }
    } else {
        None
    }
}

/// A whole table: the header row, then one row per record in record order.
pub open spec fn table_of(records: Seq<RowModel>) -> Seq<Seq<CellModel>> {
    seq![header_cells()] + records.map_values(|m: RowModel| row_cells(m))
}

fn column_title(i: usize) -> (r: String)
    requires
        i < COLUMN_COUNT,
    ensures
        r@ == column_name(i as int),
{
    if i == 0 {
        "song_name".to_owned()
    } else if i == 1 {
        "difficulty".to_owned()
    } else if i == 2 {
        "score".to_owned()
    } else if i == 3 {
        "acc".to_owned()
    } else if i == 4 {
        "fc".to_owned()
    } else if i == 5 {
        "ranking_score".to_owned()
    } else {
        "game_version".to_owned()
    }
}

/// The header row of an exported table.
pub fn header_row() -> (r: Vec<Cell>)
    ensures
        cell_views(r@) == header_cells(),
{
    let mut row: Vec<Cell> = Vec::new();
    let mut i: usize = 0;
    while i < COLUMN_COUNT
        invariant
            i <= COLUMN_COUNT,
            cell_views(row@) == header_cells().take(i as int),
        decreases COLUMN_COUNT - i,
    {
        let ghost before = row@;
        row.push(Cell::Text(column_title(i)));
        assert(cell_views(row@) =~= header_cells().take(i + 1)) by {
            assert(cell_views(row@) =~= cell_views(before).push(CellModel::Text(column_name(i as int))));
        }
        i = i + 1;
    }
    assert(header_cells().take(COLUMN_COUNT as int) =~= header_cells());
    row
}

/// The cells of one record, in column order.
pub fn record_cells(rec: &ProcessedRecord) -> (r: Vec<Cell>)
    ensures
        cell_views(r@) == row_cells(rec@),
{
    let r = vec![
        Cell::Text(rec.song_name.clone()),
        Cell::Text(rec.difficulty.clone()),
        Cell::Integer(rec.score),
        Cell::Real(rec.acc_bits),
        Cell::Boolean(rec.fc),
        Cell::Real(rec.ranking_score_bits),
        Cell::Text(rec.game_version.clone()),
    ];
    assert(cell_views(r@) =~= row_cells(rec@));
    r
}

/// The rows of the table that exports `records`: the header, then one row
/// per record, in the records' order.
pub fn tabulate(records: &Vec<ProcessedRecord>) -> (r: Vec<Vec<Cell>>)
    ensures
        r@.len() == records@.len() + 1,
        forall|i: int| 0 <= i < r@.len() ==> cell_views(#[trigger] r@[i]@) == table_of(
            records@.map_values(|p: ProcessedRecord| p@),
        )[i],
{
    let ghost models = records@.map_values(|p: ProcessedRecord| p@);
    let mut rows: Vec<Vec<Cell>> = Vec::new();
    rows.push(header_row());
    let mut i: usize = 0;
    while i < records.len()
        invariant
            i <= records@.len(),
            models == records@.map_values(|p: ProcessedRecord| p@),
            rows@.len() == i + 1,
            forall|j: int| 0 <= j < rows@.len() ==> cell_views(#[trigger] rows@[j]@) == table_of(models)[j],
        decreases records@.len() - i,
    {
        let ghost before = rows@;
        rows.push(record_cells(&records[i]));
        assert forall|j: int| 0 <= j < rows@.len() implies cell_views(#[trigger] rows@[j]@) == table_of(models)[j] by {
            if j < before.len() {
                assert(rows@[j] == before[j]);
            }
        }
        i = i + 1;
    }
    rows
}

/// The record that a row of cells holds, or `None` when the row does not
/// have the record layout.
pub fn record_from_cells(cells: &Vec<Cell>) -> (r: Option<ProcessedRecord>)
    ensures
        match r {
            Some(p) => record_of(cell_views(cells@)) == Some(p@),
            None => record_of(cell_views(cells@)) is None,
        },
{
    if cells.len() != COLUMN_COUNT {
        return None;
    }
    match (&cells[0], &cells[1], &cells[2], &cells[3], &cells[4], &cells[5], &cells[6]) {
        (
            Cell::Text(song_name),
            Cell::Text(difficulty),
            Cell::Integer(score),
            Cell::Real(acc_bits),
            Cell::Boolean(fc),
            Cell::Real(ranking_score_bits),
            Cell::Text(game_version),
        ) => Some(
            ProcessedRecord {
                song_name: song_name.clone(),
                difficulty: difficulty.clone(),
                score: *score,
                acc_bits: *acc_bits,
                fc: *fc,
                ranking_score_bits: *ranking_score_bits,
                game_version: game_version.clone(),
            },
        ),
        _ => None,
    }
}

/// Reading back a written table gives the records that were written: the
/// table has one row past the header per record, and the row after the
/// header at position `i` holds exactly the fields of record `i`.
pub proof fn lemma_table_round_trip(records: Seq<RowModel>)
    ensures
        table_of(records).len() == records.len() + 1,
        record_of(table_of(records)[0]) is None,
        forall|i: int| 0 <= i < records.len() ==> record_of(#[trigger] table_of(records)[i + 1]) == Some(records[i]),
{
    assert(header_cells()[0] == CellModel::Text(column_name(0)));
    assert(header_cells()[2] == CellModel::Text(column_name(2)));
    assert forall|i: int| 0 <= i < records.len() implies record_of(#[trigger] table_of(records)[i + 1]) == Some(records[i]) by {
        assert(table_of(records)[i + 1] == row_cells(records[i]));
    }
}

} // verus!
