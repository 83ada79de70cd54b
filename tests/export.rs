use rks_export::aggregate::{aggregate, plan_exports};
use rks_export::canonical::canonicalize;
use rks_export::catalog::get_all_song_names;
use rks_export::decimal::decimal_string;
use rks_export::order::{insert_sorted, text_less};
use rks_export::save::{
    difficulty_name, process_save_file, ProcessedRecord, SaveData, SaveInfo, ScoreRecord, SongScores,
    Summary,
};
use rks_export::table::{header_row, record_cells, record_from_cells, tabulate, Cell};

fn slot(score: i32, acc: f64, fc: bool) -> Option<ScoreRecord> {
    Some(ScoreRecord { score, acc_bits: acc.to_bits(), fc })
}

fn song(id: &str, slots: Vec<Option<ScoreRecord>>) -> SongScores {
    SongScores { song_id: id.to_string(), slots }
}

fn doc(songs: Vec<SongScores>, ranking_score: f64, game_version: i32) -> SaveData {
    SaveData {
        game_record: songs,
        save_info: SaveInfo {
            summary: Summary { ranking_score_bits: ranking_score.to_bits(), game_version },
        },
    }
}

fn scenario_profiles() -> Vec<Option<SaveData>> {
    vec![
        Some(doc(vec![song("songA.1", vec![slot(900000, 99.1, true), None, None, None])], 15.2, 200)),
        Some(doc(vec![song("songA.2", vec![None, slot(800000, 90.0, false), None, None])], 14.0, 199)),
    ]
}

fn same_record(a: &ProcessedRecord, b: &ProcessedRecord) -> bool {
    a.song_name == b.song_name
        && a.difficulty == b.difficulty
        && a.score == b.score
        && a.acc_bits == b.acc_bits
        && a.fc == b.fc
        && a.ranking_score_bits == b.ranking_score_bits
        && a.game_version == b.game_version
}

#[test]
fn canonicalize_strips_numeric_suffix() {
    assert_eq!(canonicalize("foo.1"), "foo");
    assert_eq!(canonicalize("a.b.2"), "a.b");
    assert_eq!(canonicalize("song.123"), "song");
}

#[test]
fn canonicalize_keeps_other_identifiers() {
    assert_eq!(canonicalize("foo.bar"), "foo.bar");
    assert_eq!(canonicalize("foo"), "foo");
    assert_eq!(canonicalize("foo."), "foo.");
    assert_eq!(canonicalize(""), "");
    assert_eq!(canonicalize("a.1b"), "a.1b");
    assert_eq!(canonicalize(".7"), "");
    assert_eq!(canonicalize("曲.2"), "曲");
}

#[test]
fn decimal_string_matches_to_string() {
    for n in [0, 7, 10, 199, 200, -1, -45, i32::MAX, i32::MIN] {
        assert_eq!(decimal_string(n), n.to_string());
    }
}

#[test]
fn difficulty_names_by_slot() {
    assert_eq!(difficulty_name(0), "EZ");
    assert_eq!(difficulty_name(1), "HD");
    assert_eq!(difficulty_name(2), "IN");
    assert_eq!(difficulty_name(3), "AT");
}

#[test]
fn rows_count_present_slots_capped_at_four() {
    let d = doc(
        vec![
            song("x.1", vec![slot(1, 1.0, false), None, slot(3, 3.0, true)]),
            song("y", vec![None, None, None, None, slot(5, 5.0, true), slot(6, 6.0, true)]),
            song("z", vec![slot(7, 7.0, false), slot(8, 8.0, false), slot(9, 9.0, false), slot(10, 10.0, true), slot(11, 11.0, true)]),
            song("w", vec![]),
        ],
        12.5,
        3,
    );
    let rows = process_save_file(&d);
    assert_eq!(rows.len(), 6);
    assert!(rows.iter().all(|r| r.difficulty != "" && r.score != 5 && r.score != 6 && r.score != 11));
}

#[test]
fn rows_labelled_by_slot_index() {
    let d = doc(
        vec![song("s.4", vec![slot(1, 1.0, false), slot(2, 2.0, false), slot(3, 3.0, false), slot(4, 4.0, true)])],
        1.5,
        -2,
    );
    let rows = process_save_file(&d);
    let labels: Vec<&str> = rows.iter().map(|r| r.difficulty.as_str()).collect();
    assert_eq!(labels, vec!["EZ", "HD", "IN", "AT"]);
    for (i, r) in rows.iter().enumerate() {
        assert_eq!(r.song_name, "s");
        assert_eq!(r.score, i as i32 + 1);
        assert_eq!(r.acc_bits, ((i + 1) as f64).to_bits());
        assert_eq!(r.ranking_score_bits, 1.5f64.to_bits());
        assert_eq!(r.game_version, "-2");
    }
    assert!(rows[3].fc);
}

#[test]
fn catalog_sorted_distinct_and_deterministic() {
    let profiles = vec![
        Some(doc(vec![song("b.1", vec![None]), song("a", vec![]), song("b.2", vec![])], 1.0, 1)),
        None,
        Some(doc(vec![song("c.x", vec![]), song("a.9", vec![]), song("B", vec![])], 2.0, 2)),
    ];
    let first = get_all_song_names(&profiles);
    assert_eq!(first, vec!["B", "a", "b", "c.x"]);
    let second = get_all_song_names(&profiles);
    assert_eq!(first, second);
}

#[test]
fn scenario_two_profiles_one_song() {
    let profiles = scenario_profiles();
    assert_eq!(get_all_song_names(&profiles), vec!["songA"]);
    let rows = aggregate(&profiles, "songA");
    assert_eq!(rows.len(), 2);
    assert_eq!(rows[0].song_name, "songA");
    assert_eq!(rows[0].difficulty, "EZ");
    assert_eq!(rows[0].score, 900000);
    assert_eq!(f64::from_bits(rows[0].acc_bits), 99.1);
    assert!(rows[0].fc);
    assert_eq!(f64::from_bits(rows[0].ranking_score_bits), 15.2);
    assert_eq!(rows[0].game_version, "200");
    assert_eq!(rows[1].song_name, "songA");
    assert_eq!(rows[1].difficulty, "HD");
    assert_eq!(rows[1].score, 800000);
    assert_eq!(f64::from_bits(rows[1].acc_bits), 90.0);
    assert!(!rows[1].fc);
    assert_eq!(f64::from_bits(rows[1].ranking_score_bits), 14.0);
    assert_eq!(rows[1].game_version, "199");
}

#[test]
fn missing_profile_contributes_nothing() {
    let mut profiles = scenario_profiles();
    let before = aggregate(&profiles, "songA");
    profiles.insert(1, None);
    profiles.push(None);
    assert_eq!(get_all_song_names(&profiles), vec!["songA"]);
    let after = aggregate(&profiles, "songA");
    assert_eq!(before.len(), after.len());
    assert!(before.iter().zip(after.iter()).all(|(a, b)| same_record(a, b)));
    let tables = plan_exports(&profiles);
    assert_eq!(tables.len(), 1);
    assert_eq!(tables[0].records.len(), 2);
}

#[test]
fn aggregate_filters_by_song_and_covers_all_rows() {
    let profiles = vec![
        Some(doc(vec![song("a.1", vec![slot(1, 1.0, true)]), song("b", vec![slot(2, 2.0, false), slot(3, 3.0, false)])], 1.0, 1)),
        Some(doc(vec![song("a", vec![None, slot(4, 4.0, true)]), song("c.2", vec![None])], 2.0, 2)),
    ];
    let names = get_all_song_names(&profiles);
    assert_eq!(names, vec!["a", "b", "c"]);
    let mut total = 0;
    for name in &names {
        let rows = aggregate(&profiles, name);
        assert!(rows.iter().all(|r| &r.song_name == name));
        total += rows.len();
    }
    let all: usize = profiles.iter().flatten().map(|d| process_save_file(d).len()).sum();
    assert_eq!(total, all);
    assert_eq!(total, 4);
    let a_rows = aggregate(&profiles, "a");
    let scores: Vec<i32> = a_rows.iter().map(|r| r.score).collect();
    assert_eq!(scores, vec![1, 4]);
    assert_eq!(aggregate(&profiles, "zzz").len(), 0);
}

#[test]
fn song_without_rows_gets_no_table() {
    let profiles = vec![
        Some(doc(vec![song("empty.1", vec![None, None, None, None]), song("full", vec![slot(1, 1.0, true)])], 1.0, 1)),
    ];
    assert_eq!(get_all_song_names(&profiles), vec!["empty", "full"]);
    let tables = plan_exports(&profiles);
    assert_eq!(tables.len(), 1);
    assert_eq!(tables[0].song_name, "full");
    assert_eq!(plan_exports(&vec![]).len(), 0);
}

#[test]
fn plan_lists_songs_in_order_with_their_rows() {
    let profiles = vec![
        Some(doc(vec![song("zeta", vec![slot(1, 1.0, true)]), song("alpha.3", vec![slot(2, 2.0, true)])], 1.0, 1)),
        Some(doc(vec![song("alpha", vec![None, None, slot(3, 3.0, false)])], 2.0, 2)),
    ];
    let tables = plan_exports(&profiles);
    let names: Vec<&str> = tables.iter().map(|t| t.song_name.as_str()).collect();
    assert_eq!(names, vec!["alpha", "zeta"]);
    assert_eq!(tables[0].records.len(), 2);
    assert_eq!(tables[0].records[1].difficulty, "IN");
    assert_eq!(tables[1].records.len(), 1);
}

#[test]
fn text_order_is_lexicographic() {
    assert!(text_less("a", "b"));
    assert!(text_less("", "a"));
    assert!(text_less("ab", "abc"));
    assert!(text_less("B", "a"));
    assert!(!text_less("abc", "ab"));
    assert!(!text_less("same", "same"));
    assert!(text_less("z", "é"));
}

#[test]
fn insert_sorted_keeps_order_and_skips_duplicates() {
    let mut names: Vec<String> = Vec::new();
    for n in ["m", "c", "x", "c", "a", "m"] {
        insert_sorted(&mut names, n.to_string());
    }
    assert_eq!(names, vec!["a", "c", "m", "x"]);
}

#[test]
fn header_and_record_cells_in_column_order() {
    let header = header_row();
    let titles: Vec<String> = header
        .iter()
        .map(|c| match c {
            Cell::Text(s) => s.clone(),
            _ => panic!("header cell is not text"),
        })
        .collect();
    assert_eq!(titles, vec!["song_name", "difficulty", "score", "acc", "fc", "ranking_score", "game_version"]);
    let rows = aggregate(&scenario_profiles(), "songA");
    let cells = record_cells(&rows[1]);
    assert_eq!(cells.len(), 7);
    assert!(matches!(&cells[0], Cell::Text(s) if s == "songA"));
    assert!(matches!(&cells[1], Cell::Text(s) if s == "HD"));
    assert!(matches!(cells[2], Cell::Integer(800000)));
    assert!(matches!(cells[3], Cell::Real(b) if f64::from_bits(b) == 90.0));
    assert!(matches!(cells[4], Cell::Boolean(false)));
    assert!(matches!(cells[5], Cell::Real(b) if f64::from_bits(b) == 14.0));
    assert!(matches!(&cells[6], Cell::Text(s) if s == "199"));
}

#[test]
fn table_reads_back_records() {
    let records = aggregate(&scenario_profiles(), "songA");
    let table = tabulate(&records);
    assert_eq!(table.len(), records.len() + 1);
    assert!(record_from_cells(&table[0]).is_none());
    for (i, rec) in records.iter().enumerate() {
        let back = record_from_cells(&table[i + 1]).expect("a record row");
        assert!(same_record(&back, rec));
    }
    assert!(record_from_cells(&vec![Cell::Integer(1)]).is_none());
    assert_eq!(tabulate(&vec![]).len(), 1);
}

#[test]
fn csv_round_trip_keeps_values() {
    let records = aggregate(&scenario_profiles(), "songA");
    let table = tabulate(&records);
    let mut writer = csv::Writer::from_writer(Vec::new());
    for row in &table {
        let fields: Vec<String> = row
            .iter()
            .map(|c| match c {
                Cell::Text(s) => s.clone(),
                Cell::Integer(n) => n.to_string(),
                Cell::Real(b) => f64::from_bits(*b).to_string(),
                Cell::Boolean(b) => b.to_string(),
            })
            .collect();
        writer.write_record(&fields).unwrap();
    }
    let bytes = writer.into_inner().unwrap();
    let mut reader = csv::Reader::from_reader(bytes.as_slice());
    let mut n = 0;
    for (i, rec) in reader.records().enumerate() {
        let rec = rec.unwrap();
        let cells = vec![
            Cell::Text(rec[0].to_string()),
            Cell::Text(rec[1].to_string()),
            Cell::Integer(rec[2].parse().unwrap()),
            Cell::Real(rec[3].parse::<f64>().unwrap().to_bits()),
            Cell::Boolean(rec[4].parse().unwrap()),
            Cell::Real(rec[5].parse::<f64>().unwrap().to_bits()),
            Cell::Text(rec[6].to_string()),
        ];
        let back = record_from_cells(&cells).unwrap();
        assert!(same_record(&back, &records[i]));
        n += 1;
    }
    assert_eq!(n, records.len());
}
