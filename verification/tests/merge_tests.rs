use voice_features::merge::{merge_table, ResultRow};

fn row(time: &str, cells: &[&str]) -> ResultRow {
    ResultRow {
        time_cell: time.to_string(),
        value_cells: cells.iter().map(|c| c.to_string()).collect(),
    }
}

#[test]
fn merge_two_channels_of_unequal_length() {
    // Channel 1 has 3 entries, channel 2 has 2: the table has 3 rows and
    // channel 2's columns are fill cells in the last row.
    let chans = vec![
        vec![
            row("0.0000", &["100.00", "1.00"]),
            row("0.0250", &["110.00", "2.00"]),
            row("0.0500", &["120.00", "3.00"]),
        ],
        vec![
            row("0.0000", &["200.00", "4.00"]),
            row("0.0250", &["210.00", "5.00"]),
        ],
    ];
    let table = merge_table(&chans, 2, "");
    assert_eq!(table.len(), 3);
    assert_eq!(
        table[0],
        vec!["0.0000", "100.00", "1.00", "200.00", "4.00"]
    );
    assert_eq!(
        table[1],
        vec!["0.0250", "110.00", "2.00", "210.00", "5.00"]
    );
    assert_eq!(table[2], vec!["0.0500", "120.00", "3.00", "", ""]);
}

#[test]
fn merge_time_comes_from_first_channel_with_entry() {
    let chans = vec![
        vec![row("0.0000", &["1"])],
        vec![row("9.9999", &["2"]), row("1.2345", &["3"])],
    ];
    let table = merge_table(&chans, 1, "");
    assert_eq!(table.len(), 2);
    // Row 0: channel 1 has an entry, its time wins.
    assert_eq!(table[0], vec!["0.0000", "1", "2"]);
    // Row 1: channel 1 is exhausted, the time falls through to channel 2.
    assert_eq!(table[1], vec!["1.2345", "", "3"]);
}

#[test]
fn merge_all_channels_empty_yields_no_rows() {
    let chans: Vec<Vec<ResultRow>> = vec![vec![], vec![]];
    let table = merge_table(&chans, 6, "");
    assert_eq!(table.len(), 0);
}

#[test]
fn merge_silent_channel_beside_voiced_one() {
    // A skipped (silent) channel contributes an empty sequence, not
    // zero-filled rows: its columns are fill cells in every row.
    let chans = vec![
        vec![],
        vec![row("0.0000", &["220.01"]), row("0.0100", &["219.98"])],
    ];
    let table = merge_table(&chans, 1, "");
    assert_eq!(table.len(), 2);
    assert_eq!(table[0], vec!["0.0000", "", "220.01"]);
    assert_eq!(table[1], vec!["0.0100", "", "219.98"]);
}

#[test]
fn merge_fill_sentinel_is_configurable() {
    let chans = vec![
        vec![row("0.0000", &["440.00"]), row("0.0250", &["441.00"])],
        vec![row("0.0000", &["330.00"])],
    ];
    let table = merge_table(&chans, 1, "no data");
    assert_eq!(table[1], vec!["0.0250", "441.00", "no data"]);
}

#[test]
fn merge_six_column_feature() {
    let cells = ["150.00", "0.5000", "0.4000", "3.0000", "2.5000", "18.00"];
    let chans = vec![vec![row("0.0000", &cells)], vec![]];
    let table = merge_table(&chans, 6, "");
    assert_eq!(table.len(), 1);
    assert_eq!(table[0].len(), 13);
    assert_eq!(&table[0][1..7], &cells);
    assert!(table[0][7..].iter().all(|c| c.is_empty()));
}
