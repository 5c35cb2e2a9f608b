use csv::StringRecord;
use election_result_process::aggregate::{get_result, CenterDetails};
use election_result_process::aggregator::{aggregate_rows, Aggregator, TOTAL_VOTERS};
use election_result_process::classify::{classify, is_empty_row, RowKind};
use election_result_process::errors::{
    InvalidConstituencyName, NotFamiliarRowType, UnpairedTranslation,
};
use election_result_process::names::{get_constituency_name, translations_from_rows};
use election_result_process::symbols::{check_for_new_symbols, sorted_symbols, symbol_positions};
use election_result_process::text_map::TextMap;

fn rec(cells: &[&str]) -> StringRecord {
    StringRecord::from(cells.to_vec())
}

fn strings(items: &[&str]) -> Vec<String> {
    items.iter().map(|s| s.to_string()).collect()
}

fn summary() -> Vec<String> {
    strings(&["মোট বৈধ", "মোট বাতিল"])
}

fn sheet() -> Vec<StringRecord> {
    vec![
        rec(&["", "", "০০৩ ঠাকুরগাঁও-১ : সংসদ সদস্য", "", ""]),
        rec(&["কেন্দ্র", "মোট ভোটার", "", "", "মোট বৈধ", "মোট বাতিল"]),
        rec(&["", "", "নৌকা ", "আম ", "", ""]),
        rec(&[" Beta School ", "900", "300", "200", "500", "10"]),
        rec(&["", "", "", "", "", ""]),
        rec(&["Alpha School", "800", "100", "50", "150", "5"]),
        rec(&["", "", "০০১ পঞ্চগড়-১ : সংসদ সদস্য", "", ""]),
        rec(&["কেন্দ্র", "মোট ভোটার", "", "", "মোট বৈধ", "মোট বাতিল"]),
        rec(&["", "", "মিনার", "নৌকা", "", ""]),
        rec(&["Gamma School", "700", "40", "60"]),
    ]
}

#[test]
fn extract_name_with_translation_of_short_row() {
    let table = translations_from_rows(&vec![rec(&["০০৩ ঠাকুরগাঁও-১"]), rec(&["3 Thakurgaon-1"])])
        .unwrap();
    let row = rec(&["", "", "০০৩ ঠাকুরগাঁও-১ : সংসদ সদস্য", "", "", ""]);
    assert_eq!(get_constituency_name(&row, Some(&table)).unwrap(), "3 Thakurgaon-1");
}

#[test]
fn extract_name_without_colon_fails() {
    let table = translations_from_rows(&vec![rec(&["০০৩ ঠাকুরগাঁও-১"]), rec(&["3 Thakurgaon-1"])])
        .unwrap();
    let row = rec(&["", "", "০০৩ ঠাকুরগাঁও-১ সংসদ সদস্য", "", "", ""]);
    assert_eq!(get_constituency_name(&row, Some(&table)), Err(InvalidConstituencyName));
}

#[test]
fn extract_name_without_table_is_trimmed_text_before_colon() {
    let row = rec(&["", "", "", "  ০০৩ ঠাকুরগাঁও-১  : সংসদ সদস্য : x", ""]);
    assert_eq!(get_constituency_name(&row, None).unwrap(), "০০৩ ঠাকুরগাঁও-১");
}

#[test]
fn extract_name_unknown_translation_fails() {
    let table = translations_from_rows(&vec![rec(&["০০১ পঞ্চগড়-১"]), rec(&["1 Panchagarh-1"])])
        .unwrap();
    let row = rec(&["", "০০৩ ঠাকুরগাঁও-১ : সংসদ সদস্য"]);
    assert_eq!(get_constituency_name(&row, Some(&table)), Err(InvalidConstituencyName));
}

#[test]
fn translation_table_with_odd_rows_is_refused() {
    let rows = vec![rec(&["a"]), rec(&["A"]), rec(&["b"])];
    assert_eq!(translations_from_rows(&rows).err(), Some(UnpairedTranslation));
}

#[test]
fn translation_table_later_pair_wins() {
    let rows = vec![rec(&["a"]), rec(&["first"]), rec(&["a"]), rec(&["second"])];
    let table = translations_from_rows(&rows).unwrap();
    assert_eq!(table.get("a").unwrap(), "second");
    assert!(table.get("b").is_none());
}

#[test]
fn symbol_rows_tracked_then_sorted() {
    let rows = vec![
        rec(&["হুক্কা", "হাত পাখা"]),
        rec(&["হুক্কা", "আম"]),
        rec(&["নৌকা", "মিনার"]),
    ];
    let mut symbols = Vec::new();
    for row in &rows {
        check_for_new_symbols(row, &mut symbols);
    }
    assert_eq!(symbols, strings(&["হুক্কা", "হাত পাখা", "আম", "নৌকা", "মিনার"]));
    assert_eq!(
        sorted_symbols(&symbols),
        strings(&["আম", "নৌকা", "মিনার", "হাত পাখা", "হুক্কা"])
    );
}

#[test]
fn recording_a_row_twice_changes_nothing() {
    let row = rec(&["", " নৌকা ", "আম", "নৌকা", "  "]);
    let mut symbols = Vec::new();
    check_for_new_symbols(&row, &mut symbols);
    let once = symbols.clone();
    check_for_new_symbols(&row, &mut symbols);
    assert_eq!(symbols, once);
    assert_eq!(once, strings(&["নৌকা", "আম"]));
}

#[test]
fn final_symbol_list_ignores_row_order() {
    let a = rec(&["", "হুক্কা", "আম"]);
    let b = rec(&["নৌকা", "হুক্কা"]);
    let mut first = Vec::new();
    check_for_new_symbols(&a, &mut first);
    check_for_new_symbols(&b, &mut first);
    let mut second = Vec::new();
    check_for_new_symbols(&b, &mut second);
    check_for_new_symbols(&a, &mut second);
    assert_ne!(first, second);
    assert_eq!(sorted_symbols(&first), sorted_symbols(&second));
    assert_eq!(sorted_symbols(&first), strings(&["আম", "নৌকা", "হুক্কা"]));
}

#[test]
fn sorting_is_by_code_point() {
    let list = strings(&["b", "B", "a", "ab", "", "a"]);
    assert_eq!(sorted_symbols(&list), strings(&["", "B", "a", "ab", "b"]));
}

#[test]
fn positions_skip_blank_cells_and_trim() {
    let row = rec(&["", "  ", " নৌকা ", "", "আম"]);
    assert_eq!(symbol_positions(&row), strings(&["নৌকা", "আম"]));
}

#[test]
fn short_data_row_gives_zero_for_missing_cells() {
    let positions = strings(&["a", "b", "c"]);
    let row = rec(&["center", "100", "5", "7"]);
    let mut results = TextMap::new();
    get_result(&row, &positions, &mut results);
    assert_eq!(results.get("a").unwrap(), "5");
    assert_eq!(results.get("b").unwrap(), "7");
    assert_eq!(results.get("c").unwrap(), "0");
}

#[test]
fn short_data_row_in_aggregation_fills_zeros() {
    let rows = vec![
        rec(&["", "০০১ পঞ্চগড়-১ : সংসদ সদস্য"]),
        rec(&["কেন্দ্র"]),
        rec(&["", "", "x", "y", "z"]),
        rec(&["C", "100", "5", "7"]),
    ];
    let out = aggregate_rows(&rows, None, summary()).unwrap();
    assert_eq!(
        out[0],
        strings(&["Constituency", "Center", "x", "y", "z", "মোট বৈধ", "মোট বাতিল", TOTAL_VOTERS])
    );
    assert_eq!(out[1], strings(&["০০১ পঞ্চগড়-১", "C", "5", "7", "0", "0", "0", "100"]));
}

#[test]
fn blank_row_is_empty_and_changes_nothing() {
    let blank = rec(&["", "  ", "\t"]);
    assert!(is_empty_row(&blank));
    assert_eq!(classify(&blank, false), RowKind::Empty);
    assert_eq!(classify(&blank, true), RowKind::SymbolList);
    let mut agg = Aggregator::new(None, summary());
    for row in sheet().iter().take(4) {
        agg.process_row(row).unwrap();
    }
    let before = agg.table_rows();
    agg.process_row(&blank).unwrap();
    assert_eq!(agg.table_rows(), before);
}

#[test]
fn classify_kinds() {
    assert_eq!(classify(&rec(&["", "০০১ পঞ্চগড়-১ : সংসদ সদস্য"]), true), RowKind::ConstituencyLabel);
    assert_eq!(classify(&rec(&["কেন্দ্র", "মোট ভোটার"]), true), RowKind::CenterInfoHeader);
    assert_eq!(classify(&rec(&["", "নৌকা"]), true), RowKind::SymbolList);
    assert_eq!(classify(&rec(&["School", "10"]), false), RowKind::DataRow);
    assert_eq!(classify(&rec(&["", "পঞ্চগড় সংসদ সদস্য"]), false), RowKind::DataRow);
    assert_eq!(classify(&rec(&[]), false), RowKind::Empty);
}

#[test]
fn whole_sheet_aggregates_in_key_order() {
    let table = translations_from_rows(&vec![
        rec(&["০০৩ ঠাকুরগাঁও-১"]),
        rec(&["3 Thakurgaon-1"]),
        rec(&["০০১ পঞ্চগড়-১"]),
        rec(&["1 Panchagarh-1"]),
    ])
    .unwrap();
    let out = aggregate_rows(&sheet(), Some(table), summary()).unwrap();
    let expected = vec![
        strings(&["Constituency", "Center", "আম", "নৌকা", "মিনার", "মোট বৈধ", "মোট বাতিল", "total_voters"]),
        strings(&["1 Panchagarh-1", "Gamma School", "0", "60", "40", "0", "0", "700"]),
        strings(&["3 Thakurgaon-1", "Alpha School", "50", "100", "0", "150", "5", "800"]),
        strings(&["3 Thakurgaon-1", "Beta School", "200", "300", "0", "500", "10", "900"]),
    ];
    assert_eq!(out, expected);
}

#[test]
fn repeated_center_keeps_last_row() {
    let rows = vec![
        rec(&["", "০০১ X : সংসদ সদস্য"]),
        rec(&["কেন্দ্র"]),
        rec(&["", "", "a"]),
        rec(&["S", "10", "1"]),
        rec(&["S", "20", "2"]),
    ];
    let out = aggregate_rows(&rows, None, Vec::new()).unwrap();
    assert_eq!(out.len(), 2);
    assert_eq!(out[1], strings(&["০০১ X", "S", "2", "20"]));
}

#[test]
fn data_rows_before_any_label_are_ignored() {
    let rows = vec![
        rec(&["কেন্দ্র"]),
        rec(&["", "", "a"]),
        rec(&["S", "10", "1"]),
    ];
    let mut agg = Aggregator::new(None, Vec::new());
    for row in &rows {
        agg.process_row(row).unwrap();
    }
    assert_eq!(agg.symbol_list(), &strings(&["a"]));
    assert_eq!(agg.table_rows(), vec![strings(&["Constituency", "Center", "a", "total_voters"])]);
}

#[test]
fn unreadable_label_stops_the_run() {
    let table = translations_from_rows(&vec![rec(&["০০১ X"]), rec(&["1 X"])]).unwrap();
    let rows = vec![rec(&["", "০০২ Y : সংসদ সদস্য"]), rec(&["S", "1"])];
    assert_eq!(aggregate_rows(&rows, Some(table), Vec::new()), Err(InvalidConstituencyName));
}

#[test]
fn output_row_reads_back_to_same_votes() {
    let out = aggregate_rows(&sheet(), None, summary()).unwrap();
    let header = &out[0];
    let symbols: Vec<String> = header[2..header.len() - 3].to_vec();
    let mut first_read = TextMap::new();
    get_result(&sheet()[3], &strings(&["নৌকা", "আম"]), &mut first_read);
    let written = first_read.entries();
    let beta = out.iter().find(|r| r[1] == "Beta School").unwrap();
    let mut reread = TextMap::new();
    get_result(&StringRecord::from(beta.clone()), &symbols, &mut reread);
    for (name, votes) in written {
        assert_eq!(reread.get(&name).unwrap(), &votes);
    }
    assert_eq!(reread.get("মিনার").unwrap(), "0");
}

#[test]
fn error_descriptions() {
    assert_eq!(InvalidConstituencyName.description(), "Failed to get constituency name");
    assert_eq!(NotFamiliarRowType.description(), "Can't detect the type of row automatically");
    assert!(!UnpairedTranslation.description().is_empty());
}

#[test]
fn center_details_keep_their_text() {
    let c = CenterDetails::new("3 Thakurgaon-1", "School");
    assert_eq!(c.constituency, "3 Thakurgaon-1");
    assert_eq!(c.center, "School");
}

#[test]
fn vote_cells_that_are_not_counts_read_as_zero() {
    let positions = strings(&["a", "b", "c", "d"]);
    let row = rec(&["C", "100", "", "12a", " 7", "42"]);
    let mut results = TextMap::new();
    get_result(&row, &positions, &mut results);
    assert_eq!(results.get("a").unwrap(), "0");
    assert_eq!(results.get("b").unwrap(), "0");
    assert_eq!(results.get("c").unwrap(), "0");
    assert_eq!(results.get("d").unwrap(), "42");
}

#[test]
fn summary_cells_keep_their_text_and_bad_voter_count_reads_zero() {
    let rows = vec![
        rec(&["", "০০১ পঞ্চগড়-১ : সংসদ সদস্য"]),
        rec(&["কেন্দ্র"]),
        rec(&["", "", "x"]),
        rec(&["C", "n/a", "-", "70.88%", ""]),
    ];
    let out = aggregate_rows(&rows, None, summary()).unwrap();
    assert_eq!(out[1], strings(&["০০১ পঞ্চগড়-১", "C", "0", "70.88%", "", "0"]));
}

#[test]
fn header_symbols_are_pinned_in_code_point_order() {
    let rows = vec![
        rec(&["", "০০১ X : সংসদ সদস্য"]),
        rec(&["কেন্দ্র"]),
        rec(&["হুক্কা", "হাত পাখা"]),
        rec(&["কেন্দ্র"]),
        rec(&["হুক্কা", "আম"]),
        rec(&["কেন্দ্র"]),
        rec(&["নৌকা", "মিনার"]),
    ];
    let out = aggregate_rows(&rows, None, Vec::new()).unwrap();
    assert_eq!(out.len(), 1);
    assert_eq!(
        out[0][2..7].to_vec(),
        strings(&["আম", "নৌকা", "মিনার", "হাত পাখা", "হুক্কা"])
    );
}

#[test]
fn recording_counts_only_new_symbols() {
    let mut symbols = strings(&["আম"]);
    check_for_new_symbols(&rec(&["আম", " নৌকা", "নৌকা ", "", "মিনার"]), &mut symbols);
    assert_eq!(symbols.len(), 3);
}

#[test]
fn blank_row_anywhere_outside_symbol_position_keeps_output() {
    let mut with_blank = sheet();
    with_blank.insert(4, rec(&["  ", "\t"]));
    with_blank.insert(0, rec(&[""]));
    let a = aggregate_rows(&sheet(), None, summary()).unwrap();
    let b = aggregate_rows(&with_blank, None, summary()).unwrap();
    assert_eq!(a, b);
}
