//! Tests of the standard meteorological feed parser.

use ndbc_data::stdmet::{decode_year, parse_std_met};
use ndbc_data::text::{bytes_eq, is_decimal, parse_u32};
use ndbc_data::timecode::utc_epoch_millis;

const FEED: &str = "#YY  MM DD hh mm WDIR WSPD GST  WVHT   DPD   APD MWD   PRES  ATMP  WTMP  DEWP  VIS PTDY  TIDE\n\
#yr  mo dy hr mn degT m/s  m/s     m   sec   sec degT   hPa  degC  degC  degC  nmi  hPa    ft\n\
2023 01 15 06 30 180  12.3 15.0   1.2     8   6.1 175 1013.2  20.1  18.9  15.0   MM -1.0    MM\n\
2023 01 15 06 00 170  11.0   MM    MM    MM    MM  MM     MM    MM    MM    MM   MM   MM    MM\n";

#[test]
fn two_digit_year_is_this_millennium() {
    assert_eq!(decode_year(23), 2023);
    assert_eq!(decode_year(0), 2000);
    assert_eq!(decode_year(999), 2999);
}

#[test]
fn four_digit_year_is_used_unchanged() {
    assert_eq!(decode_year(2023), 2023);
    assert_eq!(decode_year(1000), 1000);
    assert_eq!(decode_year(9999), 9999);
}

#[test]
fn two_digit_and_four_digit_year_rows_agree() {
    let a = parse_std_met(b"#YY MM DD hh mm WDIR\n23 01 15 06 30 180\n");
    let b = parse_std_met(b"#YY MM DD hh mm WDIR\n2023 01 15 06 30 180\n");
    assert_eq!(a.rows.len(), 1);
    assert_eq!(a.rows[0].time_ms, b.rows[0].time_ms);
}

#[test]
fn header_and_units_line_then_one_row() {
    let table = parse_std_met(
        b"#YY MM DD hh mm WDIR WSPD\n#yr mo dy hr mn degT m/s\n23 01 15 06 30 180 12.3\n",
    );
    assert!(table.header_found);
    assert_eq!(table.rows.len(), 1);
    let row = &table.rows[0];
    // 2023-01-15T06:30:00Z
    assert_eq!(row.time_ms, 1_673_764_200_000);
    assert_eq!(row.values.len(), 14);
    assert_eq!(row.values[0], Some(b"180".to_vec())); // WDIR
    assert_eq!(row.values[1], Some(b"12.3".to_vec())); // WSPD
    for f in 2..14 {
        assert_eq!(row.values[f], None);
    }
}

#[test]
fn sentinel_tokens_decode_to_absent() {
    let table = parse_std_met(FEED.as_bytes());
    assert_eq!(table.rows.len(), 2);
    // VIS and TIDE are "MM" on the first row; every field is "MM" on the second.
    assert_eq!(table.rows[0].values[11], None);
    assert_eq!(table.rows[0].values[13], None);
    for f in 2..14 {
        assert_eq!(table.rows[1].values[f], None);
    }
    // WDIR and WSPD are present on both rows.
    assert_eq!(table.rows[1].values[0], Some(b"170".to_vec()));
    assert_eq!(table.rows[1].values[1], Some(b"11.0".to_vec()));
}

#[test]
fn nan_token_decodes_to_absent() {
    let table = parse_std_met(b"#YY MM DD hh mm WSPD\n23 01 15 06 30 NaN\n");
    assert_eq!(table.rows.len(), 1);
    assert_eq!(table.rows[0].values[1], None);
}

#[test]
fn unparsable_magnitude_decodes_to_absent() {
    let table = parse_std_met(b"#YY MM DD hh mm WSPD\n23 01 15 06 30 fast\n");
    assert_eq!(table.rows.len(), 1);
    assert_eq!(table.rows[0].values[1], None);
}

#[test]
fn omitted_field_is_absent_in_every_row_but_in_schema() {
    // The header declares no GST (field index 2) and no TIDE (index 13).
    let table = parse_std_met(FEED.as_bytes());
    assert_eq!(table.rows.len(), 2);
    let with_gst = parse_std_met(
        b"#YY MM DD hh mm GST\n23 01 15 06 30 15.0\n23 01 15 07 00 16.0\n",
    );
    assert_eq!(with_gst.rows[0].values[2], Some(b"15.0".to_vec()));
    let without_gst = parse_std_met(
        b"#YY MM DD hh mm WDIR\n23 01 15 06 30 180\n23 01 15 07 00 170\n",
    );
    for row in &without_gst.rows {
        assert_eq!(row.values.len(), 14);
        assert_eq!(row.values[2], None);
    }
}

#[test]
fn all_fourteen_fields_map_in_canonical_order() {
    let table = parse_std_met(FEED.as_bytes());
    let row = &table.rows[0];
    let expected: [Option<&[u8]>; 14] = [
        Some(b"180"),    // WDIR
        Some(b"12.3"),   // WSPD
        Some(b"15.0"),   // GST
        Some(b"1.2"),    // WVHT
        Some(b"8"),      // DPD
        Some(b"6.1"),    // APD
        Some(b"175"),    // MWD
        Some(b"1013.2"), // PRES
        Some(b"20.1"),   // ATMP
        Some(b"18.9"),   // WTMP
        Some(b"15.0"),   // DEWP
        None,            // VIS (sentinel)
        Some(b"-1.0"),   // PTDY
        None,            // TIDE (sentinel)
    ];
    for (f, want) in expected.iter().enumerate() {
        assert_eq!(row.values[f], want.map(|b| b.to_vec()), "field {}", f);
    }
}

#[test]
fn earlier_non_header_comments_are_passed_over() {
    let table = parse_std_met(b"# station 41001 metadata\n#YY MM DD hh mm WDIR\n23 01 15 06 30 180\n");
    assert!(table.header_found);
    assert_eq!(table.rows.len(), 1);
}

#[test]
fn header_needs_at_least_five_columns() {
    let table = parse_std_met(b"#YY MM DD hh\n23 01 15 06 30\n");
    assert!(!table.header_found);
    assert_eq!(table.rows.len(), 0);
}

#[test]
fn uncommented_header_pattern_is_not_a_header() {
    let table = parse_std_met(b"YY MM DD hh mm WDIR\n23 01 15 06 30 180\n");
    assert!(!table.header_found);
    assert_eq!(table.rows.len(), 0);
}

#[test]
fn header_with_only_time_columns_yields_all_absent_rows() {
    let table = parse_std_met(b"#YY MM DD hh mm\n23 01 15 06 30\n");
    assert!(table.header_found);
    assert_eq!(table.rows.len(), 1);
    assert!(table.rows[0].values.iter().all(|v| v.is_none()));
}

#[test]
fn parsing_twice_yields_identical_tables() {
    let a = parse_std_met(FEED.as_bytes());
    let b = parse_std_met(FEED.as_bytes());
    assert_eq!(a, b);
}

#[test]
fn no_header_yields_empty_table_not_error() {
    let table = parse_std_met(b"just some text\nwithout any header\n12 34\n");
    assert!(!table.header_found);
    assert_eq!(table.rows.len(), 0);
}

#[test]
fn empty_text_yields_empty_table() {
    let table = parse_std_met(b"");
    assert!(!table.header_found);
    assert_eq!(table.rows.len(), 0);
}

#[test]
fn short_row_is_skipped_and_later_rows_kept() {
    let table = parse_std_met(
        b"#YY MM DD hh mm WDIR\n23 01 15 06 30 180\n23 01\n23 01 15 07 30 190\n",
    );
    assert_eq!(table.rows.len(), 2);
    assert_eq!(table.rows[0].values[0], Some(b"180".to_vec()));
    assert_eq!(table.rows[1].values[0], Some(b"190".to_vec()));
}

#[test]
fn invalid_dates_are_skipped_not_defaulted() {
    let table = parse_std_met(
        b"#YY MM DD hh mm WDIR\n23 02 30 06 30 180\n23 13 01 06 30 181\n23 01 15 24 00 182\n23 01 15 06 60 183\n23 01 15 06 30 184\n",
    );
    // Only the last row names a date and time that exist.
    assert_eq!(table.rows.len(), 1);
    assert_eq!(table.rows[0].values[0], Some(b"184".to_vec()));
}

#[test]
fn leap_day_is_valid_only_in_leap_years() {
    let leap = parse_std_met(b"#YY MM DD hh mm WDIR\n24 02 29 00 00 10\n");
    assert_eq!(leap.rows.len(), 1);
    // 2024-02-29T00:00:00Z
    assert_eq!(leap.rows[0].time_ms, 1_709_164_800_000);
    let common = parse_std_met(b"#YY MM DD hh mm WDIR\n23 02 29 00 00 10\n");
    assert_eq!(common.rows.len(), 0);
}

#[test]
fn non_numeric_time_tokens_skip_the_row() {
    let table = parse_std_met(b"#YY MM DD hh mm WDIR\nYY 01 15 06 30 180\n23 xx 15 06 30 181\n");
    assert_eq!(table.rows.len(), 0);
}

#[test]
fn comment_line_ends_the_data_block() {
    let table = parse_std_met(
        b"#YY MM DD hh mm WDIR\n23 01 15 06 30 180\n# trailing comment\n23 01 15 07 30 190\n",
    );
    assert_eq!(table.rows.len(), 1);
}

#[test]
fn blank_lines_are_skipped() {
    let table = parse_std_met(b"#YY MM DD hh mm WDIR\n\n23 01 15 06 30 180\n\n23 01 15 07 30 190\n");
    assert_eq!(table.rows.len(), 2);
}

#[test]
fn header_without_units_line_still_captures_rows() {
    let table = parse_std_met(b"#YY MM DD hh mm WDIR\n23 01 15 06 30 180\n");
    assert!(table.header_found);
    assert_eq!(table.rows.len(), 1);
}

#[test]
fn field_declared_past_row_end_is_absent() {
    // TIDE is the last declared column but the row stops before it.
    let table = parse_std_met(b"#YY MM DD hh mm WDIR TIDE\n23 01 15 06 30 180\n");
    assert_eq!(table.rows.len(), 1);
    assert_eq!(table.rows[0].values[0], Some(b"180".to_vec()));
    assert_eq!(table.rows[0].values[13], None);
}

#[test]
fn rows_keep_feed_order() {
    let table = parse_std_met(
        b"#YY MM DD hh mm WDIR\n23 01 15 07 30 190\n23 01 15 06 30 180\n",
    );
    assert_eq!(table.rows.len(), 2);
    assert!(table.rows[0].time_ms > table.rows[1].time_ms);
}

#[test]
fn years_keep_four_digits_at_most() {
    let last = parse_std_met(b"#YY MM DD hh mm WDIR\n9999 12 31 23 59 180\n");
    assert_eq!(last.rows.len(), 1);
    assert_eq!(last.rows[0].time_ms, 253_402_300_740_000);
    let beyond = parse_std_met(b"#YY MM DD hh mm WDIR\n10000 01 15 06 30 180\n");
    assert_eq!(beyond.rows.len(), 0);
}

#[test]
fn carriage_returns_and_tabs_are_whitespace() {
    let table = parse_std_met(b"  #YY MM DD hh mm WDIR\r\n23\t01\t15\t06\t30\t180\r\n");
    assert!(table.header_found);
    assert_eq!(table.rows.len(), 1);
    assert_eq!(table.rows[0].values[0], Some(b"180".to_vec()));
}

#[test]
fn epoch_conversion_matches_known_instants() {
    assert_eq!(utc_epoch_millis(1970, 1, 1, 0, 0), 0);
    assert_eq!(utc_epoch_millis(2000, 1, 1, 0, 0), 946_684_800_000);
    assert_eq!(utc_epoch_millis(1969, 12, 31, 23, 59), -60_000);
    assert_eq!(utc_epoch_millis(2023, 1, 15, 6, 30), 1_673_764_200_000);
}

#[test]
fn numeral_parsing_accepts_digits_only() {
    assert_eq!(parse_u32(b"0023"), Some(23));
    assert_eq!(parse_u32(b"4294967295"), Some(u32::MAX));
    assert_eq!(parse_u32(b"4294967296"), None);
    assert_eq!(parse_u32(b""), None);
    assert_eq!(parse_u32(b"-5"), None);
    assert_eq!(parse_u32(b"1a"), None);
}

#[test]
fn decimal_grammar_accepts_signed_magnitudes() {
    assert!(is_decimal(b"180"));
    assert!(is_decimal(b"12.3"));
    assert!(is_decimal(b"-1.0"));
    assert!(is_decimal(b"+4.5"));
    assert!(is_decimal(b"5."));
    assert!(is_decimal(b".5"));
    assert!(!is_decimal(b"MM"));
    assert!(!is_decimal(b""));
    assert!(!is_decimal(b"-"));
    assert!(!is_decimal(b"1.2.3"));
    assert!(!is_decimal(b"1a"));
}

#[test]
fn byte_equality_is_exact() {
    assert!(bytes_eq(b"WDIR", b"WDIR"));
    assert!(!bytes_eq(b"WDIR", b"WSPD"));
    assert!(!bytes_eq(b"WDIR", b"WDI"));
}
