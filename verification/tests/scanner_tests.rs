//! Tests of the station-metadata scanner.

use ndbc_data::enrich::enrich;
use ndbc_data::scanner::{scan_station_metadata, MetadataError};
use ndbc_data::stdmet::parse_std_met;

#[test]
fn active_entry_is_preferred_over_closed_one() {
    let xml = b"<stations>\
        <station id=\"41001\" name=\"East\">\
            <history met=\"y\" stop=\"2010-01-01\" lat=\"1\" lng=\"2\"/>\
            <history met=\"y\" stop=\"\" lat=\"3\" lng=\"4\"/>\
        </station>\
    </stations>";
    let dir = scan_station_metadata(xml).unwrap();
    assert_eq!(dir.entries.len(), 1);
    let pos = dir.position_of(b"41001").unwrap();
    assert_eq!(pos.0, b"3".to_vec());
    assert_eq!(pos.1, b"4".to_vec());
}

#[test]
fn active_entry_is_kept_when_closed_one_follows() {
    let xml = b"<stations>\
        <station id=\"41001\">\
            <history met=\"y\" lat=\"3\" lng=\"4\"/>\
            <history met=\"y\" stop=\"2010-01-01\" lat=\"1\" lng=\"2\"/>\
        </station>\
    </stations>";
    let dir = scan_station_metadata(xml).unwrap();
    let pos = dir.position_of(b"41001").unwrap();
    assert_eq!(pos.0, b"3".to_vec());
    assert_eq!(pos.1, b"4".to_vec());
}

#[test]
fn closed_met_entry_is_a_fallback() {
    let xml = b"<stations>\
        <station id=\"46042\">\
            <history met=\"y\" stop=\"2011-06-01\" lat=\"5\" lng=\"6\"/>\
        </station>\
    </stations>";
    let dir = scan_station_metadata(xml).unwrap();
    let pos = dir.position_of(b"46042").unwrap();
    assert_eq!(pos.0, b"5".to_vec());
    assert_eq!(pos.1, b"6".to_vec());
}

#[test]
fn entries_without_met_flag_do_not_qualify() {
    let xml = b"<stations>\
        <station id=\"A\">\
            <history met=\"n\" stop=\"\" lat=\"1\" lng=\"2\"/>\
            <history stop=\"\" lat=\"3\" lng=\"4\"/>\
        </station>\
    </stations>";
    match scan_station_metadata(xml) {
        Err(MetadataError::NoStationsFound) => {}
        other => panic!("expected NoStationsFound, got {:?}", other),
    }
}

#[test]
fn non_numeric_position_does_not_qualify() {
    let xml = b"<stations>\
        <station id=\"A\">\
            <history met=\"y\" stop=\"\" lat=\"north\" lng=\"2\"/>\
        </station>\
    </stations>";
    match scan_station_metadata(xml) {
        Err(MetadataError::NoStationsFound) => {}
        other => panic!("expected NoStationsFound, got {:?}", other),
    }
}

#[test]
fn station_without_id_is_dropped() {
    let xml = b"<stations>\
        <station>\
            <history met=\"y\" stop=\"\" lat=\"1\" lng=\"2\"/>\
        </station>\
        <station id=\"B\">\
            <history met=\"y\" stop=\"\" lat=\"7\" lng=\"8\"/>\
        </station>\
    </stations>";
    let dir = scan_station_metadata(xml).unwrap();
    assert_eq!(dir.entries.len(), 1);
    assert!(dir.position_of(b"B").is_some());
}

#[test]
fn stations_outside_the_collection_are_ignored() {
    let xml = b"<doc>\
        <station id=\"X\"><history met=\"y\" stop=\"\" lat=\"1\" lng=\"2\"/></station>\
        <stations>\
            <station id=\"Y\"><history met=\"y\" stop=\"\" lat=\"3\" lng=\"4\"/></station>\
        </stations>\
        <station id=\"Z\"><history met=\"y\" stop=\"\" lat=\"5\" lng=\"6\"/></station>\
    </doc>";
    let dir = scan_station_metadata(xml).unwrap();
    assert_eq!(dir.entries.len(), 1);
    assert!(dir.position_of(b"Y").is_some());
    assert!(dir.position_of(b"X").is_none());
    assert!(dir.position_of(b"Z").is_none());
}

#[test]
fn malformed_document_fails_with_parse_error() {
    let xml = b"<stations><station id=\"A\"></wrong></stations>";
    match scan_station_metadata(xml) {
        Err(MetadataError::ParseFailed(msg)) => assert!(!msg.is_empty()),
        other => panic!("expected ParseFailed, got {:?}", other),
    }
}

#[test]
fn empty_collection_fails_with_no_stations() {
    match scan_station_metadata(b"<stations></stations>") {
        Err(MetadataError::NoStationsFound) => {}
        other => panic!("expected NoStationsFound, got {:?}", other),
    }
}

#[test]
fn later_station_record_wins_for_the_same_id() {
    let xml = b"<stations>\
        <station id=\"A\"><history met=\"y\" stop=\"\" lat=\"1\" lng=\"2\"/></station>\
        <station id=\"A\"><history met=\"y\" stop=\"\" lat=\"9\" lng=\"9\"/></station>\
    </stations>";
    let dir = scan_station_metadata(xml).unwrap();
    let pos = dir.position_of(b"A").unwrap();
    assert_eq!(pos.0, b"9".to_vec());
}

#[test]
fn missing_station_has_no_position() {
    let xml = b"<stations>\
        <station id=\"A\"><history met=\"y\" stop=\"\" lat=\"1\" lng=\"2\"/></station>\
    </stations>";
    let dir = scan_station_metadata(xml).unwrap();
    assert!(dir.position_of(b"NOPE").is_none());
}

#[test]
fn decimal_positions_survive_verbatim() {
    let xml = b"<stations>\
        <station id=\"46042\">\
            <history met=\"y\" stop=\"\" lat=\"36.785\" lng=\"-122.398\"/>\
        </station>\
    </stations>";
    let dir = scan_station_metadata(xml).unwrap();
    let pos = dir.position_of(b"46042").unwrap();
    assert_eq!(pos.0, b"36.785".to_vec());
    assert_eq!(pos.1, b"-122.398".to_vec());
    // The text parses as the floating-point magnitudes the document named.
    let lat: f64 = std::str::from_utf8(&pos.0).unwrap().parse().unwrap();
    let lon: f64 = std::str::from_utf8(&pos.1).unwrap().parse().unwrap();
    assert_eq!(lat, 36.785);
    assert_eq!(lon, -122.398);
}

#[test]
fn enrichment_carries_identity_and_position() {
    let table = parse_std_met(b"#YY MM DD hh mm WDIR\n23 01 15 06 30 180\n");
    let rows = table.rows.len();
    let enriched = enrich(table, b"46042", Some((b"36.785".to_vec(), b"-122.398".to_vec())));
    assert_eq!(enriched.station_id, b"46042".to_vec());
    assert_eq!(
        enriched.position,
        Some((b"36.785".to_vec(), b"-122.398".to_vec()))
    );
    assert_eq!(enriched.table.rows.len(), rows);
}

#[test]
fn enrichment_without_position_stays_absent() {
    let table = parse_std_met(b"#YY MM DD hh mm WDIR\n23 01 15 06 30 180\n");
    let enriched = enrich(table, b"41001", None);
    assert_eq!(enriched.position, None);
}
