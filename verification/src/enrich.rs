//! Enrichment of a parsed table with the station's identity and position.
//!
//! The added columns are constant over the whole table, so they are carried
//! once; a serializer replicates them onto every row.  A station absent from
//! the directory gets no position — never a default one.

use vstd::prelude::*;
use vstd::slice::slice_to_vec;

use crate::stdmet::StdMetTable;

verus! {

/// A parsed table together with its station's identity and, when the
/// station directory knows one, its position as raw decimal text.
pub struct EnrichedTable {
    /// The station's identifier, on every row.
    pub station_id: Vec<u8>,
    /// Latitude and longitude text, on every row; `None` when the station
    /// is not in the directory.
    pub position: Option<(Vec<u8>, Vec<u8>)>,
    /// The parsed observations; the timestamp stays the first column.
    pub table: StdMetTable,
}

/// Attach the station's identity and optional position to a parsed table,
/// leaving the observations untouched.
pub fn enrich(table: StdMetTable, station_id: &[u8], position: Option<(Vec<u8>, Vec<u8>)>) -> (r:
    EnrichedTable)
    ensures
        r.station_id@ == station_id@,
        r.position == position,
        r.table == table,
{
    EnrichedTable { station_id: slice_to_vec(station_id), position, table }
}

} // verus!
