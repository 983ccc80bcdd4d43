//! Verified core of an NDBC (National Data Buoy Center) data pipeline.
//!
//! Two components carry the logic.  `stdmet` parses a station's standard
//! meteorological text feed — header discovery, positional time decoding,
//! header-driven field decoding, missing-value handling — into a typed
//! table.  `scanner` walks the station-metadata markup document and keeps,
//! per met-enabled station, its active geographic position.  `timecode`
//! holds the calendar arithmetic behind the timestamps, `text` the byte
//! level tokenizing, `schema` the fixed column set, and `enrich` the
//! attachment of station identity and position to a parsed table.
//!
//! Magnitudes stay in their raw decimal text throughout: the library proves
//! exactly which token each value came from, and callers turn present
//! values into floating point at the edge.  Retrieval and on-disk
//! serialization live outside this library; the markup streaming is done by
//! an outside parser behind the trusted wrappers in `markup`.

pub mod enrich;
pub mod markup;
pub mod scanner;
pub mod schema;
pub mod stdmet;
pub mod text;
pub mod timecode;
