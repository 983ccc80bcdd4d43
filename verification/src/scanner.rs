//! Scanner for the station-metadata document.
//!
//! The document carries a `stations` collection of `station` elements, each
//! with an `id` attribute and `history` elements describing deployment
//! intervals.  The scanner keeps, per station, one geographic position: among
//! the history entries whose meteorological flag `met` is the literal `y`
//! and whose `lat`/`lng` attributes are numeric tokens, it prefers the
//! currently active entry (`stop` attribute absent or empty) and otherwise
//! falls back to the first eligible one.  A station without an id or without
//! an eligible entry is dropped silently.  Latitude and longitude are kept
//! as their raw decimal text; numeric conversion is the caller's.

use vstd::prelude::*;
use vstd::slice::slice_to_vec;
use vstd::string::StringSliceAdditionalSpecFns;

use crate::markup::{markup_events_of, read_markup_events, MarkupAttr, MarkupEvent};
use crate::text::{bytes_eq, is_decimal, is_decimal_spec};

verus! {

/// The views of an attribute list: key and raw value pairs.
pub open spec fn attr_views(attrs: Seq<MarkupAttr>) -> Seq<(Seq<u8>, Seq<u8>)> {
    attrs.map_values(|a: MarkupAttr| (a.key@, a.value@))
}

/// The value of the first attribute named `key`, if any.
pub open spec fn attr_lookup(attrs: Seq<(Seq<u8>, Seq<u8>)>, key: Seq<u8>) -> Option<Seq<u8>>
    decreases attrs.len(),
{
    if attrs.len() == 0 {
        None
    } else if attrs[0].0 == key {
        Some(attrs[0].1)
    } else {
        attr_lookup(attrs.drop_first(), key)
    }
}

/// What a `history` element offers: a position (latitude and longitude as
/// numeric text) together with whether the entry is currently active, or
/// `None` when the entry is not met-enabled or carries no numeric position.
pub open spec fn history_candidate(attrs: Seq<(Seq<u8>, Seq<u8>)>) -> Option<
    ((Seq<u8>, Seq<u8>), bool),
> {
    let met = attr_lookup(attrs, "met".spec_bytes());
    let stop = attr_lookup(attrs, "stop".spec_bytes());
    let lat = attr_lookup(attrs, "lat".spec_bytes());
    let lng = attr_lookup(attrs, "lng".spec_bytes());
    let met_yes = match met {
        Some(m) => m == "y".spec_bytes(),
        None => false,
    };
    let is_current = match stop {
        Some(s) => s.len() == 0,
        None => true,
    };
    match (lat, lng) {
        (Some(la), Some(lo)) => {
            if met_yes && is_decimal_spec(la) && is_decimal_spec(lo) {
                Some(((la, lo), is_current))
            } else {
                None
            }
        },
        _ => None,
    }
}

/// Mathematical state of the scan.
pub ghost struct ScanState {
    /// The `stations` collection has been entered.
    pub in_stations: bool,
    /// The `stations` collection has been closed; nothing more is read.
    pub done: bool,
    /// A `station` element is open.
    pub station_open: bool,
    /// The open station's id attribute, if it has one.
    pub cur_id: Option<Seq<u8>>,
    /// The position picked so far for the open station.
    pub cand: Option<(Seq<u8>, Seq<u8>)>,
    /// The finished mapping from station id to position.
    pub out: Map<Seq<u8>, (Seq<u8>, Seq<u8>)>,
}

/// The state before any event.
pub open spec fn initial_scan_state() -> ScanState {
    ScanState {
        in_stations: false,
        done: false,
        station_open: false,
        cur_id: None,
        cand: None,
        out: Map::empty(),
    }
}

/// Effect of an opening tag.  A history entry's position is taken when no
/// candidate exists yet, or when the entry is currently active.
pub open spec fn scan_open(st: ScanState, name: Seq<u8>, attrs: Seq<(Seq<u8>, Seq<u8>)>) -> ScanState {
    if st.done {
        st
    } else if name == "stations".spec_bytes() {
        ScanState { in_stations: true, ..st }
    } else if st.in_stations && name == "station".spec_bytes() {
        ScanState {
            station_open: true,
            cur_id: attr_lookup(attrs, "id".spec_bytes()),
            cand: None,
            ..st
        }
    } else if st.in_stations && st.station_open && name == "history".spec_bytes() {
        match history_candidate(attrs) {
            Some(pc) => {
                if st.cand is None || pc.1 {
                    ScanState { cand: Some(pc.0), ..st }
                } else {
                    st
                }
            },
            None => st,
        }
    } else {
        st
    }
}

/// Effect of a closing tag.  Closing the collection ends the scan; closing
/// a station records it when both an id and a position were captured.
pub open spec fn scan_close(st: ScanState, name: Seq<u8>) -> ScanState {
    if st.done {
        st
    } else if name == "stations".spec_bytes() {
        ScanState { done: true, ..st }
    } else if st.station_open && name == "station".spec_bytes() {
        let out2 = match (st.cur_id, st.cand) {
            (Some(id), Some(pos)) => st.out.insert(id, pos),
            _ => st.out,
        };
        ScanState { station_open: false, cur_id: None, cand: None, out: out2, ..st }
    } else {
        st
    }
}

/// Effect of one event.  A self-closing tag opens and at once closes.
pub open spec fn scan_step(st: ScanState, ev: MarkupEvent) -> ScanState {
    match ev {
        MarkupEvent::Open { name, attrs } => scan_open(st, name@, attr_views(attrs@)),
        MarkupEvent::SelfClosed { name, attrs } => scan_close(
            scan_open(st, name@, attr_views(attrs@)),
            name@,
        ),
        MarkupEvent::Close { name } => scan_close(st, name@),
        MarkupEvent::Other => st,
    }
}

/// The state after a whole event stream.
pub open spec fn scan_events_spec(evs: Seq<MarkupEvent>) -> ScanState
    decreases evs.len(),
{
    if evs.len() == 0 {
        initial_scan_state()
    } else {
        scan_step(scan_events_spec(evs.drop_last()), evs.last())
    }
}

/// The station mapping a whole event stream denotes.
pub open spec fn stations_of(evs: Seq<MarkupEvent>) -> Map<Seq<u8>, (Seq<u8>, Seq<u8>)> {
    scan_events_spec(evs).out
}

/// A station's recorded position: id and the raw decimal text of latitude
/// and longitude.
#[derive(Debug, PartialEq, Eq)]
pub struct StationPosition {
    /// The station's identifier.
    pub id: Vec<u8>,
    /// Latitude, as numeric text.
    pub lat: Vec<u8>,
    /// Longitude, as numeric text.
    pub lon: Vec<u8>,
}

/// The mapping a list of recorded stations denotes; a later record of the
/// same id replaces an earlier one.
pub open spec fn entries_map(es: Seq<StationPosition>) -> Map<Seq<u8>, (Seq<u8>, Seq<u8>)>
    decreases es.len(),
{
    if es.len() == 0 {
        Map::empty()
    } else {
        entries_map(es.drop_last()).insert(es.last().id@, (es.last().lat@, es.last().lon@))
    }
}

/// The station-to-position directory a metadata scan produces.  Entries are
/// in encounter order; viewed as a mapping, a later entry wins.
#[derive(Debug, PartialEq, Eq)]
pub struct StationDirectory {
    /// The recorded stations, in encounter order.
    pub entries: Vec<StationPosition>,
}

impl View for StationDirectory {
    type V = Map<Seq<u8>, (Seq<u8>, Seq<u8>)>;

    open spec fn view(&self) -> Map<Seq<u8>, (Seq<u8>, Seq<u8>)> {
        entries_map(self.entries@)
    }
}

/// The lookup a mapping gives for one key.
pub open spec fn lookup_of(m: Map<Seq<u8>, (Seq<u8>, Seq<u8>)>, k: Seq<u8>) -> Option<
    (Seq<u8>, Seq<u8>),
> {
    if m.contains_key(k) {
        Some(m[k])
    } else {
        None
    }
}

impl StationDirectory {
    /// The position recorded for `id`, if any.
    pub fn position_of(&self, id: &[u8]) -> (r: Option<(Vec<u8>, Vec<u8>)>)
        ensures
            match r {
                Some(p) => self@.contains_key(id@) && self@[id@] == (p.0@, p.1@),
                None => !self@.contains_key(id@),
            },
    {
        let mut k: usize = self.entries.len();
        proof {
            assert(self.entries@.take(self.entries@.len() as int) =~= self.entries@);
        }
        while k > 0
            invariant
                0 <= k <= self.entries@.len(),
                lookup_of(entries_map(self.entries@), id@) == lookup_of(
                    entries_map(self.entries@.take(k as int)),
                    id@,
                ),
            decreases k,
        {
            k -= 1;
            proof {
                assert(self.entries@.take(k + 1).drop_last() =~= self.entries@.take(k as int));
            }
            let e = &self.entries[k];
            if bytes_eq(e.id.as_slice(), id) {
                return Some((slice_to_vec(e.lat.as_slice()), slice_to_vec(e.lon.as_slice())));
            }
        }
        proof {
            assert(self.entries@.take(0) =~= Seq::<StationPosition>::empty());
        }
        None
    }
}

/// The view of an optional byte vector.
pub open spec fn opt_bytes_view(o: Option<Vec<u8>>) -> Option<Seq<u8>> {
    match o {
        Some(b) => Some(b@),
        None => None,
    }
}

/// The view of an optional pair of byte vectors.
pub open spec fn opt_pair_view(o: Option<(Vec<u8>, Vec<u8>)>) -> Option<(Seq<u8>, Seq<u8>)> {
    match o {
        Some(p) => Some((p.0@, p.1@)),
        None => None,
    }
}

/// The value of the first attribute named `key`, copied out.
fn attr_get(attrs: &Vec<MarkupAttr>, key: &[u8]) -> (r: Option<Vec<u8>>)
    ensures
        opt_bytes_view(r) == attr_lookup(attr_views(attrs@), key@),
{
    let mut k: usize = 0;
    proof {
        assert(attr_views(attrs@).skip(0) =~= attr_views(attrs@));
    }
    while k < attrs.len()
        invariant
            0 <= k <= attrs@.len(),
            attr_lookup(attr_views(attrs@), key@) == attr_lookup(
                attr_views(attrs@).skip(k as int),
                key@,
            ),
        decreases attrs@.len() - k,
    {
        proof {
            assert(attr_views(attrs@)[k as int] == (attrs@[k as int].key@, attrs@[k as int].value@));
            assert(attr_views(attrs@).skip(k as int).drop_first() =~= attr_views(attrs@).skip(
                k + 1,
            ));
            assert(attr_views(attrs@).skip(k as int)[0] == attr_views(attrs@)[k as int]);
        }
        let a = &attrs[k];
        if bytes_eq(a.key.as_slice(), key) {
            return Some(slice_to_vec(a.value.as_slice()));
        }
        k += 1;
    }
    None
}

/// Executable scan state.
struct Scanner {
    in_stations: bool,
    done: bool,
    station_open: bool,
    cur_id: Option<Vec<u8>>,
    cand: Option<(Vec<u8>, Vec<u8>)>,
    entries: Vec<StationPosition>,
}

impl View for Scanner {
    type V = ScanState;

    closed spec fn view(&self) -> ScanState {
        ScanState {
            in_stations: self.in_stations,
            done: self.done,
            station_open: self.station_open,
            cur_id: opt_bytes_view(self.cur_id),
            cand: opt_pair_view(self.cand),
            out: entries_map(self.entries@),
        }
    }
}

proof fn lemma_entries_map_push(es: Seq<StationPosition>, e: StationPosition)
    ensures
        entries_map(es.push(e)) == entries_map(es).insert(e.id@, (e.lat@, e.lon@)),
{
    assert(es.push(e).drop_last() =~= es);
}

impl Scanner {
    fn step_open(&mut self, name: &[u8], attrs: &Vec<MarkupAttr>)
        ensures
            final(self)@ == scan_open(old(self)@, name@, attr_views(attrs@)),
    {
        if self.done {
            return;
        }
        if bytes_eq(name, "stations".as_bytes()) {
            self.in_stations = true;
            return;
        }
        if self.in_stations && bytes_eq(name, "station".as_bytes()) {
            self.station_open = true;
            self.cur_id = attr_get(attrs, "id".as_bytes());
            self.cand = None;
            return;
        }
        if self.in_stations && self.station_open && bytes_eq(name, "history".as_bytes()) {
            let met = attr_get(attrs, "met".as_bytes());
            let stop = attr_get(attrs, "stop".as_bytes());
            let lat = attr_get(attrs, "lat".as_bytes());
            let lng = attr_get(attrs, "lng".as_bytes());
            let met_yes = match &met {
                Some(m) => bytes_eq(m.as_slice(), "y".as_bytes()),
                None => false,
            };
            let is_current = match &stop {
                Some(s) => s.len() == 0,
                None => true,
            };
            match (lat, lng) {
                (Some(la), Some(lo)) => {
                    if met_yes && is_decimal(la.as_slice()) && is_decimal(lo.as_slice()) {
                        if self.cand.is_none() || is_current {
                            self.cand = Some((la, lo));
                        }
                    }
                },
                _ => {},
            }
        }
    }

    fn step_close(&mut self, name: &[u8])
        ensures
            final(self)@ == scan_close(old(self)@, name@),
    {
        if self.done {
            return;
        }
        if bytes_eq(name, "stations".as_bytes()) {
            self.done = true;
            return;
        }
        if self.station_open && bytes_eq(name, "station".as_bytes()) {
            let mut id_opt: Option<Vec<u8>> = None;
            let mut cand_opt: Option<(Vec<u8>, Vec<u8>)> = None;
            core::mem::swap(&mut id_opt, &mut self.cur_id);
            core::mem::swap(&mut cand_opt, &mut self.cand);
            self.station_open = false;
            match (id_opt, cand_opt) {
                (Some(id), Some(pos)) => {
                    let ghost old_entries = self.entries@;
                    let e = StationPosition { id, lat: pos.0, lon: pos.1 };
                    self.entries.push(e);
                    proof {
                        lemma_entries_map_push(old_entries, self.entries@.last());
                    }
                },
                _ => {},
            }
        }
    }
}

/// Build the station directory from a markup event stream.
pub fn scan_events(events: &Vec<MarkupEvent>) -> (dir: StationDirectory)
    ensures
        dir@ == stations_of(events@),
{
    let mut m = Scanner {
        in_stations: false,
        done: false,
        station_open: false,
        cur_id: None,
        cand: None,
        entries: Vec::new(),
    };
    proof {
        assert(entries_map(m.entries@) =~= Map::<Seq<u8>, (Seq<u8>, Seq<u8>)>::empty());
        assert(events@.take(0) =~= Seq::<MarkupEvent>::empty());
    }
    let mut i: usize = 0;
    while i < events.len()
        invariant
            0 <= i <= events@.len(),
            m@ == scan_events_spec(events@.take(i as int)),
        decreases events@.len() - i,
    {
        proof {
            assert(events@.take(i + 1).drop_last() =~= events@.take(i as int));
            assert(events@.take(i + 1).last() == events@[i as int]);
        }
        match &events[i] {
            MarkupEvent::Open { name, attrs } => {
                m.step_open(name.as_slice(), attrs);
            },
            MarkupEvent::SelfClosed { name, attrs } => {
                m.step_open(name.as_slice(), attrs);
                m.step_close(name.as_slice());
            },
            MarkupEvent::Close { name } => {
                m.step_close(name.as_slice());
            },
            MarkupEvent::Other => {},
        }
        i += 1;
    }
    proof {
        assert(events@.take(events@.len() as int) =~= events@);
    }
    StationDirectory { entries: m.entries }
}

/// Why a metadata scan failed.
#[derive(Debug, PartialEq, Eq)]
pub enum MetadataError {
    /// The document is not well-formed markup; carries the parser diagnostic.
    ParseFailed(String),
    /// The document holds no station with a met-enabled position; without
    /// positions no station can be enriched, so a run treats this as fatal.
    NoStationsFound,
}

/// Scan a station-metadata document into a directory of met-enabled station
/// positions.
///
/// Fails with `ParseFailed` exactly on malformed documents, and with
/// `NoStationsFound` exactly when the document denotes an empty mapping.
pub fn scan_station_metadata(xml: &[u8]) -> (r: Result<StationDirectory, MetadataError>)
    ensures
        match r {
            Ok(dir) => markup_events_of(xml@) matches Some(evs) && dir@ == stations_of(evs)
                && dir@.dom() != Set::<Seq<u8>>::empty(),
            Err(e) => match e {
                MetadataError::ParseFailed(_) => markup_events_of(xml@) is None,
                MetadataError::NoStationsFound => markup_events_of(xml@) matches Some(evs)
                    && stations_of(evs).dom() == Set::<Seq<u8>>::empty(),
            },
        },
{
    let events = match read_markup_events(xml) {
        Ok(evs) => evs,
        Err(msg) => {
            return Err(MetadataError::ParseFailed(msg));
        },
    };
    let dir = scan_events(&events);
    if dir.entries.len() == 0 {
        proof {
            assert(entries_map(dir.entries@) =~= Map::<Seq<u8>, (Seq<u8>, Seq<u8>)>::empty());
            assert(entries_map(dir.entries@).dom() =~= Set::<Seq<u8>>::empty());
        }
        return Err(MetadataError::NoStationsFound);
    }
    proof {
        let es = dir.entries@;
        assert(entries_map(es).dom().contains(es.last().id@));
        if entries_map(es).dom() == Set::<Seq<u8>>::empty() {
            assert(!Set::<Seq<u8>>::empty().contains(es.last().id@));
        }
    }
    Ok(dir)
}

} // verus!
