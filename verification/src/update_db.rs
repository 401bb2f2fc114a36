//! The reference store and the event store, with the bulk upsert of
//! reference data and the archive-aware event synchronization.
//!
//! Both stores are keyed collections: airports and countries by their
//! numeric id, events by their UID. An upsert inserts a new row or replaces
//! the row with the same key.

use vstd::prelude::*;
use crate::api_response::AirportRecord;
use crate::api_response::AirportView;
use crate::api_response::CountryDownloadResponse;
use crate::api_response::CountryView;
use crate::strutil::clone_option_string;
use crate::strutil::option_string_view;
use crate::dateperhapstime_to_string::dateperhapstime_to_string;
use crate::is_archived::end_instant;
use crate::strutil::str_eq;
use crate::dateperhapstime_to_string::DatePerhapsTime;
use crate::dateperhapstime_to_string::DatePerhapsTimeView;
use crate::dateperhapstime_to_string::dpt_text;
use crate::is_archived::parsed_instant;
use crate::transform_calendar_event::IataLookupRow;
use crate::transform_calendar_event::IataLookupRowView;

verus! {

// ---------------------------------------------------------------------------
// Reference store
// ---------------------------------------------------------------------------

/// The airport and country reference tables.
pub struct ReferenceStore {
    airports: Vec<AirportRecord>,
    countries: Vec<CountryDownloadResponse>,
}

/// Mathematical image of `ReferenceStore`: the two tables as sequences of
/// record images.
pub struct ReferenceStoreView {
    pub airports: Seq<AirportView>,
    pub countries: Seq<CountryView>,
}

impl View for ReferenceStore {
    type V = ReferenceStoreView;

    closed spec fn view(&self) -> ReferenceStoreView {
        ReferenceStoreView {
            airports: self.airports@.map_values(|a: AirportRecord| a@),
            countries: self.countries@.map_values(|c: CountryDownloadResponse| c@),
        }
    }
}

/// No two airport rows share an id.
pub open spec fn distinct_airport_ids(s: Seq<AirportView>) -> bool {
    forall|i: int, j: int| 0 <= i < j < s.len() ==> s[i].id != s[j].id
}

/// No two country rows share an id.
pub open spec fn distinct_country_ids(s: Seq<CountryView>) -> bool {
    forall|i: int, j: int| 0 <= i < j < s.len() ==> s[i].id != s[j].id
}

impl ReferenceStore {
    /// Both tables are keyed by id.
    pub open spec fn wf(&self) -> bool {
        distinct_airport_ids(self@.airports) && distinct_country_ids(self@.countries)
    }

    /// An empty reference store.
    pub fn new() -> (r: ReferenceStore)
        ensures
            r.wf(),
            r@.airports == Seq::<AirportView>::empty(),
            r@.countries == Seq::<CountryView>::empty(),
    {
        let r = ReferenceStore { airports: Vec::new(), countries: Vec::new() };
        proof {
            assert(r@.airports =~= Seq::<AirportView>::empty());
            assert(r@.countries =~= Seq::<CountryView>::empty());
        }
        r
    }
}

/// Insert-or-replace one airport row, keyed by id.
pub open spec fn upsert_airport(s: Seq<AirportView>, r: AirportView) -> Seq<AirportView>
    decreases s.len(),
{
    if s.len() == 0 {
        seq![r]
    } else if s[0].id == r.id {
        seq![r] + s.skip(1)
    } else {
        seq![s[0]] + upsert_airport(s.skip(1), r)
    }
}

/// Insert-or-replace each airport row in order.
pub open spec fn upsert_airports_all(s: Seq<AirportView>, rs: Seq<AirportView>) -> Seq<AirportView>
    decreases rs.len(),
{
    if rs.len() == 0 {
        s
    } else {
        upsert_airports_all(upsert_airport(s, rs[0]), rs.skip(1))
    }
}

/// Insert-or-replace one country row, keyed by id.
pub open spec fn upsert_country(s: Seq<CountryView>, r: CountryView) -> Seq<CountryView>
    decreases s.len(),
{
    if s.len() == 0 {
        seq![r]
    } else if s[0].id == r.id {
        seq![r] + s.skip(1)
    } else {
        seq![s[0]] + upsert_country(s.skip(1), r)
    }
}

/// Insert-or-replace each country row in order.
pub open spec fn upsert_countries_all(s: Seq<CountryView>, rs: Seq<CountryView>) -> Seq<CountryView>
    decreases rs.len(),
{
    if rs.len() == 0 {
        s
    } else {
        upsert_countries_all(upsert_country(s, rs[0]), rs.skip(1))
    }
}

proof fn lemma_upsert_airport_update(s: Seq<AirportView>, r: AirportView, i: int)
    requires
        0 <= i < s.len(),
        s[i].id == r.id,
        forall|j: int| 0 <= j < i ==> s[j].id != r.id,
    ensures
        upsert_airport(s, r) == s.update(i, r),
    decreases i,
{
    if i == 0 {
        assert(upsert_airport(s, r) =~= s.update(0, r));
    } else {
        lemma_upsert_airport_update(s.skip(1), r, i - 1);
        assert(s.skip(1).update(i - 1, r) =~= s.update(i, r).skip(1));
        assert(upsert_airport(s, r) =~= s.update(i, r));
    }
}

proof fn lemma_upsert_airport_push(s: Seq<AirportView>, r: AirportView)
    requires
        forall|j: int| 0 <= j < s.len() ==> s[j].id != r.id,
    ensures
        upsert_airport(s, r) == s.push(r),
    decreases s.len(),
{
    if s.len() == 0 {
        assert(upsert_airport(s, r) =~= s.push(r));
    } else {
        lemma_upsert_airport_push(s.skip(1), r);
        assert(s.skip(1).push(r) =~= s.push(r).skip(1));
        assert(upsert_airport(s, r) =~= s.push(r));
    }
}

proof fn lemma_upsert_country_update(s: Seq<CountryView>, r: CountryView, i: int)
    requires
        0 <= i < s.len(),
        s[i].id == r.id,
        forall|j: int| 0 <= j < i ==> s[j].id != r.id,
    ensures
        upsert_country(s, r) == s.update(i, r),
    decreases i,
{
    if i == 0 {
        assert(upsert_country(s, r) =~= s.update(0, r));
    } else {
        lemma_upsert_country_update(s.skip(1), r, i - 1);
        assert(s.skip(1).update(i - 1, r) =~= s.update(i, r).skip(1));
        assert(upsert_country(s, r) =~= s.update(i, r));
    }
}

proof fn lemma_upsert_country_push(s: Seq<CountryView>, r: CountryView)
    requires
        forall|j: int| 0 <= j < s.len() ==> s[j].id != r.id,
    ensures
        upsert_country(s, r) == s.push(r),
    decreases s.len(),
{
    if s.len() == 0 {
        assert(upsert_country(s, r) =~= s.push(r));
    } else {
        lemma_upsert_country_push(s.skip(1), r);
        assert(s.skip(1).push(r) =~= s.push(r).skip(1));
        assert(upsert_country(s, r) =~= s.push(r));
    }
}

impl ReferenceStore {
    fn upsert_airport_row(&mut self, rec: AirportRecord)
        requires
            distinct_airport_ids(old(self)@.airports),
        ensures
            final(self)@.airports == upsert_airport(old(self)@.airports, rec@),
            final(self)@.countries == old(self)@.countries,
            distinct_airport_ids(final(self)@.airports),
    {
        let n = self.airports.len();
        let mut i: usize = 0;
        while i < n
            invariant
                i <= n,
                n == self.airports.len(),
                *self == *old(self),
                distinct_airport_ids(old(self)@.airports),
                forall|j: int| 0 <= j < i ==> self@.airports[j].id != rec@.id,
            decreases n - i,
        {
            if self.airports[i].id == rec.id {
                self.airports.set(i, rec);
                proof {
                    assert(self@.airports =~= old(self)@.airports.update(i as int, rec@));
                    lemma_upsert_airport_update(old(self)@.airports, rec@, i as int);
                    assert forall|p: int, q: int| 0 <= p < q < self@.airports.len() implies self@.airports[p].id != self@.airports[q].id by {
                        let ghost olds = old(self)@.airports;
                        if p == i {
                            assert(self@.airports[p].id == olds[p].id && self@.airports[q] == olds[q]);
                        } else if q == i {
                            assert(self@.airports[q].id == olds[q].id && self@.airports[p] == olds[p]);
                        } else {
                            assert(self@.airports[p] == olds[p] && self@.airports[q] == olds[q]);
                        }
                    }
                }
                return ;
            }
            i += 1;
        }
        self.airports.push(rec);
        proof {
            assert(self@.airports =~= old(self)@.airports.push(rec@));
            lemma_upsert_airport_push(old(self)@.airports, rec@);
            assert forall|p: int, q: int| 0 <= p < q < self@.airports.len() implies self@.airports[p].id != self@.airports[q].id by {
                if q == self@.airports.len() - 1 {
                    assert(old(self)@.airports[p].id != rec@.id);
                }
            }
        }
    }

    fn upsert_country_row(&mut self, rec: CountryDownloadResponse)
        requires
            distinct_country_ids(old(self)@.countries),
        ensures
            final(self)@.countries == upsert_country(old(self)@.countries, rec@),
            final(self)@.airports == old(self)@.airports,
            distinct_country_ids(final(self)@.countries),
    {
        let n = self.countries.len();
        let mut i: usize = 0;
        while i < n
            invariant
                i <= n,
                n == self.countries.len(),
                *self == *old(self),
                distinct_country_ids(old(self)@.countries),
                forall|j: int| 0 <= j < i ==> self@.countries[j].id != rec@.id,
            decreases n - i,
        {
            if self.countries[i].id == rec.id {
                self.countries.set(i, rec);
                proof {
                    assert(self@.countries =~= old(self)@.countries.update(i as int, rec@));
                    lemma_upsert_country_update(old(self)@.countries, rec@, i as int);
                    assert forall|p: int, q: int| 0 <= p < q < self@.countries.len() implies self@.countries[p].id != self@.countries[q].id by {
                        let ghost olds = old(self)@.countries;
                        if p == i {
                            assert(self@.countries[p].id == olds[p].id && self@.countries[q] == olds[q]);
                        } else if q == i {
                            assert(self@.countries[q].id == olds[q].id && self@.countries[p] == olds[p]);
                        } else {
                            assert(self@.countries[p] == olds[p] && self@.countries[q] == olds[q]);
                        }
                    }
                }
                return ;
            }
            i += 1;
        }
        self.countries.push(rec);
        proof {
            assert(self@.countries =~= old(self)@.countries.push(rec@));
            lemma_upsert_country_push(old(self)@.countries, rec@);
            assert forall|p: int, q: int| 0 <= p < q < self@.countries.len() implies self@.countries[p].id != self@.countries[q].id by {
                if q == self@.countries.len() - 1 {
                    assert(old(self)@.countries[p].id != rec@.id);
                }
            }
        }
    }
}

/// Replaces or inserts every parsed airport row in the reference store,
/// keyed by id; rows not present in the new download stay untouched.
/// Returns the number of rows written, one per record.
pub fn update_airports(store: &mut ReferenceStore, airports: Vec<AirportRecord>) -> (n: usize)
    requires
        old(store).wf(),
    ensures
        final(store).wf(),
        final(store)@.airports == upsert_airports_all(
            old(store)@.airports,
            airports@.map_values(|a: AirportRecord| a@),
        ),
        final(store)@.countries == old(store)@.countries,
        n == airports@.len(),
{
    let ghost target = upsert_airports_all(
        old(store)@.airports,
        airports@.map_values(|a: AirportRecord| a@),
    );
    let mut remaining = airports;
    let orig_n = remaining.len();
    let mut n: usize = 0;
    while remaining.len() > 0
        invariant
            store.wf(),
            store@.countries == old(store)@.countries,
            upsert_airports_all(store@.airports, remaining@.map_values(|a: AirportRecord| a@))
                == target,
            n + remaining@.len() == orig_n,
            orig_n == airports@.len(),
        decreases remaining.len(),
    {
        let ghost views_before = remaining@.map_values(|a: AirportRecord| a@);
        let rec = remaining.remove(0);
        proof {
            assert(remaining@.map_values(|a: AirportRecord| a@) =~= views_before.skip(1));
            assert(views_before[0] == rec@);
        }
        store.upsert_airport_row(rec);
        n += 1;
    }
    proof {
        assert(remaining@.map_values(|a: AirportRecord| a@) =~= Seq::<AirportView>::empty());
    }
    n
}

/// Replaces or inserts every parsed country row in the reference store,
/// keyed by id; rows not present in the new download stay untouched.
/// Returns the number of rows written, one per record.
pub fn update_countries(store: &mut ReferenceStore, countries: Vec<CountryDownloadResponse>) -> (n:
    usize)
    requires
        old(store).wf(),
    ensures
        final(store).wf(),
        final(store)@.countries == upsert_countries_all(
            old(store)@.countries,
            countries@.map_values(|c: CountryDownloadResponse| c@),
        ),
        final(store)@.airports == old(store)@.airports,
        n == countries@.len(),
{
    let ghost target = upsert_countries_all(
        old(store)@.countries,
        countries@.map_values(|c: CountryDownloadResponse| c@),
    );
    let mut remaining = countries;
    let orig_n = remaining.len();
    let mut n: usize = 0;
    while remaining.len() > 0
        invariant
            store.wf(),
            store@.airports == old(store)@.airports,
            upsert_countries_all(
                store@.countries,
                remaining@.map_values(|c: CountryDownloadResponse| c@),
            ) == target,
            n + remaining@.len() == orig_n,
            orig_n == countries@.len(),
        decreases remaining.len(),
    {
        let ghost views_before = remaining@.map_values(|c: CountryDownloadResponse| c@);
        let rec = remaining.remove(0);
        proof {
            assert(remaining@.map_values(|c: CountryDownloadResponse| c@) =~= views_before.skip(1));
            assert(views_before[0] == rec@);
        }
        store.upsert_country_row(rec);
        n += 1;
    }
    proof {
        assert(remaining@.map_values(|c: CountryDownloadResponse| c@) =~= Seq::<CountryView>::empty());
    }
    n
}

// ---------------------------------------------------------------------------
// IATA lookups against the reference tables
// ---------------------------------------------------------------------------

/// Number of airports carrying exactly this IATA code.
pub open spec fn iata_match_count(s: Seq<AirportView>, iata: Seq<char>) -> int
    decreases s.len(),
{
    if s.len() == 0 {
        0
    } else {
        (if s[0].iata_code == Some(iata) {
            1int
        } else {
            0int
        }) + iata_match_count(s.skip(1), iata)
    }
}

/// The first airport carrying this IATA code.
pub open spec fn first_iata_match(s: Seq<AirportView>, iata: Seq<char>) -> Option<AirportView>
    decreases s.len(),
{
    if s.len() == 0 {
        None
    } else if s[0].iata_code == Some(iata) {
        Some(s[0])
    } else {
        first_iata_match(s.skip(1), iata)
    }
}

/// The ICAO code of the airport uniquely carrying this IATA code, or the
/// IATA code unchanged where there is no unique such airport or it has no
/// ICAO code: resolution failures are silent fallbacks, never errors.
pub open spec fn icao_or_iata(refv: ReferenceStoreView, iata: Seq<char>) -> Seq<char> {
    if iata_match_count(refv.airports, iata) == 1 {
        match first_iata_match(refv.airports, iata) {
            Some(a) => match a.gps_code {
                Some(g) => g,
                None => iata,
            },
            None => iata,
        }
    } else {
        iata
    }
}

proof fn lemma_iata_count_first(s: Seq<AirportView>, iata: Seq<char>)
    ensures
        iata_match_count(s, iata) >= 0,
        iata_match_count(s, iata) > 0 <==> first_iata_match(s, iata) is Some,
    decreases s.len(),
{
    if s.len() > 0 {
        lemma_iata_count_first(s.skip(1), iata);
    }
}

/// Number of countries carrying exactly this two-letter code.
pub open spec fn code_match_count(s: Seq<CountryView>, code: Seq<char>) -> int
    decreases s.len(),
{
    if s.len() == 0 {
        0
    } else {
        (if s[0].code == code {
            1int
        } else {
            0int
        }) + code_match_count(s.skip(1), code)
    }
}

/// The first country carrying this two-letter code.
pub open spec fn first_code_match(s: Seq<CountryView>, code: Seq<char>) -> Option<CountryView>
    decreases s.len(),
{
    if s.len() == 0 {
        None
    } else if s[0].code == code {
        Some(s[0])
    } else {
        first_code_match(s.skip(1), code)
    }
}

proof fn lemma_code_count_first(s: Seq<CountryView>, code: Seq<char>)
    ensures
        code_match_count(s, code) >= 0,
        code_match_count(s, code) > 0 <==> first_code_match(s, code) is Some,
    decreases s.len(),
{
    if s.len() > 0 {
        lemma_code_count_first(s.skip(1), code);
    }
}

/// Number of rows of the airport-country join carrying this IATA code.
pub open spec fn pair_match_count(
    aps: Seq<AirportView>,
    cs: Seq<CountryView>,
    iata: Seq<char>,
) -> int
    decreases aps.len(),
{
    if aps.len() == 0 {
        0
    } else {
        (if aps[0].iata_code == Some(iata) {
            code_match_count(cs, aps[0].iso_country)
        } else {
            0int
        }) + pair_match_count(aps.skip(1), cs, iata)
    }
}

/// The first row of the airport-country join carrying this IATA code.
pub open spec fn first_pair_match(
    aps: Seq<AirportView>,
    cs: Seq<CountryView>,
    iata: Seq<char>,
) -> Option<(AirportView, CountryView)>
    decreases aps.len(),
{
    if aps.len() == 0 {
        None
    } else if aps[0].iata_code == Some(iata) && first_code_match(cs, aps[0].iso_country) is Some {
        match first_code_match(cs, aps[0].iso_country) {
            Some(c) => Some((aps[0], c)),
            None => None,
        }
    } else {
        first_pair_match(aps.skip(1), cs, iata)
    }
}

proof fn lemma_pair_count_first(aps: Seq<AirportView>, cs: Seq<CountryView>, iata: Seq<char>)
    ensures
        pair_match_count(aps, cs, iata) >= 0,
        pair_match_count(aps, cs, iata) > 0 <==> first_pair_match(aps, cs, iata) is Some,
    decreases aps.len(),
{
    if aps.len() > 0 {
        lemma_pair_count_first(aps.skip(1), cs, iata);
        lemma_code_count_first(cs, aps[0].iso_country);
    }
}

/// The joined airport and country row of the unique airport carrying this
/// IATA code, or `None` where the join has no unique row or the airport
/// lacks a municipality.
pub open spec fn iata_lookup(refv: ReferenceStoreView, iata: Seq<char>) -> Option<
    IataLookupRowView,
> {
    if pair_match_count(refv.airports, refv.countries, iata) == 1 {
        match first_pair_match(refv.airports, refv.countries, iata) {
            Some((a, c)) => match a.municipality {
                Some(m) => Some(
                    IataLookupRowView {
                        airport_name: a.name,
                        airport_gps_code: a.gps_code,
                        airport_municipality: m,
                        country_name: c.name,
                    },
                ),
                None => None,
            },
            None => None,
        }
    } else {
        None
    }
}

impl ReferenceStore {
    /// Counts the countries carrying `code` and finds the first of them.
    fn count_code_matches(&self, code: &str) -> (r: (usize, Option<usize>))
        ensures
            r.0 == code_match_count(self@.countries, code@),
            r.1 matches Some(ci) ==> ci < self@.countries.len() && first_code_match(
                self@.countries,
                code@,
            ) == Some(self@.countries[ci as int]),
            r.1 is None ==> first_code_match(self@.countries, code@) is None,
    {
        let n = self.countries.len();
        let mut i: usize = 0;
        let mut count: usize = 0;
        let mut first: Option<usize> = None;
        proof {
            assert(self@.countries.skip(0) =~= self@.countries);
        }
        while i < n
            invariant
                i <= n,
                n == self@.countries.len(),
                count <= i,
                count + code_match_count(self@.countries.skip(i as int), code@) == code_match_count(
                    self@.countries,
                    code@,
                ),
                first matches Some(ci) ==> ci < i && first_code_match(self@.countries, code@)
                    == Some(self@.countries[ci as int]),
                first is None ==> first_code_match(self@.countries, code@) == first_code_match(
                    self@.countries.skip(i as int),
                    code@,
                ),
            decreases n - i,
        {
            proof {
                lemma_code_count_first(self@.countries.skip(i + 1), code@);
                assert(self@.countries.skip(i as int).skip(1) =~= self@.countries.skip(i + 1));
                assert(self@.countries.skip(i as int)[0] == self@.countries[i as int]);
            }
            let matched = match &self.countries[i].code {
                c => str_eq(c.as_str(), code),
            };
            if matched {
                count += 1;
                if first.is_none() {
                    first = Some(i);
                }
            }
            i += 1;
        }
        proof {
            assert(self@.countries.skip(n as int) =~= Seq::<CountryView>::empty());
        }
        (count, first)
    }

    /// Resolves an IATA location code to the ICAO code of the airport
    /// uniquely carrying it; where no unique airport is found, or it has no
    /// ICAO code, the input comes back unchanged.
    pub fn try_iata_to_icao(&self, iata: String) -> (r: String)
        ensures
            r@ == icao_or_iata(self@, iata@),
    {
        let n = self.airports.len();
        let mut i: usize = 0;
        let mut count: usize = 0;
        let mut first: Option<usize> = None;
        proof {
            assert(self@.airports.skip(0) =~= self@.airports);
        }
        while i < n
            invariant
                i <= n,
                n == self@.airports.len(),
                count <= i,
                count + iata_match_count(self@.airports.skip(i as int), iata@)
                    == iata_match_count(self@.airports, iata@),
                first matches Some(fi) ==> fi < i && first_iata_match(self@.airports, iata@)
                    == Some(self@.airports[fi as int]),
                first is None ==> first_iata_match(self@.airports, iata@) == first_iata_match(
                    self@.airports.skip(i as int),
                    iata@,
                ),
            decreases n - i,
        {
            proof {
                assert(self@.airports.skip(i as int).skip(1) =~= self@.airports.skip(i + 1));
                assert(self@.airports.skip(i as int)[0] == self@.airports[i as int]);
            }
            let matched = match &self.airports[i].iata_code {
                Some(code) => str_eq(code.as_str(), iata.as_str()),
                None => false,
            };
            assert(matched == (self@.airports[i as int].iata_code == Some(iata@)));
            if matched {
                count += 1;
                if first.is_none() {
                    first = Some(i);
                }
            }
            i += 1;
        }
        proof {
            assert(self@.airports.skip(n as int) =~= Seq::<AirportView>::empty());
            lemma_iata_count_first(self@.airports, iata@);
        }
        if count == 1 {
            match first {
                Some(fi) => match &self.airports[fi].gps_code {
                    Some(g) => g.clone(),
                    None => iata,
                },
                None => iata,
            }
        } else {
            iata
        }
    }

    /// Looks an IATA location code up against the airport-country join: the
    /// name, ICAO code, municipality and country of the airport uniquely
    /// carrying the code. `None` where no unique joined row exists or the
    /// airport lacks a municipality.
    pub fn lookup_iata(&self, iata: String) -> (r: Option<IataLookupRow>)
        ensures
            r is Some <==> iata_lookup(self@, iata@) is Some,
            r matches Some(row) ==> Some(row@) == iata_lookup(self@, iata@),
    {
        let n = self.airports.len();
        let mut i: usize = 0;
        let mut count: usize = 0;
        let mut first: Option<(usize, usize)> = None;
        let ghost aps = self@.airports;
        let ghost cs = self@.countries;
        proof {
            assert(aps.skip(0) =~= aps);
            lemma_pair_count_first(aps, cs, iata@);
        }
        while i < n
            invariant
                i <= n,
                n == aps.len(),
                aps == self@.airports,
                cs == self@.countries,
                pair_match_count(aps, cs, iata@) >= 0,
                count <= 2,
                (count == pair_match_count(aps, cs, iata@) - pair_match_count(
                    aps.skip(i as int),
                    cs,
                    iata@,
                )) || (count == 2 && pair_match_count(aps, cs, iata@) - pair_match_count(
                    aps.skip(i as int),
                    cs,
                    iata@,
                ) >= 2),
                pair_match_count(aps.skip(i as int), cs, iata@) >= 0,
                first matches Some((ai, ci)) ==> ai < i && ci < cs.len() && first_pair_match(
                    aps,
                    cs,
                    iata@,
                ) == Some((aps[ai as int], cs[ci as int])),
                first is None ==> first_pair_match(aps, cs, iata@) == first_pair_match(
                    aps.skip(i as int),
                    cs,
                    iata@,
                ),
            decreases n - i,
        {
            proof {
                assert(aps.skip(i as int).skip(1) =~= aps.skip(i + 1));
                assert(aps.skip(i as int)[0] == aps[i as int]);
                lemma_pair_count_first(aps.skip(i + 1), cs, iata@);
                lemma_code_count_first(cs, aps[i as int].iso_country);
            }
            let matched = match &self.airports[i].iata_code {
                Some(code) => str_eq(code.as_str(), iata.as_str()),
                None => false,
            };
            assert(matched == (aps[i as int].iata_code == Some(iata@)));
            if matched {
                let (inner, inner_first) = self.count_code_matches(
                    self.airports[i].iso_country.as_str(),
                );
                if inner > 1 || count + inner > 1 {
                    count = 2;
                } else {
                    count = count + inner;
                }
                if first.is_none() {
                    match inner_first {
                        Some(ci) => {
                            first = Some((i, ci));
                        },
                        None => {
                        },
                    }
                }
            }
            i += 1;
        }
        proof {
            assert(aps.skip(n as int) =~= Seq::<AirportView>::empty());
        }
        if count == 1 {
            match first {
                Some((ai, ci)) => {
                    match &self.airports[ai].municipality {
                        Some(m) => Some(
                            IataLookupRow {
                                airport_name: self.airports[ai].name.clone(),
                                airport_gps_code: match &self.airports[ai].gps_code {
                                    Some(g) => Some(g.clone()),
                                    None => None,
                                },
                                airport_municipality: m.clone(),
                                country_name: self.countries[ci].name.clone(),
                            },
                        ),
                        None => None,
                    }
                },
                None => None,
            }
        } else {
            None
        }
    }
}

// ---------------------------------------------------------------------------
// Event store
// ---------------------------------------------------------------------------

/// A stored event row: the persisted projection of a calendar event, keyed
/// by UID. Start and end instants are kept as ISO text.
#[derive(Debug, Clone, PartialEq, Eq)]
pub struct EventRow {
    pub uid: String,
    pub summary: Option<String>,
    pub start_str: String,
    pub end_str: String,
    pub location: Option<String>,
    pub description: Option<String>,
}

/// Mathematical image of `EventRow`.
pub struct EventRowView {
    pub uid: Seq<char>,
    pub summary: Option<Seq<char>>,
    pub start_str: Seq<char>,
    pub end_str: Seq<char>,
    pub location: Option<Seq<char>>,
    pub description: Option<Seq<char>>,
}

impl View for EventRow {
    type V = EventRowView;

    open spec fn view(&self) -> EventRowView {
        EventRowView {
            uid: self.uid@,
            summary: option_string_view(self.summary),
            start_str: self.start_str@,
            end_str: self.end_str@,
            location: option_string_view(self.location),
            description: option_string_view(self.description),
        }
    }
}

/// One event of the downloaded roster, reduced to the plain fields the
/// synchronizer reads. Any field may be missing.
pub struct DownloadedEvent {
    pub uid: Option<String>,
    pub summary: Option<String>,
    pub start: Option<DatePerhapsTime>,
    pub end: Option<DatePerhapsTime>,
    pub location: Option<String>,
    pub description: Option<String>,
}

/// Mathematical image of `DownloadedEvent`.
pub struct DownloadedEventView {
    pub uid: Option<Seq<char>>,
    pub summary: Option<Seq<char>>,
    pub start: Option<DatePerhapsTimeView>,
    pub end: Option<DatePerhapsTimeView>,
    pub location: Option<Seq<char>>,
    pub description: Option<Seq<char>>,
}

impl View for DownloadedEvent {
    type V = DownloadedEventView;

    open spec fn view(&self) -> DownloadedEventView {
        DownloadedEventView {
            uid: option_string_view(self.uid),
            summary: option_string_view(self.summary),
            start: match self.start {
                Some(ref d) => Some(d@),
                None => None,
            },
            end: match self.end {
                Some(ref d) => Some(d@),
                None => None,
            },
            location: option_string_view(self.location),
            description: option_string_view(self.description),
        }
    }
}

impl DownloadedEventView {
    /// The carried date values, where present, are in range.
    pub open spec fn wf(&self) -> bool {
        &&& (self.start matches Some(d) ==> d.wf())
        &&& (self.end matches Some(d) ==> d.wf())
    }
}

/// The image of a sequence of downloaded events.
pub open spec fn downloaded_views(s: Seq<DownloadedEvent>) -> Seq<DownloadedEventView> {
    s.map_values(|e: DownloadedEvent| e@)
}

/// The stored end text parses and denotes an instant strictly after the
/// boundary: the row is active, subject to deletion and re-insertion.
pub open spec fn row_active(end: Seq<char>, archive_end_ts: i64) -> bool {
    parsed_instant(end) matches Some(t) && t > archive_end_ts
}

/// The stored end text parses and denotes an instant at or before the
/// boundary: the row is archived, immutable history.
pub open spec fn row_archived(end: Seq<char>, archive_end_ts: i64) -> bool {
    parsed_instant(end) matches Some(t) && t <= archive_end_ts
}

/// The rows that survive the deletion step: everything not active.
pub open spec fn kept_seq(rows: Seq<EventRowView>, ts: i64) -> Seq<EventRowView>
    decreases rows.len(),
{
    if rows.len() == 0 {
        Seq::empty()
    } else if row_active(rows[0].end_str, ts) {
        kept_seq(rows.skip(1), ts)
    } else {
        seq![rows[0]] + kept_seq(rows.skip(1), ts)
    }
}

/// No two rows share a UID.
pub open spec fn distinct_uids(rows: Seq<EventRowView>) -> bool {
    forall|i: int, j: int| 0 <= i < j < rows.len() ==> rows[i].uid != rows[j].uid
}

/// Some row carries this UID.
pub open spec fn has_uid(rows: Seq<EventRowView>, k: Seq<char>) -> bool
    decreases rows.len(),
{
    if rows.len() == 0 {
        false
    } else {
        rows[0].uid == k || has_uid(rows.skip(1), k)
    }
}

/// A sequence none of whose rows carries `k` does not have `k`.
proof fn lemma_not_has_uid(rows: Seq<EventRowView>, k: Seq<char>)
    requires
        forall|i: int| 0 <= i < rows.len() ==> rows[i].uid != k,
    ensures
        !has_uid(rows, k),
    decreases rows.len(),
{
    if rows.len() > 0 {
        assert forall|i: int| 0 <= i < rows.skip(1).len() implies rows.skip(1)[i].uid != k by {
            assert(rows.skip(1)[i] == rows[i + 1]);
        }
        lemma_not_has_uid(rows.skip(1), k);
    }
}

/// Under distinct UIDs, the tail does not repeat the head's UID, and the
/// tail is distinct as well.
proof fn lemma_distinct_tail(rows: Seq<EventRowView>)
    requires
        distinct_uids(rows),
        rows.len() > 0,
    ensures
        distinct_uids(rows.skip(1)),
        !has_uid(rows.skip(1), rows[0].uid),
{
    assert forall|p: int, q: int|
        0 <= p < q < rows.skip(1).len() implies rows.skip(1)[p].uid != rows.skip(1)[q].uid by {
        assert(rows.skip(1)[p] == rows[p + 1]);
        assert(rows.skip(1)[q] == rows[q + 1]);
    }
    assert forall|i: int| 0 <= i < rows.skip(1).len() implies rows.skip(1)[i].uid != rows[0].uid by {
        assert(rows.skip(1)[i] == rows[i + 1]);
    }
    lemma_not_has_uid(rows.skip(1), rows[0].uid);
}

/// The rows as a map keyed by UID; on a duplicate UID the earlier row wins,
/// which never happens in a well-formed store.
pub open spec fn rows_map(rows: Seq<EventRowView>) -> Map<Seq<char>, EventRowView>
    decreases rows.len(),
{
    if rows.len() == 0 {
        Map::empty()
    } else {
        rows_map(rows.skip(1)).insert(rows[0].uid, rows[0])
    }
}

/// The map the rows denote when upserted in order into `m`: on a duplicate
/// UID the later row wins.
pub open spec fn rows_map_last_from(
    m: Map<Seq<char>, EventRowView>,
    rows: Seq<EventRowView>,
) -> Map<Seq<char>, EventRowView>
    decreases rows.len(),
{
    if rows.len() == 0 {
        m
    } else {
        rows_map_last_from(m.insert(rows[0].uid, rows[0]), rows.skip(1))
    }
}

/// The map of persisted rows, later duplicates winning.
pub open spec fn rows_map_last(rows: Seq<EventRowView>) -> Map<Seq<char>, EventRowView> {
    rows_map_last_from(Map::empty(), rows)
}

/// The keys of the non-active entries of an event map.
pub open spec fn kept_dom(m: Map<Seq<char>, EventRowView>, ts: i64) -> Set<Seq<char>> {
    m.dom().filter(|k: Seq<char>| !row_active(m[k].end_str, ts))
}

/// The non-active entries of an event map: what the deletion step keeps.
pub open spec fn kept_rows(m: Map<Seq<char>, EventRowView>, ts: i64) -> Map<
    Seq<char>,
    EventRowView,
> {
    m.restrict(kept_dom(m, ts))
}

/// The stored row a downloaded event yields, or `None` where the event is
/// rejected: a missing or empty UID, a missing or unconvertible start, or a
/// missing or unconvertible end each discard the single event.
pub open spec fn event_row_view(e: DownloadedEventView) -> Option<EventRowView> {
    match (e.uid, e.start, e.end) {
        (Some(u), Some(sd), Some(ed)) => {
            if u.len() == 0 {
                None
            } else {
                match (dpt_text(sd), dpt_text(ed)) {
                    (Some(ss), Some(es)) => Some(
                        EventRowView {
                            uid: u,
                            summary: e.summary,
                            start_str: ss,
                            end_str: es,
                            location: e.location,
                            description: e.description,
                        },
                    ),
                    _ => None,
                }
            }
        },
        _ => None,
    }
}

/// Whether a downloaded event is written in this pass: it must yield a row,
/// and outside the bootstrap case the row must also be active — an event at
/// or before the boundary is assumed already archived and is not
/// reintroduced, and one whose end parses to no instant is dropped as well.
pub open spec fn sync_accepts(e: DownloadedEventView, ts: i64, bootstrap: bool) -> bool {
    event_row_view(e) matches Some(r) && (bootstrap || row_active(r.end_str, ts))
}

/// The event map after upserting each accepted downloaded event in order.
pub open spec fn sync_inserts(
    m: Map<Seq<char>, EventRowView>,
    evs: Seq<DownloadedEventView>,
    ts: i64,
    bootstrap: bool,
) -> Map<Seq<char>, EventRowView>
    decreases evs.len(),
{
    if evs.len() == 0 {
        m
    } else {
        let m1 = if sync_accepts(evs[0], ts, bootstrap) {
            let r = event_row_view(evs[0])->Some_0;
            m.insert(r.uid, r)
        } else {
            m
        };
        sync_inserts(m1, evs.skip(1), ts, bootstrap)
    }
}

/// Number of downloaded events the pass writes.
pub open spec fn sync_insert_count(evs: Seq<DownloadedEventView>, ts: i64, bootstrap: bool) -> int
    decreases evs.len(),
{
    if evs.len() == 0 {
        0
    } else {
        (if sync_accepts(evs[0], ts, bootstrap) {
            1int
        } else {
            0int
        }) + sync_insert_count(evs.skip(1), ts, bootstrap)
    }
}

/// One synchronization pass over the event map: on an empty store
/// (bootstrap) every event that yields a row is inserted; otherwise the
/// active entries are deleted and only active downloaded events are
/// upserted, leaving archived entries untouched.
pub open spec fn sync_spec(
    m: Map<Seq<char>, EventRowView>,
    evs: Seq<DownloadedEventView>,
    ts: i64,
) -> Map<Seq<char>, EventRowView> {
    sync_inserts(kept_rows(m, ts), evs, ts, m.len() == 0)
}

proof fn lemma_kept_seq_snoc(rows: Seq<EventRowView>, x: EventRowView, ts: i64)
    ensures
        kept_seq(rows.push(x), ts) == if row_active(x.end_str, ts) {
            kept_seq(rows, ts)
        } else {
            kept_seq(rows, ts).push(x)
        },
    decreases rows.len(),
{
    if rows.len() == 0 {
        assert(rows.push(x).skip(1) =~= Seq::<EventRowView>::empty());
        assert(rows.push(x)[0] == x);
        assert(kept_seq(rows.push(x).skip(1), ts) =~= Seq::<EventRowView>::empty());
        if !row_active(x.end_str, ts) {
            assert(kept_seq(rows.push(x), ts) =~= kept_seq(rows, ts).push(x));
        }
    } else {
        lemma_kept_seq_snoc(rows.skip(1), x, ts);
        assert(rows.push(x).skip(1) =~= rows.skip(1).push(x));
        assert(rows.push(x)[0] == rows[0]);
        assert(kept_seq(rows.push(x), ts) == if row_active(rows[0].end_str, ts) {
            kept_seq(rows.skip(1).push(x), ts)
        } else {
            seq![rows[0]] + kept_seq(rows.skip(1).push(x), ts)
        });
        if !row_active(rows[0].end_str, ts) && !row_active(x.end_str, ts) {
            assert(kept_seq(rows.push(x), ts) =~= kept_seq(rows, ts).push(x));
        }
    }
}

proof fn lemma_rows_map_contains(rows: Seq<EventRowView>)
    ensures
        forall|k: Seq<char>| rows_map(rows).dom().contains(k) <==> has_uid(rows, k),
    decreases rows.len(),
{
    if rows.len() > 0 {
        lemma_rows_map_contains(rows.skip(1));
        assert forall|k: Seq<char>| rows_map(rows).dom().contains(k) <==> has_uid(rows, k) by {
            assert(rows_map(rows) == rows_map(rows.skip(1)).insert(rows[0].uid, rows[0]));
            assert(rows_map(rows.skip(1)).dom().contains(k) <==> has_uid(rows.skip(1), k));
            assert(has_uid(rows, k) == (rows[0].uid == k || has_uid(rows.skip(1), k)));
        }
    }
}

proof fn lemma_rows_map_len(rows: Seq<EventRowView>)
    requires
        distinct_uids(rows),
    ensures
        rows_map(rows).dom().finite(),
        rows_map(rows).len() == rows.len(),
    decreases rows.len(),
{
    if rows.len() > 0 {
        lemma_distinct_tail(rows);
        lemma_rows_map_len(rows.skip(1));
        lemma_rows_map_contains(rows.skip(1));
    }
}

proof fn lemma_rows_map_push(rows: Seq<EventRowView>, r: EventRowView)
    requires
        !has_uid(rows, r.uid),
    ensures
        rows_map(rows.push(r)) == rows_map(rows).insert(r.uid, r),
    decreases rows.len(),
{
    if rows.len() == 0 {
        assert(rows.push(r).skip(1) =~= Seq::<EventRowView>::empty());
        assert(rows.push(r)[0] == r);
        assert(rows_map(rows.push(r).skip(1)) =~= Map::<Seq<char>, EventRowView>::empty());
        assert(rows_map(rows.push(r)) =~= rows_map(rows).insert(r.uid, r));
    } else {
        assert(rows[0].uid != r.uid && !has_uid(rows.skip(1), r.uid)) by {
            assert(has_uid(rows, r.uid) == (rows[0].uid == r.uid || has_uid(rows.skip(1), r.uid)));
        }
        lemma_rows_map_push(rows.skip(1), r);
        assert(rows.push(r).skip(1) =~= rows.skip(1).push(r));
        assert(rows.push(r)[0] == rows[0]);
        assert(rows_map(rows.push(r)) == rows_map(rows.skip(1).push(r)).insert(
            rows[0].uid,
            rows[0],
        ));
        assert(rows_map(rows.push(r)) =~= rows_map(rows).insert(r.uid, r));
    }
}

proof fn lemma_rows_map_update(rows: Seq<EventRowView>, r: EventRowView, i: int)
    requires
        distinct_uids(rows),
        0 <= i < rows.len(),
        rows[i].uid == r.uid,
    ensures
        rows_map(rows.update(i, r)) == rows_map(rows).insert(r.uid, r),
    decreases i,
{
    if i == 0 {
        assert(rows.update(0, r).skip(1) =~= rows.skip(1));
        assert(rows.update(0, r)[0] == r);
        assert(rows_map(rows.update(0, r)) =~= rows_map(rows).insert(r.uid, r));
    } else {
        lemma_distinct_tail(rows);
        assert(rows.skip(1)[i - 1].uid == r.uid);
        lemma_rows_map_update(rows.skip(1), r, i - 1);
        assert(rows.update(i, r).skip(1) =~= rows.skip(1).update(i - 1, r));
        assert(rows.update(i, r)[0] == rows[0]);
        assert(rows[0].uid != rows[i].uid);
        assert(rows_map(rows.update(i, r)) =~= rows_map(rows).insert(r.uid, r));
    }
}

proof fn lemma_kept_to_restrict(rows: Seq<EventRowView>, ts: i64)
    requires
        distinct_uids(rows),
    ensures
        rows_map(kept_seq(rows, ts)) == kept_rows(rows_map(rows), ts),
    decreases rows.len(),
{
    if rows.len() == 0 {
        assert(rows_map(kept_seq(rows, ts)) =~= kept_rows(rows_map(rows), ts));
    } else {
        lemma_distinct_tail(rows);
        lemma_kept_to_restrict(rows.skip(1), ts);
        lemma_rows_map_contains(rows.skip(1));
        if row_active(rows[0].end_str, ts) {
            assert(rows_map(kept_seq(rows, ts)) =~= kept_rows(rows_map(rows), ts));
        } else {
            assert(kept_seq(rows, ts) == seq![rows[0]] + kept_seq(rows.skip(1), ts));
            assert((seq![rows[0]] + kept_seq(rows.skip(1), ts)).skip(1) =~= kept_seq(
                rows.skip(1),
                ts,
            ));
            assert(rows_map(kept_seq(rows, ts)) == rows_map(kept_seq(rows.skip(1), ts)).insert(
                rows[0].uid,
                rows[0],
            ));
            assert(rows_map(kept_seq(rows, ts)) =~= kept_rows(rows_map(rows), ts));
        }
    }
}


/// The event table: stored rows with pairwise distinct UIDs.
pub struct EventStore {
    rows: Vec<EventRow>,
}

impl View for EventStore {
    type V = Seq<EventRowView>;

    closed spec fn view(&self) -> Seq<EventRowView> {
        self.rows@.map_values(|r: EventRow| r@)
    }
}

impl EventStore {
    /// No two stored rows share a UID.
    pub open spec fn wf(&self) -> bool {
        distinct_uids(self@)
    }

    /// An empty event store.
    pub fn new() -> (r: EventStore)
        ensures
            r.wf(),
            r@ == Seq::<EventRowView>::empty(),
    {
        let r = EventStore { rows: Vec::new() };
        proof {
            assert(r@ =~= Seq::<EventRowView>::empty());
        }
        r
    }

    /// Rebuilds the store from persisted rows, upserting in order: on a
    /// duplicate UID the later row wins.
    pub fn from_rows(rows: Vec<EventRow>) -> (r: EventStore)
        ensures
            r.wf(),
            rows_map(r@) == rows_map_last(rows@.map_values(|row: EventRow| row@)),
    {
        let mut store = EventStore::new();
        let mut remaining = rows;
        let ghost target = rows_map_last(remaining@.map_values(|row: EventRow| row@));
        proof {
            assert(rows_map(store@) =~= Map::<Seq<char>, EventRowView>::empty());
        }
        while remaining.len() > 0
            invariant
                store.wf(),
                rows_map_last_from(
                    rows_map(store@),
                    remaining@.map_values(|row: EventRow| row@),
                ) == target,
            decreases remaining.len(),
        {
            let ghost views_before = remaining@.map_values(|row: EventRow| row@);
            let row = remaining.remove(0);
            proof {
                assert(remaining@.map_values(|row: EventRow| row@) =~= views_before.skip(1));
                assert(views_before[0] == row@);
            }
            store.upsert_row(row);
        }
        proof {
            assert(remaining@.map_values(|row: EventRow| row@) =~= Seq::<EventRowView>::empty());
        }
        store
    }

    /// Number of stored rows.
    pub fn row_count(&self) -> (n: usize)
        ensures
            n == self@.len(),
    {
        self.rows.len()
    }

    /// The stored row at an index.
    pub fn get_row(&self, i: usize) -> (r: &EventRow)
        requires
            i < self@.len(),
        ensures
            r@ == self@[i as int],
    {
        &self.rows[i]
    }

    fn upsert_row(&mut self, row: EventRow)
        requires
            distinct_uids(old(self)@),
        ensures
            distinct_uids(final(self)@),
            rows_map(final(self)@) == rows_map(old(self)@).insert(row@.uid, row@),
    {
        let n = self.rows.len();
        let mut i: usize = 0;
        while i < n
            invariant
                i <= n,
                n == self.rows.len(),
                *self == *old(self),
                distinct_uids(old(self)@),
                forall|j: int| 0 <= j < i ==> self@[j].uid != row@.uid,
            decreases n - i,
        {
            if str_eq(self.rows[i].uid.as_str(), row.uid.as_str()) {
                self.rows.set(i, row);
                proof {
                    assert(self@ =~= old(self)@.update(i as int, row@));
                    lemma_rows_map_update(old(self)@, row@, i as int);
                    assert forall|p: int, q: int|
                        0 <= p < q < self@.len() implies self@[p].uid != self@[q].uid by {
                        let ghost olds = old(self)@;
                        if p == i {
                            assert(self@[p].uid == olds[p].uid && self@[q] == olds[q]);
                        } else if q == i {
                            assert(self@[q].uid == olds[q].uid && self@[p] == olds[p]);
                        } else {
                            assert(self@[p] == olds[p] && self@[q] == olds[q]);
                        }
                    }
                }
                return ;
            }
            i += 1;
        }
        self.rows.push(row);
        proof {
            assert(self@ =~= old(self)@.push(row@));
            lemma_not_has_uid(old(self)@, row@.uid);
            lemma_rows_map_push(old(self)@, row@);
            assert forall|p: int, q: int|
                0 <= p < q < self@.len() implies self@[p].uid != self@[q].uid by {
                if q == self@.len() - 1 {
                    assert(old(self)@[p].uid != row@.uid);
                }
            }
        }
    }
}

/// The stored end text parses to an instant strictly after the boundary.
fn is_row_active(end_str: &str, archive_end_ts: i64) -> (r: bool)
    ensures
        r == row_active(end_str@, archive_end_ts),
{
    match end_instant(end_str) {
        Some(t) => t > archive_end_ts,
        None => false,
    }
}

/// Readies one downloaded event for insertion, or rejects it: a missing or
/// empty UID, a missing or unconvertible start, or a missing or
/// unconvertible end each discard the single event, independent of the rest
/// of the batch.
fn prepare_event(e: &DownloadedEvent) -> (r: Option<EventRow>)
    requires
        e@.wf(),
    ensures
        r is Some <==> event_row_view(e@) is Some,
        r matches Some(row) ==> Some(row@) == event_row_view(e@),
{
    let uid = match &e.uid {
        Some(u) => u,
        None => {
            return None;
        },
    };
    if uid.as_str().is_empty() {
        return None;
    }
    let start = match &e.start {
        Some(d) => d,
        None => {
            return None;
        },
    };
    let start_str = match dateperhapstime_to_string(start) {
        Ok(s) => s,
        Err(_) => {
            return None;
        },
    };
    let end = match &e.end {
        Some(d) => d,
        None => {
            return None;
        },
    };
    let end_str = match dateperhapstime_to_string(end) {
        Ok(s) => s,
        Err(_) => {
            return None;
        },
    };
    Some(
        EventRow {
            uid: uid.clone(),
            summary: clone_option_string(&e.summary),
            start_str,
            end_str,
            location: clone_option_string(&e.location),
            description: clone_option_string(&e.description),
        },
    )
}

/// Synchronizes the event store with one downloaded roster, against one
/// frozen archive boundary (Unix seconds).
///
/// If the store is empty (bootstrap), every event that yields a row is
/// inserted, regardless of the boundary. Otherwise every stored active row
/// — end instant strictly after the boundary — is deleted first, archived
/// rows stay untouched, and of the downloaded events exactly the active
/// ones are upserted by UID. Returns the number of rows written: deleted
/// plus inserted.
pub fn update_events(
    store: &mut EventStore,
    downloaded: &Vec<DownloadedEvent>,
    archive_end_ts: i64,
) -> (n: usize)
    requires
        old(store).wf(),
        forall|i: int| 0 <= i < downloaded@.len() ==> (#[trigger] downloaded@[i])@.wf(),
        old(store)@.len() + downloaded@.len() <= usize::MAX,
    ensures
        final(store).wf(),
        rows_map(final(store)@) == sync_spec(
            rows_map(old(store)@),
            downloaded_views(downloaded@),
            archive_end_ts,
        ),
        n == old(store)@.len() - kept_seq(old(store)@, archive_end_ts).len() + sync_insert_count(
            downloaded_views(downloaded@),
            archive_end_ts,
            old(store)@.len() == 0,
        ),
{
    let ghost oldv = store@;
    let was_empty = store.rows.len() == 0;

    // Delete every active row; archived and unparseable rows stay. On an
    // empty store this is a no-op, matching the bootstrap case where the
    // deletion is skipped.
    let mut deleted: usize = 0;
    let mut i: usize = 0;
    let ghost mut consumed: int = 0;
    proof {
        assert(oldv.subrange(0, 0) =~= Seq::<EventRowView>::empty());
        assert(kept_seq(oldv.subrange(0, 0), archive_end_ts) =~= Seq::<EventRowView>::empty());
        assert(oldv.skip(0) =~= oldv);
        assert(store@ =~= kept_seq(oldv.subrange(0, consumed), archive_end_ts) + oldv.skip(
            consumed,
        ));
    }
    while i < store.rows.len()
        invariant
            store@ == kept_seq(oldv.subrange(0, consumed), archive_end_ts) + oldv.skip(consumed),
            0 <= consumed <= oldv.len(),
            i == kept_seq(oldv.subrange(0, consumed), archive_end_ts).len(),
            deleted + i == consumed,
            oldv.len() <= usize::MAX,
            distinct_uids(oldv),
            distinct_uids(store@),
        decreases oldv.len() - consumed,
    {
        let ghost prefix = oldv.subrange(0, consumed);
        let ghost kept_prefix = kept_seq(prefix, archive_end_ts);
        proof {
            assert(store@[i as int] == oldv[consumed]);
            assert(oldv.subrange(0, consumed + 1) =~= prefix.push(oldv[consumed]));
            lemma_kept_seq_snoc(prefix, oldv[consumed], archive_end_ts);
        }
        let active = is_row_active(store.rows[i].end_str.as_str(), archive_end_ts);
        if active {
            let ghost before = store@;
            store.rows.remove(i);
            deleted += 1;
            proof {
                consumed = consumed + 1;
                assert(store@ =~= before.remove(i as int));
                before.remove_ensures(i as int);
                assert(oldv.skip(consumed - 1).skip(1) =~= oldv.skip(consumed));
                assert(before.remove(i as int) =~= kept_prefix + oldv.skip(consumed));
                assert(store@ =~= kept_seq(oldv.subrange(0, consumed), archive_end_ts)
                    + oldv.skip(consumed));
                assert forall|p: int, q: int|
                    0 <= p < q < store@.len() implies store@[p].uid != store@[q].uid by {
                    if q < i {
                        assert(before[p].uid != before[q].uid);
                    } else if p < i {
                        assert(before[p].uid != before[q + 1].uid);
                    } else {
                        assert(before[p + 1].uid != before[q + 1].uid);
                    }
                }
            }
        } else {
            i += 1;
            proof {
                consumed = consumed + 1;
                assert(store@ =~= kept_seq(oldv.subrange(0, consumed), archive_end_ts)
                    + oldv.skip(consumed));
            }
        }
    }
    proof {
        assert(consumed == oldv.len());
        assert(oldv.subrange(0, consumed) =~= oldv);
        assert(oldv.skip(consumed) =~= Seq::<EventRowView>::empty());
        assert(store@ =~= kept_seq(oldv, archive_end_ts));
        lemma_kept_to_restrict(oldv, archive_end_ts);
        lemma_rows_map_len(oldv);
    }

    // Upsert the accepted downloaded events, in order.
    let ghost evs = downloaded_views(downloaded@);
    let ghost base = rows_map(store@);
    let mut inserted: usize = 0;
    let mut j: usize = 0;
    proof {
        assert(evs.skip(0) =~= evs);
    }
    while j < downloaded.len()
        invariant
            j <= downloaded@.len(),
            evs == downloaded_views(downloaded@),
            evs.len() == downloaded@.len(),
            forall|p: int| 0 <= p < downloaded@.len() ==> (#[trigger] downloaded@[p])@.wf(),
            distinct_uids(store@),
            sync_inserts(rows_map(store@), evs.skip(j as int), archive_end_ts, was_empty)
                == sync_inserts(base, evs, archive_end_ts, was_empty),
            inserted + sync_insert_count(evs.skip(j as int), archive_end_ts, was_empty)
                == sync_insert_count(evs, archive_end_ts, was_empty),
            inserted <= j,
        decreases downloaded@.len() - j,
    {
        proof {
            assert(evs.skip(j as int).skip(1) =~= evs.skip(j as int + 1));
            assert(evs.skip(j as int)[0] == downloaded@[j as int]@);
        }
        let e = &downloaded[j];
        match prepare_event(e) {
            Some(row) => {
                let accept = if was_empty {
                    true
                } else {
                    is_row_active(row.end_str.as_str(), archive_end_ts)
                };
                assert(accept == sync_accepts(e@, archive_end_ts, was_empty));
                if accept {
                    store.upsert_row(row);
                    inserted += 1;
                }
            },
            None => {
                assert(!sync_accepts(e@, archive_end_ts, was_empty));
            },
        }
        j += 1;
    }
    proof {
        assert(evs.skip(downloaded@.len() as int) =~= Seq::<DownloadedEventView>::empty());
    }
    deleted + inserted
}

// ---------------------------------------------------------------------------
// Laws of the synchronizer
// ---------------------------------------------------------------------------

/// Some event of the batch is accepted and carries this UID.
pub open spec fn accepted_uid(
    evs: Seq<DownloadedEventView>,
    ts: i64,
    bootstrap: bool,
    k: Seq<char>,
) -> bool
    decreases evs.len(),
{
    if evs.len() == 0 {
        false
    } else {
        (sync_accepts(evs[0], ts, bootstrap) && event_row_view(evs[0])->Some_0.uid == k)
            || accepted_uid(evs.skip(1), ts, bootstrap, k)
    }
}

/// The row of the first accepted event of the batch carrying this UID.
pub open spec fn accepted_row(
    evs: Seq<DownloadedEventView>,
    ts: i64,
    bootstrap: bool,
    k: Seq<char>,
) -> Option<EventRowView>
    decreases evs.len(),
{
    if evs.len() == 0 {
        None
    } else if sync_accepts(evs[0], ts, bootstrap) && event_row_view(evs[0])->Some_0.uid == k {
        event_row_view(evs[0])
    } else {
        accepted_row(evs.skip(1), ts, bootstrap, k)
    }
}

/// No two valid events of the batch share a UID.
pub open spec fn distinct_valid_uids(evs: Seq<DownloadedEventView>) -> bool {
    forall|i: int, j: int|
        0 <= i < j < evs.len() && event_row_view(evs[i]) is Some && event_row_view(evs[j]) is Some
            ==> event_row_view(evs[i])->Some_0.uid != event_row_view(evs[j])->Some_0.uid
}

proof fn lemma_not_accepted_uid(evs: Seq<DownloadedEventView>, ts: i64, b: bool, k: Seq<char>)
    requires
        forall|i: int|
            0 <= i < evs.len() && sync_accepts(#[trigger] evs[i], ts, b) ==> event_row_view(
                evs[i],
            )->Some_0.uid != k,
    ensures
        !accepted_uid(evs, ts, b, k),
    decreases evs.len(),
{
    if evs.len() > 0 {
        assert forall|i: int|
            0 <= i < evs.skip(1).len() && sync_accepts(#[trigger] evs.skip(1)[i], ts, b) implies
            event_row_view(evs.skip(1)[i])->Some_0.uid != k by {
            assert(evs.skip(1)[i] == evs[i + 1]);
        }
        lemma_not_accepted_uid(evs.skip(1), ts, b, k);
    }
}

proof fn lemma_accepted_uid_from_index(evs: Seq<DownloadedEventView>, ts: i64, b: bool, i: int)
    requires
        0 <= i < evs.len(),
        sync_accepts(evs[i], ts, b),
    ensures
        accepted_uid(evs, ts, b, event_row_view(evs[i])->Some_0.uid),
    decreases evs.len(),
{
    if i > 0 {
        assert(evs.skip(1)[i - 1] == evs[i]);
        lemma_accepted_uid_from_index(evs.skip(1), ts, b, i - 1);
    }
}

proof fn lemma_sync_inserts_finite(
    m: Map<Seq<char>, EventRowView>,
    evs: Seq<DownloadedEventView>,
    ts: i64,
    b: bool,
)
    requires
        m.dom().finite(),
    ensures
        sync_inserts(m, evs, ts, b).dom().finite(),
    decreases evs.len(),
{
    if evs.len() > 0 {
        if sync_accepts(evs[0], ts, b) {
            let r = event_row_view(evs[0])->Some_0;
            lemma_sync_inserts_finite(m.insert(r.uid, r), evs.skip(1), ts, b);
        } else {
            lemma_sync_inserts_finite(m, evs.skip(1), ts, b);
        }
    }
}

proof fn lemma_sync_inserts_dom(
    m: Map<Seq<char>, EventRowView>,
    evs: Seq<DownloadedEventView>,
    ts: i64,
    b: bool,
)
    ensures
        forall|k: Seq<char>|
            #[trigger] sync_inserts(m, evs, ts, b).dom().contains(k) <==> (m.dom().contains(k)
                || accepted_uid(evs, ts, b, k)),
    decreases evs.len(),
{
    if evs.len() > 0 {
        let m1 = if sync_accepts(evs[0], ts, b) {
            let r = event_row_view(evs[0])->Some_0;
            m.insert(r.uid, r)
        } else {
            m
        };
        lemma_sync_inserts_dom(m1, evs.skip(1), ts, b);
        assert forall|k: Seq<char>|
            #[trigger] sync_inserts(m, evs, ts, b).dom().contains(k) <==> (m.dom().contains(k)
                || accepted_uid(evs, ts, b, k)) by {
            assert(sync_inserts(m1, evs.skip(1), ts, b).dom().contains(k) <==> (m1.dom().contains(
                k,
            ) || accepted_uid(evs.skip(1), ts, b, k)));
        }
    }
}

proof fn lemma_sync_inserts_frame(
    m: Map<Seq<char>, EventRowView>,
    evs: Seq<DownloadedEventView>,
    ts: i64,
    b: bool,
    k: Seq<char>,
)
    requires
        !accepted_uid(evs, ts, b, k),
    ensures
        sync_inserts(m, evs, ts, b).dom().contains(k) == m.dom().contains(k),
        m.dom().contains(k) ==> sync_inserts(m, evs, ts, b)[k] == m[k],
    decreases evs.len(),
{
    if evs.len() > 0 {
        if sync_accepts(evs[0], ts, b) {
            let r = event_row_view(evs[0])->Some_0;
            lemma_sync_inserts_frame(m.insert(r.uid, r), evs.skip(1), ts, b, k);
        } else {
            lemma_sync_inserts_frame(m, evs.skip(1), ts, b, k);
        }
    }
}

proof fn lemma_distinct_valid_tail(evs: Seq<DownloadedEventView>)
    requires
        distinct_valid_uids(evs),
        evs.len() > 0,
    ensures
        distinct_valid_uids(evs.skip(1)),
{
    assert forall|i: int, j: int|
        0 <= i < j < evs.skip(1).len() && event_row_view(evs.skip(1)[i]) is Some && event_row_view(
            evs.skip(1)[j],
        ) is Some implies event_row_view(evs.skip(1)[i])->Some_0.uid != event_row_view(
        evs.skip(1)[j],
    )->Some_0.uid by {
        assert(evs.skip(1)[i] == evs[i + 1]);
        assert(evs.skip(1)[j] == evs[j + 1]);
    }
}

proof fn lemma_tail_not_accepted(evs: Seq<DownloadedEventView>, ts: i64, b: bool)
    requires
        distinct_valid_uids(evs),
        evs.len() > 0,
        event_row_view(evs[0]) is Some,
    ensures
        !accepted_uid(evs.skip(1), ts, b, event_row_view(evs[0])->Some_0.uid),
{
    let k = event_row_view(evs[0])->Some_0.uid;
    assert forall|i: int|
        0 <= i < evs.skip(1).len() && sync_accepts(#[trigger] evs.skip(1)[i], ts, b) implies
        event_row_view(evs.skip(1)[i])->Some_0.uid != k by {
        assert(evs.skip(1)[i] == evs[i + 1]);
    }
    lemma_not_accepted_uid(evs.skip(1), ts, b, k);
}

proof fn lemma_sync_inserts_value(
    m: Map<Seq<char>, EventRowView>,
    evs: Seq<DownloadedEventView>,
    ts: i64,
    b: bool,
    k: Seq<char>,
)
    requires
        distinct_valid_uids(evs),
        accepted_uid(evs, ts, b, k),
    ensures
        sync_inserts(m, evs, ts, b).dom().contains(k),
        Some(sync_inserts(m, evs, ts, b)[k]) == accepted_row(evs, ts, b, k),
    decreases evs.len(),
{
    let r0 = event_row_view(evs[0]);
    if sync_accepts(evs[0], ts, b) && r0->Some_0.uid == k {
        let r = r0->Some_0;
        lemma_tail_not_accepted(evs, ts, b);
        lemma_sync_inserts_frame(m.insert(r.uid, r), evs.skip(1), ts, b, k);
    } else {
        lemma_distinct_valid_tail(evs);
        if sync_accepts(evs[0], ts, b) {
            let r = r0->Some_0;
            lemma_sync_inserts_value(m.insert(r.uid, r), evs.skip(1), ts, b, k);
        } else {
            lemma_sync_inserts_value(m, evs.skip(1), ts, b, k);
        }
    }
}

proof fn lemma_sync_inserts_active_value(
    m: Map<Seq<char>, EventRowView>,
    evs: Seq<DownloadedEventView>,
    ts: i64,
    k: Seq<char>,
)
    requires
        accepted_uid(evs, ts, false, k),
    ensures
        sync_inserts(m, evs, ts, false).dom().contains(k),
        row_active(sync_inserts(m, evs, ts, false)[k].end_str, ts),
    decreases evs.len(),
{
    let r0 = event_row_view(evs[0]);
    if sync_accepts(evs[0], ts, false) && r0->Some_0.uid == k {
        let r = r0->Some_0;
        if accepted_uid(evs.skip(1), ts, false, k) {
            lemma_sync_inserts_active_value(m.insert(r.uid, r), evs.skip(1), ts, k);
        } else {
            lemma_sync_inserts_frame(m.insert(r.uid, r), evs.skip(1), ts, false, k);
        }
    } else {
        if sync_accepts(evs[0], ts, false) {
            let r = r0->Some_0;
            lemma_sync_inserts_active_value(m.insert(r.uid, r), evs.skip(1), ts, k);
        } else {
            lemma_sync_inserts_active_value(m, evs.skip(1), ts, k);
        }
    }
}

proof fn lemma_accepted_bootstrap_agrees(evs: Seq<DownloadedEventView>, ts: i64, k: Seq<char>)
    requires
        distinct_valid_uids(evs),
        accepted_uid(evs, ts, false, k),
    ensures
        accepted_uid(evs, ts, true, k),
        accepted_row(evs, ts, true, k) == accepted_row(evs, ts, false, k),
    decreases evs.len(),
{
    let r0 = event_row_view(evs[0]);
    if sync_accepts(evs[0], ts, false) && r0->Some_0.uid == k {
        // The head is valid and active with UID `k`; under bootstrap it is
        // accepted as well, and it is the first match either way.
    } else if r0 is Some && r0->Some_0.uid == k {
        // The head is the unique valid event with UID `k` but is not
        // accepted outside bootstrap, so no event in the tail carries `k`.
        lemma_tail_not_accepted(evs, ts, false);
        assert(false);
    } else {
        lemma_distinct_valid_tail(evs);
        lemma_accepted_bootstrap_agrees(evs.skip(1), ts, k);
    }
}

proof fn lemma_accepted_active_implies_nonbootstrap(
    evs: Seq<DownloadedEventView>,
    ts: i64,
    k: Seq<char>,
)
    requires
        distinct_valid_uids(evs),
        accepted_uid(evs, ts, true, k),
        row_active(accepted_row(evs, ts, true, k)->Some_0.end_str, ts),
    ensures
        accepted_uid(evs, ts, false, k),
    decreases evs.len(),
{
    let r0 = event_row_view(evs[0]);
    if sync_accepts(evs[0], ts, true) && r0->Some_0.uid == k {
        // accepted_row is the head's row, which is active.
    } else {
        lemma_distinct_valid_tail(evs);
        lemma_accepted_active_implies_nonbootstrap(evs.skip(1), ts, k);
    }
}

/// Bootstrap property: a synchronization pass over an empty store inserts
/// every downloaded event that yields a row, regardless of the archive
/// boundary.
pub proof fn lemma_sync_bootstrap_inserts_all(
    m: Map<Seq<char>, EventRowView>,
    evs: Seq<DownloadedEventView>,
    ts: i64,
    i: int,
)
    requires
        m.dom().finite(),
        m.len() == 0,
        0 <= i < evs.len(),
        event_row_view(evs[i]) is Some,
    ensures
        sync_spec(m, evs, ts).dom().contains(event_row_view(evs[i])->Some_0.uid),
{
    lemma_accepted_uid_from_index(evs, ts, true, i);
    lemma_sync_inserts_dom(kept_rows(m, ts), evs, ts, true);
}

/// A synchronization pass over a non-empty store never reintroduces an
/// archived row: every archived entry of the result was already stored, with
/// the same value.
pub proof fn lemma_sync_never_reintroduces_archived(
    m: Map<Seq<char>, EventRowView>,
    evs: Seq<DownloadedEventView>,
    ts: i64,
    k: Seq<char>,
)
    requires
        m.dom().finite(),
        m.len() != 0,
        sync_spec(m, evs, ts).dom().contains(k),
        row_archived(sync_spec(m, evs, ts)[k].end_str, ts),
    ensures
        m.dom().contains(k),
        sync_spec(m, evs, ts)[k] == m[k],
        row_archived(m[k].end_str, ts),
{
    let kept = kept_rows(m, ts);
    if accepted_uid(evs, ts, false, k) {
        lemma_sync_inserts_active_value(kept, evs, ts, k);
        assert(false);
    } else {
        lemma_sync_inserts_frame(kept, evs, ts, false, k);
    }
}

/// Synchronizer idempotence: running the pass twice with the same downloaded
/// batch and the same boundary leaves the store exactly as after the first
/// run — provided no two valid events of the batch share a UID, and the
/// first run does not empty a previously non-empty store (emptying it would
/// make the second run a bootstrap pass, which also readmits archived
/// events).
pub proof fn lemma_sync_idempotent(
    m: Map<Seq<char>, EventRowView>,
    evs: Seq<DownloadedEventView>,
    ts: i64,
)
    requires
        m.dom().finite(),
        distinct_valid_uids(evs),
        m.len() != 0 ==> sync_spec(m, evs, ts).len() != 0,
    ensures
        sync_spec(sync_spec(m, evs, ts), evs, ts) == sync_spec(m, evs, ts),
{
    let kept0 = kept_rows(m, ts);
    let m1 = sync_spec(m, evs, ts);
    assert(kept0.dom().finite()) by {
        assert(kept0.dom() =~= m.dom().intersect(kept_dom(m, ts)));
        vstd::set::axiom_set_intersect_finite(m.dom(), kept_dom(m, ts));
    }
    lemma_sync_inserts_finite(kept0, evs, ts, m.len() == 0);
    let kept1 = kept_rows(m1, ts);
    assert(kept1.dom().finite()) by {
        assert(kept1.dom() =~= m1.dom().intersect(kept_dom(m1, ts)));
        vstd::set::axiom_set_intersect_finite(m1.dom(), kept_dom(m1, ts));
    }
    if m.len() == 0 {
        m.dom().lemma_len0_is_empty();
        assert(m =~= Map::<Seq<char>, EventRowView>::empty());
        assert(kept0 =~= Map::<Seq<char>, EventRowView>::empty());
        if m1.len() == 0 {
            m1.dom().lemma_len0_is_empty();
            assert(m1 =~= Map::<Seq<char>, EventRowView>::empty());
            assert(kept1 =~= Map::<Seq<char>, EventRowView>::empty());
            assert(kept1 == kept0);
            assert(sync_spec(m1, evs, ts) == m1);
        } else {
            // First run was a bootstrap; the second is not. Inserted rows
            // agree entry by entry.
            let m2 = sync_spec(m1, evs, ts);
            lemma_sync_inserts_dom(kept0, evs, ts, true);
            lemma_sync_inserts_dom(kept1, evs, ts, false);
            assert forall|k: Seq<char>| #[trigger] m2.dom().contains(k) == m1.dom().contains(
                k,
            ) by {
                if accepted_uid(evs, ts, false, k) {
                    lemma_accepted_bootstrap_agrees(evs, ts, k);
                } else {
                    lemma_sync_inserts_frame(kept1, evs, ts, false, k);
                    if m1.dom().contains(k) {
                        lemma_sync_inserts_value(kept0, evs, ts, true, k);
                        if row_active(m1[k].end_str, ts) {
                            lemma_accepted_active_implies_nonbootstrap(evs, ts, k);
                            assert(false);
                        }
                        assert(kept1.dom().contains(k));
                    }
                    if m2.dom().contains(k) {
                        assert(kept1.dom().contains(k));
                        assert(m1.dom().contains(k));
                    }
                }
            }
            assert forall|k: Seq<char>| m1.dom().contains(k) implies #[trigger] m2[k] == m1[k] by {
                if accepted_uid(evs, ts, false, k) {
                    lemma_accepted_bootstrap_agrees(evs, ts, k);
                    lemma_sync_inserts_value(kept0, evs, ts, true, k);
                    lemma_sync_inserts_value(kept1, evs, ts, false, k);
                } else {
                    lemma_sync_inserts_frame(kept1, evs, ts, false, k);
                    if accepted_uid(evs, ts, true, k) {
                        lemma_sync_inserts_value(kept0, evs, ts, true, k);
                        if row_active(m1[k].end_str, ts) {
                            lemma_accepted_active_implies_nonbootstrap(evs, ts, k);
                            assert(false);
                        }
                    } else {
                        lemma_sync_inserts_frame(kept0, evs, ts, true, k);
                        assert(false);
                    }
                    assert(kept1.dom().contains(k) && kept1[k] == m1[k]);
                }
            }
            assert(m2 =~= m1);
        }
    } else {
        // Neither run is a bootstrap.
        assert(m1.len() != 0);
        let m2 = sync_spec(m1, evs, ts);
        lemma_sync_inserts_dom(kept0, evs, ts, false);
        lemma_sync_inserts_dom(kept1, evs, ts, false);
        assert forall|k: Seq<char>| #[trigger] m2.dom().contains(k) == m1.dom().contains(k) by {
            if !accepted_uid(evs, ts, false, k) {
                lemma_sync_inserts_frame(kept0, evs, ts, false, k);
                lemma_sync_inserts_frame(kept1, evs, ts, false, k);
                if m1.dom().contains(k) {
                    assert(kept0.dom().contains(k));
                    assert(m1[k] == kept0[k]);
                    assert(!row_active(m1[k].end_str, ts));
                    assert(kept1.dom().contains(k));
                }
            }
        }
        assert forall|k: Seq<char>| m1.dom().contains(k) implies #[trigger] m2[k] == m1[k] by {
            if accepted_uid(evs, ts, false, k) {
                lemma_sync_inserts_value(kept0, evs, ts, false, k);
                lemma_sync_inserts_value(kept1, evs, ts, false, k);
            } else {
                lemma_sync_inserts_frame(kept0, evs, ts, false, k);
                lemma_sync_inserts_frame(kept1, evs, ts, false, k);
                assert(kept0.dom().contains(k) && m1[k] == kept0[k]);
                assert(!row_active(m1[k].end_str, ts));
                assert(kept1.dom().contains(k) && kept1[k] == m1[k]);
            }
        }
        assert(m2 =~= m1);
    }
}

} // verus!
