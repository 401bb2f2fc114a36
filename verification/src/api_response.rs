//! Typed records of the airport and country reference downloads, reduced to
//! the plain values the core reads and stores.

use vstd::prelude::*;

verus! {

/// Kind of airport in the airport reference download.
#[allow(non_camel_case_types)]
#[derive(Clone, Copy, Debug, PartialEq, Eq, Structural)]
pub enum AirportType {
    balloonport,
    closed,
    heliport,
    large_airport,
    medium_airport,
    seaplane_base,
    small_airport,
}

/// Continent code in the reference downloads.
#[allow(non_camel_case_types)]
#[derive(Clone, Copy, Debug, PartialEq, Eq, Structural)]
pub enum Continent {
    AF,
    AN,
    AS,
    EU,
    NA,
    OC,
    SA,
}

/// Country record of the country reference download.
#[derive(Clone, Debug, PartialEq, Eq)]
pub struct CountryDownloadResponse {
    pub id: u32,
    pub code: String,
    pub name: String,
    pub continent: Continent,
    pub wikipedia_link: Option<String>,
    pub keywords: Option<String>,
}

/// Mathematical image of `CountryDownloadResponse`.
pub struct CountryView {
    pub id: u32,
    pub code: Seq<char>,
    pub name: Seq<char>,
    pub continent: Continent,
    pub wikipedia_link: Option<Seq<char>>,
    pub keywords: Option<Seq<char>>,
}

impl View for CountryDownloadResponse {
    type V = CountryView;

    open spec fn view(&self) -> CountryView {
        CountryView {
            id: self.id,
            code: self.code@,
            name: self.name@,
            continent: self.continent,
            wikipedia_link: match self.wikipedia_link {
                Some(ref s) => Some(s@),
                None => None,
            },
            keywords: match self.keywords {
                Some(ref s) => Some(s@),
                None => None,
            },
        }
    }
}

/// Airport record of the airport reference download, keeping the fields the
/// core reads: identity, names, the two airport codes and the country link.
pub struct AirportRecord {
    pub id: u32,
    pub kind: AirportType,
    pub name: String,
    pub municipality: Option<String>,
    pub gps_code: Option<String>,
    pub iata_code: Option<String>,
    pub iso_country: String,
}

/// Mathematical image of `AirportRecord`.
pub struct AirportView {
    pub id: u32,
    pub kind: AirportType,
    pub name: Seq<char>,
    pub municipality: Option<Seq<char>>,
    pub gps_code: Option<Seq<char>>,
    pub iata_code: Option<Seq<char>>,
    pub iso_country: Seq<char>,
}

impl View for AirportRecord {
    type V = AirportView;

    open spec fn view(&self) -> AirportView {
        AirportView {
            id: self.id,
            kind: self.kind,
            name: self.name@,
            municipality: match self.municipality {
                Some(ref s) => Some(s@),
                None => None,
            },
            gps_code: match self.gps_code {
                Some(ref s) => Some(s@),
                None => None,
            },
            iata_code: match self.iata_code {
                Some(ref s) => Some(s@),
                None => None,
            },
            iso_country: self.iso_country@,
        }
    }
}

} // verus!
