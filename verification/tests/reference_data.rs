use duty_plan::api_response::AirportRecord;
use duty_plan::api_response::AirportType;
use duty_plan::api_response::Continent;
use duty_plan::api_response::CountryDownloadResponse;
use duty_plan::update_db::ReferenceStore;
use duty_plan::update_db::update_airports;
use duty_plan::update_db::update_countries;

fn airport(id: u32, iata: Option<&str>, gps: Option<&str>) -> AirportRecord {
    AirportRecord {
        id,
        kind: AirportType::large_airport,
        name: "Frankfurt Airport".to_string(),
        municipality: Some("Frankfurt".to_string()),
        gps_code: gps.map(str::to_string),
        iata_code: iata.map(str::to_string),
        iso_country: "DE".to_string(),
    }
}

fn germany(id: u32) -> CountryDownloadResponse {
    CountryDownloadResponse {
        id,
        code: "DE".to_string(),
        name: "Germany".to_string(),
        continent: Continent::EU,
        wikipedia_link: None,
        keywords: None,
    }
}

fn store_with(airports: Vec<AirportRecord>, countries: Vec<CountryDownloadResponse>) -> ReferenceStore {
    let mut store = ReferenceStore::new();
    update_airports(&mut store, airports);
    update_countries(&mut store, countries);
    store
}

#[test]
fn resolves_iata_to_icao() {
    let store = store_with(vec![airport(1, Some("FRA"), Some("EDDF"))], vec![germany(1)]);
    assert_eq!(store.try_iata_to_icao("FRA".to_string()), "EDDF");
}

#[test]
fn unknown_iata_comes_back_unchanged() {
    let store = store_with(vec![airport(1, Some("FRA"), Some("EDDF"))], vec![germany(1)]);
    assert_eq!(store.try_iata_to_icao("JFK".to_string()), "JFK");
}

#[test]
fn ambiguous_iata_comes_back_unchanged() {
    let store = store_with(
        vec![airport(1, Some("FRA"), Some("EDDF")), airport(2, Some("FRA"), Some("EDDV"))],
        vec![germany(1)],
    );
    assert_eq!(store.try_iata_to_icao("FRA".to_string()), "FRA");
}

#[test]
fn iata_without_icao_comes_back_unchanged() {
    let store = store_with(vec![airport(1, Some("FRA"), None)], vec![germany(1)]);
    assert_eq!(store.try_iata_to_icao("FRA".to_string()), "FRA");
}

#[test]
fn lookup_joins_airport_and_country() {
    let store = store_with(vec![airport(1, Some("FRA"), Some("EDDF"))], vec![germany(1)]);
    let row = store.lookup_iata("FRA".to_string()).unwrap();
    assert_eq!(row.airport_name, "Frankfurt Airport");
    assert_eq!(row.airport_gps_code.as_deref(), Some("EDDF"));
    assert_eq!(row.airport_municipality, "Frankfurt");
    assert_eq!(row.country_name, "Germany");
}

#[test]
fn lookup_fails_without_matching_country() {
    let store = store_with(vec![airport(1, Some("FRA"), Some("EDDF"))], vec![]);
    assert_eq!(store.lookup_iata("FRA".to_string()), None);
}

#[test]
fn lookup_fails_without_municipality() {
    let mut a = airport(1, Some("FRA"), Some("EDDF"));
    a.municipality = None;
    let store = store_with(vec![a], vec![germany(1)]);
    assert_eq!(store.lookup_iata("FRA".to_string()), None);
}

#[test]
fn upsert_replaces_by_id_and_keeps_stale_rows() {
    let mut store = ReferenceStore::new();
    let n = update_airports(
        &mut store,
        vec![airport(1, Some("FRA"), Some("EDDF")), airport(2, Some("MUC"), Some("EDDM"))],
    );
    assert_eq!(n, 2);
    update_countries(&mut store, vec![germany(1)]);
    // A later import carries only the first airport, with a changed code.
    update_airports(&mut store, vec![airport(1, Some("FRA"), Some("EDDX"))]);
    assert_eq!(store.try_iata_to_icao("FRA".to_string()), "EDDX");
    // The row absent from the new download is not deleted.
    assert_eq!(store.try_iata_to_icao("MUC".to_string()), "EDDM");
}

#[test]
fn country_upsert_replaces_by_id() {
    let mut store = ReferenceStore::new();
    update_airports(&mut store, vec![airport(1, Some("FRA"), Some("EDDF"))]);
    update_countries(&mut store, vec![germany(7)]);
    let mut renamed = germany(7);
    renamed.name = "Federal Republic of Germany".to_string();
    let n = update_countries(&mut store, vec![renamed]);
    assert_eq!(n, 1);
    let row = store.lookup_iata("FRA".to_string()).unwrap();
    assert_eq!(row.country_name, "Federal Republic of Germany");
}
