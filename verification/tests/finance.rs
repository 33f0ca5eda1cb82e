//! Tests of the market reference data and the short-position response
//! check.

use shortbot::{CNMVError, CNMVProvider, Ibex35Market, IbexCompany, ShortResponse};

// Fixture: a company that belongs to the Ibex35 and is Spanish (has a NIF).
fn spanish_company() -> IbexCompany {
    IbexCompany::new(
        Some("Banco Santander"),
        "SANTANDER",
        "SAN",
        "ES0113900J37",
        Some("A39000013"),
    )
}

// Fixture: a company in the Ibex35 but registered abroad (no NIF).
fn foreign_company() -> IbexCompany {
    IbexCompany::new(
        Some("Ferrovial S.E."),
        "FERROVIAL",
        "FER",
        "NL0015001FS8",
        None,
    )
}

fn ibex35_companies() -> Vec<IbexCompany> {
    vec![
        IbexCompany::new(
            Some("AENA S.A."),
            "AENA",
            "AENA",
            "ES0105046009",
            Some("A86212420"),
        ),
        IbexCompany::new(
            Some("Amadeus IT Holding S.A."),
            "AMADEUS",
            "AMS",
            "ES0109067019",
            Some("A-84236934"),
        ),
        IbexCompany::new(
            Some("Cellnex Telecom S.A."),
            "CELLNEX",
            "CLNX",
            "ES0105066007",
            Some("A64907306"),
        ),
    ]
}

#[test]
fn build_ibex_company_1() {
    let spanish_company = spanish_company();
    assert_eq!("Banco Santander", spanish_company.full_name().unwrap());
    assert_eq!("SANTANDER", spanish_company.name());
    assert_eq!("ES0113900J37", spanish_company.isin());
    assert_eq!("A39000013", spanish_company.extra_id().unwrap());
}

#[test]
fn build_ibex_company_2() {
    let foreign_company = foreign_company();
    assert_eq!(None, foreign_company.extra_id());
}

#[test]
fn company_from_partial_fields() {
    let c = IbexCompany::from_partial(
        None,
        Some("CELLNEX".to_owned()),
        Some("CLNX".to_owned()),
        Some("ES0105066007".to_owned()),
        None,
    )
    .expect("Failed to build from fields");
    assert_eq!(c.ticker(), "CLNX");
    assert!(c.full_name().is_none());

    // a missing required field is rejected
    assert!(IbexCompany::from_partial(
        None,
        Some("CELLNEX".to_owned()),
        None,
        Some("ES0105066007".to_owned()),
        None,
    )
    .is_err());
}

#[test]
fn new() {
    let market = Ibex35Market::new(ibex35_companies());
    assert_eq!(market.get_companies().len(), 3);
}

#[test]
fn interface() {
    let market = Ibex35Market::new(ibex35_companies());

    // The same amount of companies comes from both enumerations.
    assert_eq!(market.get_companies().len(), market.list_tickers().len());
    // Company search, case-insensitively and by fragment.
    assert!(market.stock_by_name("CELLNEX").is_some());
    assert!(market.stock_by_name("cell").is_some());
    assert!(market.stock_by_name("Grifols").is_none());
    // Companies by ticker: exhaustive match only.
    assert!(market.stock_by_ticker("SAN").is_none());
    assert!(market.stock_by_ticker("AENA").is_some());
    assert!(market.stock_by_ticker("CLNX").is_some());
    assert!(market.stock_by_ticker("CLN").is_none());
}

#[test]
fn market_fixed_data() {
    let market = Ibex35Market::new(ibex35_companies());
    assert_eq!(market.market_name(), "BME Ibex35 Index");
    assert_eq!(market.open_time(), "08:00:00");
    assert_eq!(market.close_time(), "16:30:00");
    assert_eq!(market.currency(), "euro");
}

#[test]
fn short_response_check() {
    // a page with data is accepted as it stands
    let page = "<html>posiciones: 1,23%</html>".to_owned();
    let r = ShortResponse::parse(page.clone()).expect("valid page rejected");
    assert_eq!(r.as_text(), page);

    // "no data" with the historical series is still a known company
    let page = "No se han encontrado datos disponibles ... Serie histórica".to_owned();
    assert!(ShortResponse::parse(page).is_ok());

    // "no data" without the series marks an unknown company
    let page = "No se han encontrado datos disponibles".to_owned();
    assert!(matches!(
        ShortResponse::parse(page),
        Err(CNMVError::UnknownCompany)
    ));
}

#[test]
fn provider_endpoints() {
    let p = CNMVProvider::new();
    assert_eq!(p.base_url(), "https://www.cnmv.es");
    assert_eq!(
        p.short_extension(),
        "Portal/Consultas/EE/PosicionesCortas.aspx?nif="
    );
}
