use ypbank_system::Format;

#[test]
fn test_format_from_str() {
    assert_eq!("mt940".parse::<Format>().unwrap(), Format::Mt940);
    assert_eq!("MT940".parse::<Format>().unwrap(), Format::Mt940);
    assert_eq!("camt053".parse::<Format>().unwrap(), Format::Camt053);
    assert_eq!("csv".parse::<Format>().unwrap(), Format::Csv);
    assert!("unknown".parse::<Format>().is_err());
}

#[test]
fn test_format_extension() {
    assert_eq!(Format::Mt940.extension(), "mt940");
    assert_eq!(Format::Camt053.extension(), "xml");
    assert_eq!(Format::Csv.extension(), "csv");
}

#[test]
fn format_aliases_ignore_case() {
    for name in ["mt-940", "SWIFT", "Camt.053", "CAMT", "xml"] {
        assert!(Format::from_str(name).is_ok(), "{}", name);
    }
    assert_eq!(Format::from_str("Swift").unwrap(), Format::Mt940);
    assert_eq!(Format::from_str("XML").unwrap(), Format::Camt053);
    assert_eq!(Format::from_str("CSV").unwrap(), Format::Csv);
}

#[test]
fn unknown_format_reports_the_name() {
    match Format::from_str("Json") {
        Err(ypbank_system::Error::InvalidFormat(t)) => assert_eq!(t, "Json"),
        other => panic!("unexpected {:?}", other),
    }
}
