use daycycle::data::{parse_data, place_in_document, DataError};
use ini::Ini;

#[test]
fn latitude_and_longitude_come_from_the_general_section() {
    let data = parse_data("[General]\nlatitude=52.52\nlongitude=13.405\n").unwrap();
    assert_eq!(data.lat, "52.52");
    assert_eq!(data.lng, "13.405");
}

#[test]
fn values_are_taken_as_written_without_the_blanks_around_them() {
    let text = "; where we are\n[Other]\nlatitude=1\n\n[General]\nname = home\nlongitude =  -0.1276  \nlatitude: 51.5072\n";
    let data = parse_data(text).unwrap();
    assert_eq!(data.lat, "51.5072");
    assert_eq!(data.lng, "-0.1276");
    let data = parse_data("[General]\nlatitude=north\nlongitude=\n").unwrap();
    assert_eq!(data.lat, "north");
    assert_eq!(data.lng, "");
}

#[test]
fn the_first_of_two_values_counts() {
    let data = parse_data("[General]\nlatitude=1\nlatitude=2\nlongitude=3\n").unwrap();
    assert_eq!(data.lat, "1");
    let data = parse_data("[General]\nlatitude=1\nlongitude=3\n[General]\nlatitude=7\nlongitude=9\n").unwrap();
    assert_eq!(data.lat, "1");
    assert_eq!(data.lng, "3");
}

#[test]
fn missing_general_section_is_reported() {
    assert_eq!(parse_data("").unwrap_err(), DataError::NoGeneralSection);
    assert_eq!(
        parse_data("latitude=1\nlongitude=2\n").unwrap_err(),
        DataError::NoGeneralSection
    );
    assert_eq!(
        parse_data("[general]\nlatitude=1\nlongitude=2\n").unwrap_err(),
        DataError::NoGeneralSection
    );
    assert_eq!(
        parse_data("[Place]\nlatitude=1\nlongitude=2\n").unwrap_err(),
        DataError::NoGeneralSection
    );
}

#[test]
fn missing_latitude_is_reported_before_missing_longitude() {
    assert_eq!(parse_data("[General]\n").unwrap_err(), DataError::NoLatitude);
    assert_eq!(parse_data("[General]\nlongitude=2\n").unwrap_err(), DataError::NoLatitude);
    assert_eq!(
        parse_data("[General]\nLatitude=1\nlongitude=2\n").unwrap_err(),
        DataError::NoLatitude
    );
    assert_eq!(parse_data("[General]\nlatitude=1\n").unwrap_err(), DataError::NoLongitude);
    assert_eq!(
        parse_data("[General]\nlatitude=1\n[Other]\nlongitude=2\n").unwrap_err(),
        DataError::NoLongitude
    );
}

#[test]
fn text_that_is_no_document_is_unreadable() {
    assert_eq!(parse_data("=value\n").unwrap_err(), DataError::Unreadable);
    assert_eq!(parse_data("[General\nlatitude=1\n").unwrap_err(), DataError::Unreadable);
    assert_eq!(parse_data("[General]\nlatitude\n").unwrap_err(), DataError::Unreadable);
}

#[test]
fn a_document_made_by_hand_is_read_alike() {
    let mut document = Ini::new();
    document.with_section(Some("General")).set("latitude", "40.7").set("longitude", "-74.0");
    let data = place_in_document(&document).unwrap();
    assert_eq!(data.lat, "40.7");
    assert_eq!(data.lng, "-74.0");
    let mut document = Ini::new();
    document.with_section(None::<String>).set("latitude", "40.7");
    assert_eq!(place_in_document(&document).unwrap_err(), DataError::NoGeneralSection);
    document.with_section(Some("General")).set("longitude", "-74.0");
    assert_eq!(place_in_document(&document).unwrap_err(), DataError::NoLatitude);
}
