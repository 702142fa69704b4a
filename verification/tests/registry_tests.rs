use http::{StatusCode, StatusCodeClass};

#[test]
fn registry_roundtrip_over_whole_range() {
    for n in 100u16..=599u16 {
        assert_eq!(n, StatusCode::from_code(n).to_code());
    }
}

#[test]
fn registry_class_follows_leading_digit() {
    for n in 100u16..=599u16 {
        let expect = match n / 100 {
            1 => StatusCodeClass::Informational,
            2 => StatusCodeClass::Successful,
            3 => StatusCodeClass::Redirection,
            4 => StatusCodeClass::ClientError,
            _ => StatusCodeClass::ServerError,
        };
        assert_eq!(Some(expect), StatusCode::from_code(n).class_of());
    }
}

#[test]
fn codes_outside_range_have_no_class() {
    assert_eq!(None, StatusCode::from_code(99).class_of());
    assert_eq!(None, StatusCode::from_code(600).class_of());
    assert_eq!(None, StatusCode::from_code(999).class_of());
    assert_eq!(None, StatusCode::Extension(42, String::new()).class_of());
}

#[test]
fn named_variants_win_over_extension() {
    assert_eq!(StatusCode::Okay, StatusCode::from_code(200));
    assert_eq!(StatusCode::NoContent, StatusCode::from_code(204));
    assert_eq!(StatusCode::MultipleChoices, StatusCode::from_code(300));
    assert_eq!(StatusCode::NotModified, StatusCode::from_code(304));
    assert_eq!(StatusCode::NotFound, StatusCode::from_code(404));
    assert_eq!(StatusCode::InternalServerError, StatusCode::from_code(500));
}

#[test]
fn unassigned_codes_become_extensions() {
    assert_eq!(StatusCode::Extension(471, String::new()), StatusCode::from_code(471));
    assert_eq!(StatusCode::Extension(299, String::new()), StatusCode::from_code(299));
    assert_eq!(471, StatusCode::Extension(471, String::new()).to_code());
    assert_ne!(StatusCode::from_code(306), StatusCode::from_code(307));
}

#[test]
fn extension_equality_compares_code_and_label() {
    assert_eq!(
        StatusCode::Extension(418, "teapot".to_string()),
        StatusCode::Extension(418, "teapot".to_string())
    );
    assert_ne!(
        StatusCode::Extension(418, "teapot".to_string()),
        StatusCode::Extension(418, String::new())
    );
    assert_ne!(StatusCode::Extension(200, String::new()), StatusCode::Okay);
}
