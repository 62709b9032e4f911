use barcoders::error::Error;

#[test]
fn character_error_contains_value_and_position() {
    let error = Error::character(Some('ğ'), Some(3));

    assert_eq!(
        error.message(),
        "Barkod verisindeki 'ğ' karakteri 3. konumda desteklenmiyor"
    );
}

#[test]
fn length_error_contains_expected_range() {
    let error = Error::length(7, Some(8), 4);

    assert_eq!(
        error.message(),
        "Barkod verisi 7 ile 8 karakter arasında olmalı; 4 karakter bulundu"
    );
}

#[test]
fn length_set_error_lists_allowed_lengths() {
    let error = Error::length_set(&[2, 5], 3);

    assert_eq!(
        error.message(),
        "Barkod verisi 2 veya 5 karakter olmalı; 3 karakter bulundu"
    );
}
