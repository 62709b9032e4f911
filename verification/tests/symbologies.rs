use barcoders::error::{Error, Result};
use barcoders::sym::code11::Code11;
use barcoders::sym::code39::Code39;
use barcoders::sym::code93::Code93;
use barcoders::sym::ean13::{Bookland, EAN13};
use barcoders::sym::ean8::EAN8;
use barcoders::sym::ean_supp::EANSUPP;
use barcoders::sym::tf::TF;
use barcoders::sym::upca::UPCA;

fn collapse_vec(v: Vec<u8>) -> String {
    v.iter()
        .filter_map(|digit| char::from_digit(u32::from(*digit), 10))
        .collect()
}

#[test]
fn invalid_length_code11() -> Result<()> {
    let code11 = Code11::new("");

    assert!(matches!(code11, Err(Error::Length { .. })));
    Ok(())
}

#[test]
fn invalid_data_code11() -> Result<()> {
    let code11 = Code11::new("NOTDIGITS");

    assert!(matches!(code11, Err(Error::Character { .. })));
    Ok(())
}

#[test]
fn code11_encode_less_than_10_chars() -> Result<()> {
    let code111 = Code11::new("123-45")?;
    let code112 = Code11::new("666")?;
    let code113 = Code11::new("12-9")?;

    assert_eq!(
        collapse_vec(code111.encode()),
        "1011001011010110100101101100101010110101011011011011010110110101011001"
    );
    assert_eq!(
        collapse_vec(code112.encode()),
        "10110010100110101001101010011010110010101011001"
    );
    assert_eq!(
        collapse_vec(code113.encode()),
        "10110010110101101001011010110101101010100110101011001"
    );
    Ok(())
}

#[test]
fn code11_encode_more_than_10_chars() -> Result<()> {
    let code111 = Code11::new("1234-5678-4321")?;

    assert_eq!(
        collapse_vec(code111.encode()),
        "101100101101011010010110110010101011011010110101101101010011010101001101101001010110101011011011001010100101101101011011011010100110101011001"
    );
    Ok(())
}

#[test]
fn new_code39() -> Result<()> {
    let code39 = Code39::new("12345");

    assert!(code39.is_ok());
    Ok(())
}

#[test]
fn invalid_data_code39() -> Result<()> {
    let code39 = Code39::new("1212s");

    assert!(matches!(code39, Err(Error::Character { .. })));
    Ok(())
}

#[test]
fn invalid_len_code39() -> Result<()> {
    let code39 = Code39::new("");

    assert!(matches!(code39, Err(Error::Length { .. })));
    Ok(())
}

#[test]
fn code39_encode() -> Result<()> {
    let code391 = Code39::new("1234")?;
    let code392 = Code39::new("983RD512")?;
    let code393 = Code39::new("TEST8052")?;

    assert_eq!(
        collapse_vec(code391.encode()),
        "10010110110101101001010110101100101011011011001010101010011010110100101101101"
    );
    assert_eq!(
        collapse_vec(code392.encode()),
        "100101101101010110010110101101001011010110110010101011010101100101010110010110110100110101011010010101101011001010110100101101101"
    );
    assert_eq!(
        collapse_vec(code393.encode()),
        "100101101101010101101100101101011001010101101011001010101101100101101001011010101001101101011010011010101011001010110100101101101"
    );
    Ok(())
}

#[test]
fn code39_encode_with_checksum() -> Result<()> {
    let code391 = Code39::with_checksum("1234")?;
    let code392 = Code39::with_checksum("983RD512")?;

    assert_eq!(
        collapse_vec(code391.encode()),
        "100101101101011010010101101011001010110110110010101010100110101101101010010110100101101101"
    );
    assert_eq!(
        collapse_vec(code392.encode()),
        "1001011011010101100101101011010010110101101100101010110101011001010101100101101101001101010110100101011010110010101101011011010010100101101101"
    );
    Ok(())
}

#[test]
fn invalid_length_code93() -> Result<()> {
    let code93 = Code93::new("");

    assert!(matches!(code93, Err(Error::Length { .. })));
    Ok(())
}

#[test]
fn invalid_data_code93() -> Result<()> {
    let code93 = Code93::new("lowerCASE");

    assert!(matches!(code93, Err(Error::Character { .. })));
    Ok(())
}

#[test]
fn code93_encode() -> Result<()> {
    // Tests for data longer than 15, data longer than 20
    let code931 = Code93::new("TEST93")?;
    let code932 = Code93::new("FLAM")?;
    let code933 = Code93::new("99")?;
    let code934 = Code93::new("1111111111111111111111")?;

    assert_eq!(
        collapse_vec(code931.encode()),
        "1010111101101001101100100101101011001101001101000010101010000101011101101001000101010111101"
    );
    assert_eq!(
        collapse_vec(code932.encode()),
        "1010111101100010101010110001101010001010011001001011001010011001010111101"
    );
    assert_eq!(
        collapse_vec(code933.encode()),
        "1010111101000010101000010101101100101000101101010111101"
    );
    assert_eq!(
        collapse_vec(code934.encode()),
        "1010111101010010001010010001010010001010010001010010001010010001010010001010010001010010001010010001010010001010010001010010001010010001010010001010010001010010001010010001010010001010010001010010001010010001000101101110010101010111101"
    );
    Ok(())
}

#[test]
fn new_ean13() -> Result<()> {
    let ean13 = EAN13::new("123456123456");

    assert!(ean13.is_ok());
    Ok(())
}

#[test]
fn new_bookland() -> Result<()> {
    let bookland = Bookland::new("978456123456");

    assert!(bookland.is_ok());
    Ok(())
}

#[test]
fn invalid_data_ean13() -> Result<()> {
    let ean13 = EAN13::new("1234er123412");

    assert!(matches!(ean13, Err(Error::Character { .. })));
    Ok(())
}

#[test]
fn invalid_len_ean13() -> Result<()> {
    let ean13 = EAN13::new("1111112222222333333");

    assert!(matches!(ean13, Err(Error::Length { .. })));
    Ok(())
}

#[test]
fn invalid_checksum_ean13() -> Result<()> {
    let ean13 = EAN13::new("8801051294881");

    assert!(matches!(ean13, Err(Error::Checksum { .. })));
    Ok(())
}

#[test]
fn ean13_encode_as_bookland() -> Result<()> {
    let bookland1 = Bookland::new("978345612345")?; // Sağlama basamağı: 5
    let bookland2 = Bookland::new("978118999561")?; // Sağlama basamağı: 5

    assert_eq!(
        collapse_vec(bookland1.encode()),
        "10101110110001001010000101000110111001010111101010110011011011001000010101110010011101001110101"
    );
    assert_eq!(
        collapse_vec(bookland2.encode()),
        "10101110110001001011001100110010001001000101101010111010011101001001110101000011001101001110101"
    );
    Ok(())
}

#[test]
fn ean13_encode() -> Result<()> {
    let ean131 = EAN13::new("750103131130")?; // Sağlama basamağı: 5
    let ean132 = EAN13::new("983465123499")?; // Sağlama basamağı: 5

    assert_eq!(
        collapse_vec(ean131.encode()),
        "10101100010100111001100101001110111101011001101010100001011001101100110100001011100101110100101"
    );
    assert_eq!(
        collapse_vec(ean132.encode()),
        "10101101110100001001110101011110111001001100101010110110010000101011100111010011101001000010101"
    );
    Ok(())
}

#[test]
fn new_ean8() -> Result<()> {
    let ean8 = EAN8::new("1234567");

    assert!(ean8.is_ok());
    Ok(())
}

#[test]
fn invalid_data_ean8() -> Result<()> {
    let ean8 = EAN8::new("1234er1");

    assert!(matches!(ean8, Err(Error::Character { .. })));
    Ok(())
}

#[test]
fn invalid_len_ean8() -> Result<()> {
    let ean8 = EAN8::new("1111112222222333333");

    assert!(matches!(ean8, Err(Error::Length { .. })));
    Ok(())
}

#[test]
fn invalid_checksum_ean8() -> Result<()> {
    let ean8 = EAN8::new("88023020");

    assert!(matches!(ean8, Err(Error::Checksum { .. })));
    Ok(())
}

#[test]
fn ean8_encode() -> Result<()> {
    let ean81 = EAN8::new("5512345")?; // Check digit: 7
    let ean82 = EAN8::new("9834651")?; // Check digit: 3

    assert_eq!(
        collapse_vec(ean81.encode()),
        "1010110001011000100110010010011010101000010101110010011101000100101"
    );
    assert_eq!(
        collapse_vec(ean82.encode()),
        "1010001011011011101111010100011010101010000100111011001101010000101"
    );
    Ok(())
}

#[test]
fn new_ean2() -> Result<()> {
    let ean2 = EANSUPP::new("12");

    assert!(ean2.is_ok());
    Ok(())
}

#[test]
fn new_ean5() -> Result<()> {
    let ean5 = EANSUPP::new("12345");

    assert!(ean5.is_ok());
    Ok(())
}

#[test]
fn invalid_data_ean2() -> Result<()> {
    let ean2 = EANSUPP::new("AT");

    assert!(matches!(ean2, Err(Error::Character { .. })));
    Ok(())
}

#[test]
fn invalid_len_ean2() -> Result<()> {
    let ean2 = EANSUPP::new("123");

    assert!(matches!(ean2, Err(Error::Length { .. })));
    Ok(())
}

#[test]
fn ean2_encode() -> Result<()> {
    let ean21 = EANSUPP::new("34")?;

    assert_eq!(collapse_vec(ean21.encode()), "10110100001010100011");
    Ok(())
}

#[test]
fn ean5_encode() -> Result<()> {
    let ean51 = EANSUPP::new("51234")?;

    assert_eq!(
        collapse_vec(ean51.encode()),
        "10110110001010011001010011011010111101010011101"
    );
    Ok(())
}

#[test]
fn new_itf() -> Result<()> {
    let itf = TF::interleaved("12345679");

    assert!(itf.is_ok());
    Ok(())
}

#[test]
fn new_stf() -> Result<()> {
    let stf = TF::standard("12345");

    assert!(stf.is_ok());
    Ok(())
}

#[test]
fn invalid_data_itf() -> Result<()> {
    let itf = TF::interleaved("1234er123412");

    assert!(matches!(itf, Err(Error::Character { .. })));
    Ok(())
}

#[test]
fn invalid_data_stf() -> Result<()> {
    let stf = TF::standard("WORDUP");

    assert!(matches!(stf, Err(Error::Character { .. })));
    Ok(())
}

#[test]
fn itf_raw_data() -> Result<()> {
    let itf = TF::interleaved("12345679")?;

    assert_eq!(itf.raw_data(), &[1, 2, 3, 4, 5, 6, 7, 9]);
    Ok(())
}

// The stop pattern is `11101`: the wide bar keeps the 3:1 ratio of the data characters.
#[test]
fn itf_encode() -> Result<()> {
    let itf = TF::interleaved("1234567")?; // Sağlama basamağı: 0

    assert_eq!(
        collapse_vec(itf.encode()),
        "101011101000101011100011101110100010100011101000111000101010101000111000111011101"
            .to_string()
    );
    Ok(())
}

#[test]
fn stf_encode() -> Result<()> {
    let stf = TF::standard("1234567")?;

    assert_eq!(
        collapse_vec(stf.encode()),
        "1110111010111010101011101011101010111011101110101010101011101011101110101110101010111011101010101010111011101110101110"
            .to_string()
    );
    Ok(())
}

#[test]
fn new_upca() -> Result<()> {
    let upca = UPCA::new("72527273070");

    assert!(upca.is_ok());
    Ok(())
}

#[test]
fn invalid_data_upca() -> Result<()> {
    let upca = UPCA::new("012345612a45");

    assert!(matches!(upca, Err(Error::Character { .. })));
    Ok(())
}

#[test]
fn invalid_len_upca() -> Result<()> {
    let upca = UPCA::new("1234561234589");

    assert!(matches!(upca, Err(Error::Length { .. })));
    Ok(())
}

#[test]
fn invalid_checksum_upca() -> Result<()> {
    let upca = UPCA::new("725272730705");

    assert!(matches!(upca, Err(Error::Checksum { .. })));
    Ok(())
}

#[test]
fn valid_checksum_upca() -> Result<()> {
    let upca = UPCA::new("725272730706");

    assert!(upca.is_ok());
    Ok(())
}

#[test]
fn upce_encode() -> Result<()> {
    let upca1 = UPCA::new("72527273070")?;
    let upca2 = UPCA::new("738312014094")?;
    let upca3 = UPCA::new("095421076611")?;

    assert_eq!(
        collapse_vec(upca1.encode()),
        "10101110110010011011000100100110111011001001101010100010010000101110010100010011100101010000101"
    );
    assert_eq!(
        collapse_vec(upca2.encode()),
        "10101110110111101011011101111010011001001001101010111001011001101011100111001011101001011100101"
    );
    assert_eq!(
        collapse_vec(upca3.encode()),
        "10100011010001011011000101000110010011001100101010111001010001001010000101000011001101100110101"
    );
    Ok(())
}
