use barcoders::encoding::{Barcode, EncodedBarcode};
use barcoders::error::{Error, Result};
use barcoders::fuzzing::RenderOptions;
use barcoders::generators::gpui::GPUI;
use barcoders::generators::image::{Image, Rotation};
use barcoders::generators::json::JSON;
use barcoders::generators::svg::SVG;
use barcoders::sym::code128::Code128;
use barcoders::sym::helpers::{decimal_chars, invariant_or, join_iters, join_slices, parse_digits};
use barcoders::sym::tf::TF;

#[test]
fn every_error_has_a_message() {
    assert_eq!(
        Error::character(Some('x'), None).message(),
        "Barkod verisindeki 'x' karakteri desteklenmiyor"
    );
    assert_eq!(
        Error::character(None, None).message(),
        "Barkod verisi desteklenmeyen bir karakter içeriyor"
    );
    assert_eq!(
        Error::length(12, Some(12), 120).message(),
        "Barkod verisi 12 karakter olmalı; 120 karakter bulundu"
    );
    assert_eq!(
        Error::length(1, None, 0).message(),
        "Barkod verisi en az 1 karakter olmalı; 0 karakter bulundu"
    );
    assert_eq!(
        Error::length_set(&[2, 5, 8], 3).message(),
        "Barkod verisi 2, 5 veya 8 karakter olmalı; 3 karakter bulundu"
    );
    assert_eq!(
        Error::Checksum { expected: 5, found: 4 }.message(),
        "Barkod sağlama basamağı geçersiz: 5 beklenirken 4 bulundu"
    );
    assert_eq!(
        Error::InvalidEncoding { index: 10, value: 255 }.message(),
        "Barkod gösteriminin 10. konumunda 0 veya 1 yerine 255 bulundu"
    );
    assert_eq!(
        Error::dimension("çok büyük").message(),
        "Barkod boyutları geçersiz: çok büyük"
    );
    assert_eq!(
        Error::generate("PNG", "kodlanamadı").message(),
        "Barkod çıktısı PNG hedefinde oluşturulamadı: kodlanamadı"
    );
    assert_eq!(
        Error::ResourceLimit { resource: "çıktı baytı", requested: 67108865, maximum: 67108864 }
            .message(),
        "Barkod üretimi çıktı baytı sınırını aşıyor: 67108865 istendi, en fazla 67108864 kullanılabilir"
    );
}

#[test]
fn code128_errors_name_the_character() {
    assert!(matches!(
        Code128::new("HELLO"),
        Err(Error::Character { character: None, index: None })
    ));
    assert!(matches!(
        Code128::new("ÀHELLOĆ12352"),
        Err(Error::Character { character: Some('2'), index: None })
    ));
    assert!(matches!(
        Code128::new("ÀAŽ"),
        Err(Error::Character { character: Some('Ž'), index: None })
    ));
    assert!(matches!(
        Code128::new("ĆŽ12"),
        Err(Error::Character { character: Some('Ž'), index: Some(1) })
    ));
    assert!(matches!(
        Code128::new("ÀÀA"),
        Err(Error::Character { character: Some('À'), index: None })
    ));
    assert!(matches!(
        Code128::new("À"),
        Err(Error::Length { min: 2, max: Some(256), found: 1 })
    ));
}

#[test]
fn helpers_join_and_parse() {
    assert_eq!(join_slices(&[&[1, 0], &[], &[1]]), vec![1, 0, 1]);
    assert_eq!(join_iters(&[vec![1, 1], vec![0]]), vec![1, 1, 0]);
    assert_eq!(invariant_or(Some(3), 0, "mevcut"), 3);
    assert_eq!(decimal_chars(), vec!['0', '1', '2', '3', '4', '5', '6', '7', '8', '9']);
    assert_eq!(parse_digits("0429").ok(), Some(vec![0, 4, 2, 9]));
    assert!(matches!(
        parse_digits("12a"),
        Err(Error::Character { character: Some('a'), index: Some(2) })
    ));
}

#[test]
fn itf_appends_a_check_digit_to_odd_lengths() -> Result<()> {
    let odd = TF::interleaved("1234567")?;
    let even = TF::interleaved("12345670")?;

    assert_eq!(odd.raw_data(), &[1, 2, 3, 4, 5, 6, 7, 0]);
    assert_eq!(odd.encode(), even.encode());
    Ok(())
}

#[test]
fn render_options_decode_the_first_bytes() {
    let options = RenderOptions::from_bytes(&[40, 20, 7, 1, 2, 3, 4, 5, 6, 7]);

    assert_eq!(options.height, 7);
    assert_eq!(options.xdim, 2);
    assert!(matches!(options.rotation, Rotation::TwoSeventy));
    assert_eq!(options.foreground, [1, 2, 3, 4]);
    assert_eq!(options.background, [5, 6, 7, 0]);

    let empty = RenderOptions::from_bytes(&[]);
    assert_eq!(empty.height, 0);
    assert!(matches!(empty.rotation, Rotation::Zero));
}

#[test]
fn gpui_layout_groups_bars() -> Result<()> {
    let layout = GPUI::new(80)?.generate(&[1, 1, 0, 1])?;

    assert_eq!(layout.height, 80);
    assert_eq!(layout.quiet_zone, 12);
    assert_eq!(layout.total_modules, 28);
    assert_eq!(layout.bars.len(), 2);
    assert_eq!((layout.bars[0].offset, layout.bars[0].len), (0, 2));
    assert_eq!((layout.bars[1].offset, layout.bars[1].len), (3, 1));

    let narrow = GPUI::new(80)?.quiet_zone(0).generate(&[0])?;
    assert_eq!(narrow.total_modules, 1);
    assert!(narrow.bars.is_empty());
    Ok(())
}

#[test]
fn encoded_barcode_accessors() -> Result<()> {
    let encoded = EncodedBarcode::new(&[1, 0, 1])?;
    assert_eq!(encoded.len(), 3);
    assert!(!encoded.is_empty());
    assert_eq!(encoded.modules(), &[1, 0, 1]);

    let other = EncodedBarcode::new(&[1, 0, 1])?;
    assert_eq!(encoded, other);
    assert!(!encoded.shares_modules(&other));

    let code = Code128::new("ƁHE1234A*1")?;
    assert_eq!(code.encoded().modules(), code.encode().as_slice());
    Ok(())
}

#[test]
fn json_and_svg_report_invalid_input() {
    assert!(matches!(
        JSON::new().generate(&[]),
        Err(Error::Length { min: 1, max: None, found: 0 })
    ));
    assert!(matches!(
        SVG::new(0).generate(&[1], "1", "1"),
        Err(Error::Dimension { .. })
    ));
    assert!(matches!(
        Image::png(10).generate(&[1, 2]),
        Err(Error::InvalidEncoding { index: 1, value: 2 })
    ));
    assert!(matches!(
        Image::image_buffer(10).generate(&[1]),
        Err(Error::Generate { .. })
    ));
}

#[test]
fn svg_writes_opacity_only_for_translucent_colors() -> Result<()> {
    let opaque = SVG::new(5).generate(&[1], "0.5", "0.25")?;
    assert!(!opaque.contains("fill-opacity"));
    assert_eq!(
        opaque,
        "<svg version=\"1.1\" xmlns=\"http://www.w3.org/2000/svg\" viewBox=\"0 0 1 5\"><rect x=\"0\" y=\"0\" width=\"1\" height=\"5\" fill=\"#ffffff\"/><rect x=\"0\" y=\"0\" width=\"1\" height=\"5\" fill=\"#000000\"/></svg>"
    );
    Ok(())
}

#[test]
fn encoded_barcode_converts_from_buffers() {
    let from_vec = EncodedBarcode::try_from(vec![1u8, 0, 1]);
    assert!(matches!(&from_vec, Ok(e) if e.modules() == [1, 0, 1]));

    let modules: &[u8] = &[1, 2];
    assert!(matches!(
        EncodedBarcode::try_from(modules),
        Err(Error::InvalidEncoding { index: 1, value: 2 })
    ));
    let as_ref: &[u8] = from_vec.as_ref().map(|e| e.as_ref()).unwrap_or(&[]);
    assert_eq!(as_ref, &[1, 0, 1]);
}
