use barcoders::encoding::{EncodedBarcode, ModuleRun};
use barcoders::error::{Error, Result};
use barcoders::generators::ascii::ASCII;
use barcoders::generators::image::{Color, Image, Rotation};
use barcoders::sym::code128::Code128;
use barcoders::sym::code39::Code39;
use barcoders::sym::ean13::EAN13;
use barcoders::sym::ean_supp::EANSUPP;
use barcoders::sym::ean8::EAN8;
use barcoders::sym::helpers::modulo_10_checksum;
use barcoders::sym::upca::UPCA;

#[test]
fn check_digit_completes_the_weighted_sum() {
    let digits = [7u8, 5, 0, 1, 0, 3, 1, 3, 1, 1, 3, 0];
    let check = modulo_10_checksum(&digits, true);
    let odds: u32 = digits.iter().skip(1).step_by(2).map(|d| u32::from(*d)).sum();
    let evens: u32 = digits.iter().step_by(2).map(|d| u32::from(*d)).sum();

    assert_eq!(check, 9);
    assert_eq!((3 * odds + evens + u32::from(check)) % 10, 0);
}

#[test]
fn ean13_check_digit_may_be_given_or_omitted() -> Result<()> {
    let without = EAN13::new("750103131130")?;
    let with = EAN13::new("7501031311309")?;

    assert_eq!(without.encode(), with.encode());
    assert!(matches!(
        EAN13::new("7501031311304"),
        Err(Error::Checksum { expected: 9, found: 4 })
    ));
    Ok(())
}

#[test]
fn ean8_check_digit_may_be_given_or_omitted() -> Result<()> {
    let without = EAN8::new("5512345")?;
    let with = EAN8::new("55123457")?;

    assert_eq!(without.encode(), with.encode());
    Ok(())
}

#[test]
fn upca_check_digit_may_be_given_or_omitted() -> Result<()> {
    let without = UPCA::new("72527273070")?;
    let with = UPCA::new("725272730706")?;

    assert_eq!(without.encode(), with.encode());
    Ok(())
}

#[test]
fn runs_spell_the_modules_back() -> Result<()> {
    let modules = [0u8, 1, 1, 1, 0, 0, 1, 0, 1, 1];
    let encoded = EncodedBarcode::new(&modules)?;
    let mut walker = encoded.runs();
    let mut runs: Vec<ModuleRun> = Vec::new();
    while let Some(run) = walker.next() {
        runs.push(run);
    }
    assert!(walker.next().is_none());

    let mut expanded = Vec::new();
    let mut offset = 0;
    for (k, run) in runs.iter().enumerate() {
        assert!(!run.is_empty());
        assert_eq!(run.offset(), offset);
        if k > 0 {
            assert_ne!(runs[k - 1].module(), run.module());
        }
        expanded.extend(std::iter::repeat(run.module()).take(run.len()));
        offset += run.len();
    }
    assert_eq!(expanded, modules);
    assert_eq!(runs.len(), 6);
    Ok(())
}

#[test]
fn shift_applies_to_one_character_only() -> Result<()> {
    // After the SHIFT, `e` is read in set B and `A` again in set A.
    let shifted = Code128::new("ÀŽeA")?;
    let plain = Code128::new("ÀA")?;
    let shifted_modules = shifted.encode();
    let plain_modules = plain.encode();

    assert_eq!(&shifted_modules[..11], &plain_modules[..11]);
    assert_eq!(shifted_modules.len(), plain_modules.len() + 22);
    assert!(matches!(
        Code128::new("ÀŽÀA"),
        Err(Error::Character {
            character: Some('À'),
            index: Some(2)
        })
    ));
    assert!(matches!(
        Code128::new("ÀŽŽA"),
        Err(Error::Character {
            character: Some('Ž'),
            index: Some(2)
        })
    ));
    Ok(())
}

#[test]
fn ascii_output_has_height_lines_of_the_row() -> Result<()> {
    let text = ASCII { height: 3, xdim: 2 }.generate(&[1, 0, 1])?;

    assert_eq!(text, "##  ##\n##  ##\n##  ##");
    assert_eq!(text.len(), 3 * 3 * 2 + 3 - 1);
    Ok(())
}

#[test]
fn image_rotations_move_pixels_clockwise() -> Result<()> {
    let fg = [1u8, 2, 3, 4];
    let bg = [9u8, 8, 7, 6];
    let image = |rotation| Image::ImageBuffer {
        height: 2,
        xdim: 1,
        rotation,
        foreground: Color::new(fg),
        background: Color::new(bg),
    };

    let zero = image(Rotation::Zero).generate_buffer(&[1, 0])?;
    assert_eq!(zero.dimensions(), (2, 2));
    assert_eq!(zero.as_raw().as_slice(), [fg, bg, fg, bg].concat().as_slice());

    let ninety = image(Rotation::Ninety).generate_buffer(&[1, 0])?;
    assert_eq!(ninety.dimensions(), (2, 2));
    assert_eq!(ninety.as_raw().as_slice(), [fg, fg, bg, bg].concat().as_slice());

    let half = image(Rotation::OneEighty).generate_buffer(&[1, 0])?;
    assert_eq!(half.dimensions(), (2, 2));
    assert_eq!(half.as_raw().as_slice(), [bg, fg, bg, fg].concat().as_slice());

    let two_seventy = image(Rotation::TwoSeventy).generate_buffer(&[1, 0])?;
    assert_eq!(two_seventy.dimensions(), (2, 2));
    assert_eq!(two_seventy.as_raw().as_slice(), [bg, bg, fg, fg].concat().as_slice());

    let tall = image(Rotation::Ninety).generate_buffer(&[1, 0, 0])?;
    assert_eq!(tall.dimensions(), (2, 3));
    Ok(())
}

#[test]
fn image_output_is_limited_before_drawing() {
    let tall = Image::ImageBuffer {
        height: 8_388_609,
        xdim: 1,
        rotation: Rotation::Zero,
        foreground: Color::black(),
        background: Color::white(),
    };
    assert!(matches!(
        tall.generate_buffer(&[1, 0]),
        Err(Error::ResourceLimit {
            resource: "çıktı baytı",
            requested: 67_108_872,
            maximum: 67_108_864
        })
    ));

    let fits = Image::ImageBuffer {
        height: 8_388_608,
        xdim: 1,
        rotation: Rotation::Zero,
        foreground: Color::black(),
        background: Color::white(),
    };
    assert!(fits.generate_buffer(&[1]).is_ok());
}

#[test]
fn collected_runs_cover_the_encoding() -> Result<()> {
    let encoded = EncodedBarcode::new(&[1, 0, 0, 1, 1, 1, 0])?;
    let runs = encoded.runs().collect_runs();

    assert!(!runs.is_empty());
    assert_eq!(runs[0].offset(), 0);
    let mut expanded = Vec::new();
    for (k, run) in runs.iter().enumerate() {
        assert!(run.len() >= 1);
        assert_eq!(run.is_bar(), run.module() == 1);
        if k > 0 {
            assert_ne!(runs[k - 1].module(), run.module());
            assert_eq!(run.offset(), runs[k - 1].offset() + runs[k - 1].len());
        }
        for j in run.offset()..run.offset() + run.len() {
            assert_eq!(encoded.modules()[j], run.module());
        }
        expanded.extend(std::iter::repeat(run.module()).take(run.len()));
    }
    let last = runs[runs.len() - 1];
    assert_eq!(last.offset() + last.len(), encoded.len());
    assert_eq!(expanded.as_slice(), encoded.modules());
    Ok(())
}

#[test]
fn code39_check_character_goes_before_the_closing_guard() -> Result<()> {
    let plain = Code39::new("1234")?.encode();
    let checked = Code39::with_checksum("1234")?.encode();
    let check = Code39::new("A")?.encode();
    let k = plain.len() - 12;

    assert_eq!(checked.len(), plain.len() + 13);
    assert_eq!(&checked[..k], &plain[..k]);
    assert_eq!(&checked[k..k + 12], &check[13..25]);
    assert_eq!(checked[k + 12], 0);
    assert_eq!(&checked[k + 13..], &plain[k..]);
    Ok(())
}

#[test]
fn ean13_refuses_every_wrong_check_digit() -> Result<()> {
    assert!(EAN13::new("750103131130").is_ok());
    for x in 0u8..10 {
        let text = format!("750103131130{x}");
        if x == 9 {
            assert_eq!(EAN13::new(&text)?.encode(), EAN13::new("750103131130")?.encode());
        } else {
            assert!(matches!(
                EAN13::new(&text),
                Err(Error::Checksum { expected: 9, found }) if found == x
            ));
        }
    }
    Ok(())
}

#[test]
fn ean_supp_variant_follows_length() {
    assert!(matches!(EANSUPP::new("12"), Ok(EANSUPP::EAN2(_))));
    assert!(matches!(EANSUPP::new("12345"), Ok(EANSUPP::EAN5(_))));
}

#[test]
fn code39_constructors_set_checksum_field() -> Result<()> {
    assert!(!Code39::new("ABC")?.checksum);
    assert!(Code39::with_checksum("ABC")?.checksum);
    Ok(())
}
