use barcoders::error::{Error, Result};
use barcoders::generators::svg::{push_escaped_xml_attribute, Color, SVG, SVG_NAMESPACE};
use barcoders::generators::MAX_OUTPUT_BYTES;
use barcoders::sym::code11::Code11;
use barcoders::sym::code128::Code128;
use barcoders::sym::code39::Code39;
use barcoders::sym::code93::Code93;
use barcoders::sym::ean13::EAN13;
use barcoders::sym::ean8::EAN8;
use barcoders::sym::ean_supp::EANSUPP;
use barcoders::sym::tf::TF;

/// The decimal text of the alpha value of `color` divided by 255.
fn opacity(color: &Color) -> String {
    format!("{}", color.rgba[3] as f64 / 255.0)
}

/// Renders `barcode` with `svg`, handing it the opacity texts of its two colours.
fn render(svg: &SVG, barcode: &[u8]) -> Result<String> {
    svg.generate(barcode, &opacity(&svg.foreground), &opacity(&svg.background))
}



fn assert_svg_structure(svg: &SVG, barcode: &[u8], generated: &str) -> Result<()> {
    let width = u32::try_from(barcode.len())
        .map_err(|_| Error::dimension("test barkodu u32 aralığını aşıyor"))?
        .checked_mul(svg.xdim)
        .ok_or_else(|| Error::dimension("test SVG genişliği u32 aralığını aşıyor"))?;

    assert!(generated.starts_with("<svg version=\"1.1\" "));
    assert!(generated.ends_with("</svg>"));
    assert!(generated.contains(format!("viewBox=\"0 0 {width} {}\"", svg.height).as_str()));
    assert_eq!(
        generated.matches("<rect ").count(),
        barcode.iter().filter(|digit| **digit == 1).count() + 1
    );

    match &svg.xmlns {
        Some(xmlns) => {
            let mut escaped = String::new();
            push_escaped_xml_attribute(&mut escaped, xmlns);
            assert!(generated.contains(format!("xmlns=\"{escaped}\" ").as_str()));
        }
        None => assert!(!generated.contains("xmlns=")),
    }

    Ok(())
}

fn next_opacity<'a, I>(values: &mut I) -> Result<f64>
where
    I: Iterator<Item = &'a str>,
{
    values
        .next()
        .and_then(|value| value.split('"').next())
        .ok_or_else(|| Error::generate("SVG testi", "saydamlık niteliği bulunamadı"))?
        .parse::<f64>()
        .map_err(|_| Error::generate("SVG testi", "saydamlık değeri çözümlenemedi"))
}

#[test]
fn ean_13_as_svg() -> Result<()> {
    let ean13 = EAN13::new("750103131130")?;
    let svg = SVG::new(80);
    let barcode = ean13.encode();
    let generated = render(&svg, &barcode)?;

    assert_svg_structure(&svg, &barcode, &generated)?;
    Ok(())
}

#[test]
fn colored_ean_13_as_svg() -> Result<()> {
    let ean13 = EAN13::new("750103131130")?;
    let svg = SVG {
        height: 80,
        xdim: 1,
        background: Color {
            rgba: [255, 0, 0, 255],
        },
        foreground: Color {
            rgba: [0, 0, 255, 255],
        },
        xmlns: None,
    };
    let barcode = ean13.encode();
    let generated = render(&svg, &barcode)?;

    assert_svg_structure(&svg, &barcode, &generated)?;
    Ok(())
}

#[test]
fn colored_semi_transparent_ean_13_as_svg() -> Result<()> {
    let ean13 = EAN13::new("750103131130")?;
    let svg = SVG {
        height: 70,
        xdim: 1,
        background: Color {
            rgba: [255, 0, 0, 128],
        },
        foreground: Color {
            rgba: [0, 0, 255, 128],
        },
        xmlns: None,
    };
    let barcode = ean13.encode();
    let generated = render(&svg, &barcode)?;

    assert_svg_structure(&svg, &barcode, &generated)?;
    Ok(())
}

#[test]
fn ean_8_as_svg() -> Result<()> {
    let ean8 = EAN8::new("9998823")?;
    let svg = SVG::new(80).xmlns("http://www.w3.org/2000/svg".to_string());
    let barcode = ean8.encode();
    let generated = render(&svg, &barcode)?;

    assert_svg_structure(&svg, &barcode, &generated)?;
    Ok(())
}

#[test]
fn code39_as_svg() -> Result<()> {
    let code39 = Code39::new("IGOT99PROBLEMS")?;
    let svg = SVG::new(80).xmlns("http://www.w3.org/2000/svg".to_string());
    let barcode = code39.encode();
    let generated = render(&svg, &barcode)?;

    assert_svg_structure(&svg, &barcode, &generated)?;
    Ok(())
}

#[test]
fn code93_as_svg() -> Result<()> {
    let code93 = Code93::new("IGOT99PROBLEMS")?;
    let svg = SVG::new(80).xmlns("http://www.w3.org/2000/svg".to_string());
    let barcode = code93.encode();
    let generated = render(&svg, &barcode)?;

    assert_svg_structure(&svg, &barcode, &generated)?;
    Ok(())
}

#[test]
fn code128_as_svg() -> Result<()> {
    let code128 = Code128::new("ÀHIĆ345678")?;
    let svg = SVG::new(80).xmlns("http://www.w3.org/2000/svg".to_string());
    let barcode = code128.encode();
    let generated = render(&svg, &barcode)?;

    assert_svg_structure(&svg, &barcode, &generated)?;
    Ok(())
}

#[test]
fn ean_2_as_svg() -> Result<()> {
    let ean2 = EANSUPP::new("78")?;
    let svg = SVG::new(80).xmlns("http://www.w3.org/2000/svg".to_string());
    let barcode = ean2.encode();
    let generated = render(&svg, &barcode)?;

    assert_svg_structure(&svg, &barcode, &generated)?;
    Ok(())
}

#[test]
fn itf_as_svg() -> Result<()> {
    let itf = TF::interleaved("1234123488993344556677118")?;
    let svg = SVG {
        height: 80,
        xdim: 1,
        background: Color::black(),
        foreground: Color::white(),
        xmlns: None,
    };
    let barcode = itf.encode();
    let generated = render(&svg, &barcode)?;

    assert_svg_structure(&svg, &barcode, &generated)?;
    Ok(())
}

#[test]
fn code11_as_svg() -> Result<()> {
    let code11 = Code11::new("9988-45643201")?;
    let svg = SVG {
        height: 80,
        xdim: 1,
        background: Color::black(),
        foreground: Color::white(),
        xmlns: None,
    };
    let barcode = code11.encode();
    let generated = render(&svg, &barcode)?;

    assert_svg_structure(&svg, &barcode, &generated)?;
    Ok(())
}

#[test]
fn default_svg_uses_the_standard_namespace() -> Result<()> {
    let svg = SVG::new(1);
    let generated = render(&svg, &[1])?;

    assert_eq!(svg.xmlns.as_deref(), Some(SVG_NAMESPACE));
    assert!(generated.contains("xmlns=\"http://www.w3.org/2000/svg\""));
    Ok(())
}

#[test]
fn escapes_custom_xml_namespace_attributes() -> Result<()> {
    let svg = SVG::new(1).xmlns("https://example.test/\" onload=\"alert(1)&<>'".to_string());
    let generated = render(&svg, &[1])?;

    assert!(generated.contains(
        "xmlns=\"https://example.test/&quot; onload=&quot;alert(1)&amp;&lt;&gt;&apos;\""
    ));
    assert!(!generated.contains("\" onload=\""));
    Ok(())
}

#[test]
fn rejects_invalid_or_empty_xml_namespaces() {
    assert!(matches!(
        render(&SVG::new(1).xmlns(String::new()), &[1]),
        Err(Error::Generate { .. })
    ));
    assert!(matches!(
        render(&SVG::new(1)
            .xmlns("http://www.w3.org/2000/svg\u{0001}".to_string())
            , &[1]),
        Err(Error::Generate { .. })
    ));
}

#[test]
fn escaped_namespace_is_included_in_the_resource_limit() -> Result<()> {
    let apostrophe_count = usize::try_from(MAX_OUTPUT_BYTES / 6 + 1)
        .map_err(|_| Error::dimension("test ad alanı uzunluğu usize aralığını aşıyor"))?;
    let generated = render(&SVG::new(1)
        .xmlns("'".repeat(apostrophe_count))
        , &[1]);

    assert!(matches!(generated, Err(Error::ResourceLimit { .. })));
    Ok(())
}

#[test]
fn preserves_nonzero_and_nonopaque_alpha_values() -> Result<()> {
    let svg = SVG {
        height: 1,
        xdim: 1,
        background: Color::new([255, 255, 255, 254]),
        foreground: Color::new([0, 0, 0, 1]),
        xmlns: None,
    };
    let generated = render(&svg, &[1])?;
    let mut opacity_values = generated.split("fill-opacity=\"").skip(1);

    assert_eq!(next_opacity(&mut opacity_values)?, 254.0 / 255.0);
    assert_eq!(next_opacity(&mut opacity_values)?, 1.0 / 255.0);
    assert!(opacity_values.next().is_none());
    Ok(())
}

#[test]
fn svg_rejects_dimension_overflow() -> Result<()> {
    let generated = render(&SVG::new(1).xdim(u32::MAX), &[0, 1]);

    assert!(matches!(generated, Err(Error::Dimension { .. })));
    Ok(())
}

#[test]
fn svg_rejects_empty_encoding() -> Result<()> {
    let generated = render(&SVG::new(80), &[]);

    assert!(matches!(
        generated,
        Err(Error::Length {
            min: 1,
            max: None,
            found: 0
        })
    ));
    Ok(())
}
