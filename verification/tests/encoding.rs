use barcoders::encoding::{Barcode, EncodedBarcode, ModuleRun, MAX_MODULES};
use barcoders::error::{Error, Result};
use barcoders::sym::ean13::EAN13;

#[test]
fn invalid_modules_are_rejected() {
    assert!(matches!(
        EncodedBarcode::new(&[1, 0, 2, 1]),
        Err(Error::InvalidEncoding { index: 2, value: 2 })
    ));
}

#[test]
fn empty_encoding_is_rejected() {
    assert!(matches!(
        EncodedBarcode::new(&[]),
        Err(Error::Length {
            min: 1,
            max: None,
            found: 0
        })
    ));
}

#[test]
fn runs_are_grouped_without_losing_offsets() -> Result<()> {
    let encoded = EncodedBarcode::new(&[1, 1, 0, 0, 0, 1])?;
    let mut walker = encoded.runs();
    let mut runs: Vec<ModuleRun> = Vec::new();
    while let Some(run) = walker.next() {
        runs.push(run);
    }

    assert_eq!(
        runs.as_slice(),
        &[
            ModuleRun {
                module: 1,
                offset: 0,
                len: 2,
            },
            ModuleRun {
                module: 0,
                offset: 2,
                len: 3,
            },
            ModuleRun {
                module: 1,
                offset: 5,
                len: 1,
            },
        ]
    );
    Ok(())
}

#[test]
fn validated_symbology_produces_shared_encoding() -> Result<()> {
    let barcode = EAN13::new("750103131130")?;
    let first = barcode.encoded();
    let second = first.clone();

    assert_eq!(first.modules(), barcode.encode());
    assert_eq!(first, second);
    assert!(first.shares_modules(&second));
    Ok(())
}

#[test]
fn excessive_module_count_is_rejected_before_rendering() {
    let modules: Vec<u8> = vec![0; MAX_MODULES.saturating_add(1)];

    assert!(matches!(
        EncodedBarcode::new(&modules),
        Err(Error::ResourceLimit {
            resource: "modül sayısı",
            ..
        })
    ));
}
