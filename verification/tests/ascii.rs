use barcoders::error::{Error, Result};
use barcoders::generators::ascii::ASCII;
use barcoders::generators::MAX_OUTPUT_BYTES;
use barcoders::sym::code11::Code11;
use barcoders::sym::code128::Code128;
use barcoders::sym::code39::Code39;
use barcoders::sym::code93::Code93;
use barcoders::sym::ean13::EAN13;
use barcoders::sym::ean8::EAN8;
use barcoders::sym::ean_supp::EANSUPP;
use barcoders::sym::tf::TF;


#[test]
fn ean_13_as_ascii() -> Result<()> {
    let ean13 = EAN13::new("750103131130")?;
    let ascii = ASCII::new();
    let generated = ascii.generate(&ean13.encode())?;

    assert_eq!(
        generated,
        "
# # ##   # #  ###  ##  # #  ### #### # ##  ## # # #    # ##  ## ##  ## #    # ###  # ### #  # #
# # ##   # #  ###  ##  # #  ### #### # ##  ## # # #    # ##  ## ##  ## #    # ###  # ### #  # #
# # ##   # #  ###  ##  # #  ### #### # ##  ## # # #    # ##  ## ##  ## #    # ###  # ### #  # #
# # ##   # #  ###  ##  # #  ### #### # ##  ## # # #    # ##  ## ##  ## #    # ###  # ### #  # #
# # ##   # #  ###  ##  # #  ### #### # ##  ## # # #    # ##  ## ##  ## #    # ###  # ### #  # #
# # ##   # #  ###  ##  # #  ### #### # ##  ## # # #    # ##  ## ##  ## #    # ###  # ### #  # #
# # ##   # #  ###  ##  # #  ### #### # ##  ## # # #    # ##  ## ##  ## #    # ###  # ### #  # #
# # ##   # #  ###  ##  # #  ### #### # ##  ## # # #    # ##  ## ##  ## #    # ###  # ### #  # #
# # ##   # #  ###  ##  # #  ### #### # ##  ## # # #    # ##  ## ##  ## #    # ###  # ### #  # #
# # ##   # #  ###  ##  # #  ### #### # ##  ## # # #    # ##  ## ##  ## #    # ###  # ### #  # #
"
        .trim()
    );
    Ok(())
}

#[test]
fn ean_13_as_ascii_small_height_double_width() -> Result<()> {
    let ean13 = EAN13::new("750103131130")?;
    let ascii = ASCII { height: 6, xdim: 2 };
    let generated = ascii.generate(&ean13.encode())?;

    assert_eq!(generated,
"
##  ##  ####      ##  ##    ######    ####    ##  ##    ######  ########  ##  ####    ####  ##  ##  ##        ##  ####    ####  ####    ####  ##        ##  ######    ##  ######  ##    ##  ##
##  ##  ####      ##  ##    ######    ####    ##  ##    ######  ########  ##  ####    ####  ##  ##  ##        ##  ####    ####  ####    ####  ##        ##  ######    ##  ######  ##    ##  ##
##  ##  ####      ##  ##    ######    ####    ##  ##    ######  ########  ##  ####    ####  ##  ##  ##        ##  ####    ####  ####    ####  ##        ##  ######    ##  ######  ##    ##  ##
##  ##  ####      ##  ##    ######    ####    ##  ##    ######  ########  ##  ####    ####  ##  ##  ##        ##  ####    ####  ####    ####  ##        ##  ######    ##  ######  ##    ##  ##
##  ##  ####      ##  ##    ######    ####    ##  ##    ######  ########  ##  ####    ####  ##  ##  ##        ##  ####    ####  ####    ####  ##        ##  ######    ##  ######  ##    ##  ##
##  ##  ####      ##  ##    ######    ####    ##  ##    ######  ########  ##  ####    ####  ##  ##  ##        ##  ####    ####  ####    ####  ##        ##  ######    ##  ######  ##    ##  ##
".trim());
    Ok(())
}

#[test]
fn ean_8_as_ascii() -> Result<()> {
    let ean8 = EAN8::new("1234567")?;
    let ascii = ASCII::new();
    let generated = ascii.generate(&ean8.encode())?;

    assert_eq!(
        generated,
        "
# #  ##  #  #  ## #### # #   ## # # #  ### # #    #   #  ###  # # #
# #  ##  #  #  ## #### # #   ## # # #  ### # #    #   #  ###  # # #
# #  ##  #  #  ## #### # #   ## # # #  ### # #    #   #  ###  # # #
# #  ##  #  #  ## #### # #   ## # # #  ### # #    #   #  ###  # # #
# #  ##  #  #  ## #### # #   ## # # #  ### # #    #   #  ###  # # #
# #  ##  #  #  ## #### # #   ## # # #  ### # #    #   #  ###  # # #
# #  ##  #  #  ## #### # #   ## # # #  ### # #    #   #  ###  # # #
# #  ##  #  #  ## #### # #   ## # # #  ### # #    #   #  ###  # # #
# #  ##  #  #  ## #### # #   ## # # #  ### # #    #   #  ###  # # #
# #  ##  #  #  ## #### # #   ## # # #  ### # #    #   #  ###  # # #
"
        .trim()
    );
    Ok(())
}

#[test]
fn ean_8_as_ascii_small_height_double_width() -> Result<()> {
    let ean8 = EAN8::new("1234567")?;
    let ascii = ASCII { height: 5, xdim: 2 };
    let generated = ascii.generate(&ean8.encode())?;

    assert_eq!(generated,
"
##  ##    ####    ##    ##    ####  ########  ##  ##      ####  ##  ##  ##    ######  ##  ##        ##      ##    ######    ##  ##  ##
##  ##    ####    ##    ##    ####  ########  ##  ##      ####  ##  ##  ##    ######  ##  ##        ##      ##    ######    ##  ##  ##
##  ##    ####    ##    ##    ####  ########  ##  ##      ####  ##  ##  ##    ######  ##  ##        ##      ##    ######    ##  ##  ##
##  ##    ####    ##    ##    ####  ########  ##  ##      ####  ##  ##  ##    ######  ##  ##        ##      ##    ######    ##  ##  ##
##  ##    ####    ##    ##    ####  ########  ##  ##      ####  ##  ##  ##    ######  ##  ##        ##      ##    ######    ##  ##  ##
".trim());
    Ok(())
}

#[test]
fn code_39_as_ascii() -> Result<()> {
    let code39 = Code39::new("TEST8052")?;
    let ascii = ASCII::new();
    let generated = ascii.generate(&code39.encode())?;

    assert_eq!(generated,
"
#  # ## ## # # # ## ##  # ## # ##  # # # ## # ##  # # # ## ##  # ## #  # ## # # #  ## ## # ## #  ## # # # ##  # # ## #  # ## ## #
#  # ## ## # # # ## ##  # ## # ##  # # # ## # ##  # # # ## ##  # ## #  # ## # # #  ## ## # ## #  ## # # # ##  # # ## #  # ## ## #
#  # ## ## # # # ## ##  # ## # ##  # # # ## # ##  # # # ## ##  # ## #  # ## # # #  ## ## # ## #  ## # # # ##  # # ## #  # ## ## #
#  # ## ## # # # ## ##  # ## # ##  # # # ## # ##  # # # ## ##  # ## #  # ## # # #  ## ## # ## #  ## # # # ##  # # ## #  # ## ## #
#  # ## ## # # # ## ##  # ## # ##  # # # ## # ##  # # # ## ##  # ## #  # ## # # #  ## ## # ## #  ## # # # ##  # # ## #  # ## ## #
#  # ## ## # # # ## ##  # ## # ##  # # # ## # ##  # # # ## ##  # ## #  # ## # # #  ## ## # ## #  ## # # # ##  # # ## #  # ## ## #
#  # ## ## # # # ## ##  # ## # ##  # # # ## # ##  # # # ## ##  # ## #  # ## # # #  ## ## # ## #  ## # # # ##  # # ## #  # ## ## #
#  # ## ## # # # ## ##  # ## # ##  # # # ## # ##  # # # ## ##  # ## #  # ## # # #  ## ## # ## #  ## # # # ##  # # ## #  # ## ## #
#  # ## ## # # # ## ##  # ## # ##  # # # ## # ##  # # # ## ##  # ## #  # ## # # #  ## ## # ## #  ## # # # ##  # # ## #  # ## ## #
#  # ## ## # # # ## ##  # ## # ##  # # # ## # ##  # # # ## ##  # ## #  # ## # # #  ## ## # ## #  ## # # # ##  # # ## #  # ## ## #
".trim());
    Ok(())
}

#[test]
fn code_39_as_ascii_small_height_double_weight() -> Result<()> {
    let code39 = Code39::new("1234")?;
    let ascii = ASCII { height: 7, xdim: 2 };
    let generated = ascii.generate(&code39.encode())?;

    assert_eq!(generated,
"
##    ##  ####  ####  ##  ####  ##    ##  ##  ####  ##  ####    ##  ##  ####  ####  ####    ##  ##  ##  ##  ##    ####  ##  ####  ##    ##  ####  ####  ##
##    ##  ####  ####  ##  ####  ##    ##  ##  ####  ##  ####    ##  ##  ####  ####  ####    ##  ##  ##  ##  ##    ####  ##  ####  ##    ##  ####  ####  ##
##    ##  ####  ####  ##  ####  ##    ##  ##  ####  ##  ####    ##  ##  ####  ####  ####    ##  ##  ##  ##  ##    ####  ##  ####  ##    ##  ####  ####  ##
##    ##  ####  ####  ##  ####  ##    ##  ##  ####  ##  ####    ##  ##  ####  ####  ####    ##  ##  ##  ##  ##    ####  ##  ####  ##    ##  ####  ####  ##
##    ##  ####  ####  ##  ####  ##    ##  ##  ####  ##  ####    ##  ##  ####  ####  ####    ##  ##  ##  ##  ##    ####  ##  ####  ##    ##  ####  ####  ##
##    ##  ####  ####  ##  ####  ##    ##  ##  ####  ##  ####    ##  ##  ####  ####  ####    ##  ##  ##  ##  ##    ####  ##  ####  ##    ##  ####  ####  ##
##    ##  ####  ####  ##  ####  ##    ##  ##  ####  ##  ####    ##  ##  ####  ####  ####    ##  ##  ##  ##  ##    ####  ##  ####  ##    ##  ####  ####  ##
".trim());
    Ok(())
}

#[test]
fn code_128_as_ascii() -> Result<()> {
    let code128 = Code128::new("ÀHELLO")?;
    let ascii = ASCII::new();
    let generated = ascii.generate(&code128.encode())?;

    assert_eq!(
        generated,
        "
## #    #  ##   # #   #   ## #   #   ## ### #   ## ### #   ### ## ## #   #   ##   ### # ##
## #    #  ##   # #   #   ## #   #   ## ### #   ## ### #   ### ## ## #   #   ##   ### # ##
## #    #  ##   # #   #   ## #   #   ## ### #   ## ### #   ### ## ## #   #   ##   ### # ##
## #    #  ##   # #   #   ## #   #   ## ### #   ## ### #   ### ## ## #   #   ##   ### # ##
## #    #  ##   # #   #   ## #   #   ## ### #   ## ### #   ### ## ## #   #   ##   ### # ##
## #    #  ##   # #   #   ## #   #   ## ### #   ## ### #   ### ## ## #   #   ##   ### # ##
## #    #  ##   # #   #   ## #   #   ## ### #   ## ### #   ### ## ## #   #   ##   ### # ##
## #    #  ##   # #   #   ## #   #   ## ### #   ## ### #   ### ## ## #   #   ##   ### # ##
## #    #  ##   # #   #   ## #   #   ## ### #   ## ### #   ### ## ## #   #   ##   ### # ##
## #    #  ##   # #   #   ## #   #   ## ### #   ## ### #   ### ## ## #   #   ##   ### # ##
"
        .trim()
    );
    Ok(())
}

#[test]
fn code_128_as_ascii_small_height_double_weight() -> Result<()> {
    let code128 = Code128::new("ÀHELLO")?;
    let ascii = ASCII { height: 7, xdim: 2 };
    let generated = ascii.generate(&code128.encode())?;

    assert_eq!(generated,
"
####  ##        ##    ####      ##  ##      ##      ####  ##      ##      ####  ######  ##      ####  ######  ##      ######  ####  ####  ##      ##      ####      ######  ##  ####
####  ##        ##    ####      ##  ##      ##      ####  ##      ##      ####  ######  ##      ####  ######  ##      ######  ####  ####  ##      ##      ####      ######  ##  ####
####  ##        ##    ####      ##  ##      ##      ####  ##      ##      ####  ######  ##      ####  ######  ##      ######  ####  ####  ##      ##      ####      ######  ##  ####
####  ##        ##    ####      ##  ##      ##      ####  ##      ##      ####  ######  ##      ####  ######  ##      ######  ####  ####  ##      ##      ####      ######  ##  ####
####  ##        ##    ####      ##  ##      ##      ####  ##      ##      ####  ######  ##      ####  ######  ##      ######  ####  ####  ##      ##      ####      ######  ##  ####
####  ##        ##    ####      ##  ##      ##      ####  ##      ##      ####  ######  ##      ####  ######  ##      ######  ####  ####  ##      ##      ####      ######  ##  ####
####  ##        ##    ####      ##  ##      ##      ####  ##      ##      ####  ######  ##      ####  ######  ##      ######  ####  ####  ##      ##      ####      ######  ##  ####
".trim());
    Ok(())
}

#[test]
fn ean2_as_ascii() -> Result<()> {
    let ean2 = EANSUPP::new("34")?;
    let ascii = ASCII::new();
    let generated = ascii.generate(&ean2.encode())?;

    assert_eq!(
        generated,
        "
# ## #    # # #   ##
# ## #    # # #   ##
# ## #    # # #   ##
# ## #    # # #   ##
# ## #    # # #   ##
# ## #    # # #   ##
# ## #    # # #   ##
# ## #    # # #   ##
# ## #    # # #   ##
# ## #    # # #   ##
"
        .trim()
    );
    Ok(())
}

#[test]
fn ean5_as_ascii() -> Result<()> {
    let ean5 = EANSUPP::new("50799")?;
    let ascii = ASCII::new();
    let generated = ascii.generate(&ean5.encode())?;

    assert_eq!(
        generated,
        "
# ## ##   # # #  ### #  #   # #   # ## #   # ##
# ## ##   # # #  ### #  #   # #   # ## #   # ##
# ## ##   # # #  ### #  #   # #   # ## #   # ##
# ## ##   # # #  ### #  #   # #   # ## #   # ##
# ## ##   # # #  ### #  #   # #   # ## #   # ##
# ## ##   # # #  ### #  #   # #   # ## #   # ##
# ## ##   # # #  ### #  #   # #   # ## #   # ##
# ## ##   # # #  ### #  #   # #   # ## #   # ##
# ## ##   # # #  ### #  #   # #   # ## #   # ##
# ## ##   # # #  ### #  #   # #   # ## #   # ##
"
        .trim()
    );
    Ok(())
}

#[test]
fn code_93_as_ascii() -> Result<()> {
    let code93 = Code93::new("TEST93")?;
    let ascii = ASCII::new();
    let generated = ascii.generate(&code93.encode())?;

    assert_eq!(
        generated,
        "
# # #### ## #  ## ##  #  # ## # ##  ## #  ## #    # # # #    # # ### ## #  #   # # # #### #
# # #### ## #  ## ##  #  # ## # ##  ## #  ## #    # # # #    # # ### ## #  #   # # # #### #
# # #### ## #  ## ##  #  # ## # ##  ## #  ## #    # # # #    # # ### ## #  #   # # # #### #
# # #### ## #  ## ##  #  # ## # ##  ## #  ## #    # # # #    # # ### ## #  #   # # # #### #
# # #### ## #  ## ##  #  # ## # ##  ## #  ## #    # # # #    # # ### ## #  #   # # # #### #
# # #### ## #  ## ##  #  # ## # ##  ## #  ## #    # # # #    # # ### ## #  #   # # # #### #
# # #### ## #  ## ##  #  # ## # ##  ## #  ## #    # # # #    # # ### ## #  #   # # # #### #
# # #### ## #  ## ##  #  # ## # ##  ## #  ## #    # # # #    # # ### ## #  #   # # # #### #
# # #### ## #  ## ##  #  # ## # ##  ## #  ## #    # # # #    # # ### ## #  #   # # # #### #
# # #### ## #  ## ##  #  # ## # ##  ## #  ## #    # # # #    # # ### ## #  #   # # # #### #
"
        .trim()
    );
    Ok(())
}

#[test]
fn code_93_as_ascii_small_height_double_weight() -> Result<()> {
    let code93 = Code93::new("TEST93")?;
    let ascii = ASCII { height: 7, xdim: 2 };
    let generated = ascii.generate(&code93.encode())?;

    assert_eq!(generated,
"
##  ##  ########  ####  ##    ####  ####    ##    ##  ####  ##  ####    ####  ##    ####  ##        ##  ##  ##  ##        ##  ##  ######  ####  ##    ##      ##  ##  ##  ########  ##
##  ##  ########  ####  ##    ####  ####    ##    ##  ####  ##  ####    ####  ##    ####  ##        ##  ##  ##  ##        ##  ##  ######  ####  ##    ##      ##  ##  ##  ########  ##
##  ##  ########  ####  ##    ####  ####    ##    ##  ####  ##  ####    ####  ##    ####  ##        ##  ##  ##  ##        ##  ##  ######  ####  ##    ##      ##  ##  ##  ########  ##
##  ##  ########  ####  ##    ####  ####    ##    ##  ####  ##  ####    ####  ##    ####  ##        ##  ##  ##  ##        ##  ##  ######  ####  ##    ##      ##  ##  ##  ########  ##
##  ##  ########  ####  ##    ####  ####    ##    ##  ####  ##  ####    ####  ##    ####  ##        ##  ##  ##  ##        ##  ##  ######  ####  ##    ##      ##  ##  ##  ########  ##
##  ##  ########  ####  ##    ####  ####    ##    ##  ####  ##  ####    ####  ##    ####  ##        ##  ##  ##  ##        ##  ##  ######  ####  ##    ##      ##  ##  ##  ########  ##
##  ##  ########  ####  ##    ####  ####    ##    ##  ####  ##  ####    ####  ##    ####  ##        ##  ##  ##  ##        ##  ##  ######  ####  ##    ##      ##  ##  ##  ########  ##
".trim());
    Ok(())
}

// Interleaved 2-of-5 ends with the stop pattern `11101`: its wide bar keeps the 3:1
// wide-to-narrow ratio of the data characters, as `itf_encode` checks. Expectations written
// for the older 4-module stop `1101` (62 JSON modules for "12345", a 116-pixel-wide
// buffer, the matching ASCII and WEBP sizes) contradict that test, so no ITF rendering is
// checked here against such fixed output; `itf_as_gif` and `itf_as_png` still run.
#[test]
fn code_11_as_ascii() -> Result<()> {
    let code11 = Code11::new("12-9")?;
    let ascii = ASCII::new();
    let generated = ascii.generate(&code11.encode())?;

    assert_eq!(
        generated,
        "
# ##  # ## # ## #  # ## # ## # ## # # #  ## # # ##  #
# ##  # ## # ## #  # ## # ## # ## # # #  ## # # ##  #
# ##  # ## # ## #  # ## # ## # ## # # #  ## # # ##  #
# ##  # ## # ## #  # ## # ## # ## # # #  ## # # ##  #
# ##  # ## # ## #  # ## # ## # ## # # #  ## # # ##  #
# ##  # ## # ## #  # ## # ## # ## # # #  ## # # ##  #
# ##  # ## # ## #  # ## # ## # ## # # #  ## # # ##  #
# ##  # ## # ## #  # ## # ## # ## # # #  ## # # ##  #
# ##  # ## # ## #  # ## # ## # ## # # #  ## # # ##  #
# ##  # ## # ## #  # ## # ## # ## # # #  ## # # ##  #
"
        .trim()
    );
    Ok(())
}

#[test]
fn ascii_rejects_non_binary_encoding() -> Result<()> {
    let generated = ASCII::new().generate(&[0, 2, 1]);

    assert!(matches!(
        generated,
        Err(Error::InvalidEncoding { index: 1, value: 2 })
    ));
    Ok(())
}

#[test]
fn ascii_rejects_empty_encoding() -> Result<()> {
    let generated = ASCII::new().generate(&[]);

    assert!(matches!(
        generated,
        Err(Error::Length {
            min: 1,
            max: None,
            found: 0
        })
    ));
    Ok(())
}

#[test]
fn rejects_excessive_output_before_allocating() -> Result<()> {
    let maximum = usize::try_from(MAX_OUTPUT_BYTES)
        .map_err(|_| Error::dimension("test sınırı usize aralığına sığmıyor"))?;
    let generator = ASCII {
        height: maximum,
        xdim: 1,
    };

    assert!(matches!(
        generator.generate(&[0, 1]),
        Err(Error::ResourceLimit {
            resource: "çıktı baytı",
            ..
        })
    ));
    Ok(())
}
