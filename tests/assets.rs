use stellar_swipe::assets::{is_alnum, is_base32, validate_asset_pair, AssetPairError};

fn s(x: &str) -> Vec<u8> {
    x.as_bytes().to_vec()
}

#[test]
fn test_xlm_usdc_shorthand_valid() {
    let pair = s("XLM/USDC");
    assert!(validate_asset_pair(&pair).is_ok());
}

#[test]
fn test_xlm_usdc_with_issuer_valid() {
    let pair = s("XLM/USDC:GDUKMGUGDZQK6YHYA5Z6AY2G4XDSZPSZ3SW5UN3ARVMO6QSRDWP5YLEX");
    assert!(validate_asset_pair(&pair).is_ok());
}

#[test]
fn test_custom_usdc_with_valid_issuers() {
    let pair = s("CUSTOM:GDUKMGUGDZQK6YHYA5Z6AY2G4XDSZPSZ3SW5UN3ARVMO6QSRDWP5YLEX/USDC:GAAAAAAAAAAAAAAAAAAAAAAAAAAAAAAAAAAAAAAAAAAAAAAAAAAAAAAF");
    assert!(validate_asset_pair(&pair).is_ok());
}

#[test]
fn test_invalid_format_no_slash() {
    assert_eq!(validate_asset_pair(&s("XLMUSDC")), Err(AssetPairError::InvalidFormat));
}

#[test]
fn test_invalid_format_empty_base() {
    let pair = s("/USDC:GDUKMGUGDZQK6YHYA5Z6AY2G4XDSZPSZ3SW5UN3ARVMO6QSRDWP5YLEX");
    assert_eq!(validate_asset_pair(&pair), Err(AssetPairError::InvalidFormat));
}

#[test]
fn test_same_assets_rejected() {
    assert_eq!(validate_asset_pair(&s("XLM/XLM")), Err(AssetPairError::SameAssets));
}

#[test]
fn test_invalid_asset_code_special_chars() {
    let pair = s("XLM/USD!");
    assert!(validate_asset_pair(&pair).is_err());
}

#[test]
fn test_invalid_issuer_format() {
    let pair = s("XLM/USDC:INVALID");
    assert_eq!(validate_asset_pair(&pair), Err(AssetPairError::InvalidIssuer));
}

#[test]
fn test_xlm_btc_valid() {
    let pair = s("XLM/BTC:GDUKMGUGDZQK6YHYA5Z6AY2G4XDSZPSZ3SW5UN3ARVMO6QSRDWP5YLEX");
    assert!(validate_asset_pair(&pair).is_ok());
}

#[test]
fn asset_pair_edge_cases() {
    assert_eq!(validate_asset_pair(&s("XLM/USDC/BTC")), Err(AssetPairError::InvalidFormat));
    assert_eq!(validate_asset_pair(&s("XLM/")), Err(AssetPairError::InvalidFormat));
    assert_eq!(validate_asset_pair(&s("ABCDEFGHIJKLM/XLM")), Err(AssetPairError::InvalidAssetCode));
    assert_eq!(validate_asset_pair(&s(":GAAA/XLM")), Err(AssetPairError::InvalidAssetCode));
    assert_eq!(validate_asset_pair(&s("USD!/XLM")), Err(AssetPairError::InvalidAssetCode));
    assert!(validate_asset_pair(&s("ABCDEFGHIJKL/X")).is_ok());
    assert!(is_alnum(b'q') && is_alnum(b'7') && !is_alnum(b'-'));
    assert!(is_base32(b'Q') && is_base32(b'2') && !is_base32(b'8') && !is_base32(b'a'));
}
