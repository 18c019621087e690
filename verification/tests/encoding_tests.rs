use rusticsoup::encoding::decode_bytes_to_string;
use rusticsoup::error::ExtractError;

#[test]
fn bom_is_stripped() {
    let bytes = [0xef, 0xbb, 0xbf, b'h', b'i'];
    assert_eq!(decode_bytes_to_string(&bytes).unwrap(), "hi");
}

#[test]
fn plain_utf8_decodes() {
    let bytes = "caf\u{e9}".as_bytes();
    assert_eq!(decode_bytes_to_string(bytes).unwrap(), "caf\u{e9}");
}

#[test]
fn bom_alone_decodes_to_empty() {
    let bytes = [0xef, 0xbb, 0xbf];
    assert_eq!(decode_bytes_to_string(&bytes).unwrap(), "");
}

#[test]
fn invalid_utf8_is_an_encoding_error() {
    let bytes = [b'o', b'k', 0xff, 0xfe];
    let err = decode_bytes_to_string(&bytes).unwrap_err();
    match err {
        ExtractError::Encoding { valid_up_to } => {
            assert_eq!(valid_up_to, 2);
        }
        _ => panic!("expected an encoding error"),
    }
}

#[test]
fn truncated_bom_is_not_stripped() {
    let bytes = [0xef, 0xbb];
    assert!(decode_bytes_to_string(&bytes).is_err());
}
