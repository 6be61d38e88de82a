//! Direct tests of the artifact codec: exact layouts and inversion.

use fls_rs::codec::{decode_artifact, encode_artifact, is_recognized};
use fls_rs::table::Table;

fn one_cell() -> Table {
    Table { n_cols: 1, rows: vec![vec![b"A".to_vec()]] }
}

#[test]
fn encode_out_of_band_footer_exact_bytes() {
    let bytes = encode_artifact(&one_cell(), false);
    let expected = vec![
        70, 76, 83, 49, // magic
        0, // footer out-of-band
        1, 0, 0, 0, 65, // the one field: length 1, then b"A"
        1, 0, 0, 0, // one row
        1, 0, 0, 0, // one column
    ];
    assert_eq!(bytes, expected);
}

#[test]
fn encode_inline_footer_exact_bytes() {
    let bytes = encode_artifact(&one_cell(), true);
    let expected = vec![
        70, 76, 83, 49, // magic
        1, // footer inlined
        1, 0, 0, 0, // one row
        1, 0, 0, 0, // one column
        1, 0, 0, 0, 65, // the one field: length 1, then b"A"
    ];
    assert_eq!(bytes, expected);
}

#[test]
fn decode_inverts_encode_under_either_placement() {
    let rows: Vec<Vec<Vec<u8>>> = vec![
        vec![b"alpha".to_vec(), Vec::new(), vec![0, 255, 7]],
        vec![b"beta".to_vec(), b",\n".to_vec(), Vec::new()],
    ];
    for inline in [false, true] {
        let t = Table { n_cols: 3, rows: rows.clone() };
        let decoded = decode_artifact(&encode_artifact(&t, inline)).expect("round trip");
        assert_eq!(decoded.n_cols, 3);
        assert_eq!(decoded.rows, rows);
    }
}

#[test]
fn decode_rejects_short_input() {
    assert!(decode_artifact(&vec![70, 76, 83, 49, 0]).is_none());
}

#[test]
fn decode_rejects_wrong_magic() {
    let mut bytes = encode_artifact(&one_cell(), false);
    bytes[0] = 71;
    assert!(decode_artifact(&bytes).is_none());
}

#[test]
fn decode_rejects_unknown_flag() {
    let mut bytes = encode_artifact(&one_cell(), false);
    bytes[4] = 2;
    assert!(decode_artifact(&bytes).is_none());
}

#[test]
fn decode_rejects_trailing_bytes() {
    let mut bytes = encode_artifact(&one_cell(), true);
    bytes.push(0);
    assert!(decode_artifact(&bytes).is_none());
}

#[test]
fn recognition_checks_header_only() {
    let good = encode_artifact(&one_cell(), true);
    assert!(is_recognized(&good));
    assert!(!is_recognized(&vec![1, 2, 3]));
    let mut flipped = good.clone();
    flipped[3] = 0;
    assert!(!is_recognized(&flipped));
}
