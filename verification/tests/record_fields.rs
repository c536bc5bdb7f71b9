use gonk_core::record::{album, artist, name, path, RawSong};

fn packed() -> Vec<u8> {
    RawSong::new(
        b"Song".to_vec(),
        b"Album".to_vec(),
        b"Artist".to_vec(),
        b"/m/s.flac".to_vec(),
        3,
        1,
    )
    .into_bytes()
}

#[test]
fn fields_read_back_from_the_text_block() {
    let bytes = packed();
    assert_eq!(name(&bytes), Some(b"Song".to_vec()));
    assert_eq!(album(&bytes), Some(b"Album".to_vec()));
    assert_eq!(artist(&bytes), Some(b"Artist".to_vec()));
    assert_eq!(path(&bytes), Some(b"/m/s.flac".to_vec()));
}

#[test]
fn a_block_without_terminators_has_no_fields() {
    let bytes = vec![7u8; 16];
    assert_eq!(name(&bytes), None);
    assert_eq!(album(&bytes), None);
    assert_eq!(artist(&bytes), None);
    assert_eq!(path(&bytes), None);
}

#[test]
fn empty_fields_survive_packing() {
    let raw = RawSong::new(Vec::new(), Vec::new(), Vec::new(), Vec::new(), 0, 0);
    assert!(raw.fits());
    let bytes = raw.into_bytes();
    assert_eq!(name(&bytes), Some(Vec::new()));
    assert_eq!(path(&bytes), Some(Vec::new()));
    let back = gonk_core::record::decode_record(&bytes, 0).unwrap();
    assert_eq!(back, raw);
}
