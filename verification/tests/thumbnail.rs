use purple::thumbnail::thumbnail_uri;

#[test]
fn thumbnail_is_base64_behind_the_prefix() {
    assert_eq!(thumbnail_uri(&Vec::new()).unwrap(), "data:image/png;base64,");
    assert_eq!(thumbnail_uri(&b"f".to_vec()).unwrap(), "data:image/png;base64,Zg==");
    assert_eq!(thumbnail_uri(&b"fo".to_vec()).unwrap(), "data:image/png;base64,Zm8=");
    assert_eq!(thumbnail_uri(&b"foo".to_vec()).unwrap(), "data:image/png;base64,Zm9v");
    assert_eq!(thumbnail_uri(&b"foobar".to_vec()).unwrap(), "data:image/png;base64,Zm9vYmFy");
    assert_eq!(
        thumbnail_uri(&vec![0xfb, 0xff, 0xfe]).unwrap(),
        "data:image/png;base64,+//+"
    );
}

#[test]
fn thumbnail_of_png_signature() {
    let png = vec![0x89, b'P', b'N', b'G', 0x0d, 0x0a, 0x1a, 0x0a];
    assert_eq!(thumbnail_uri(&png).unwrap(), "data:image/png;base64,iVBORw0KGgo=");
}
