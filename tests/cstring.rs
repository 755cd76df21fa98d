use drone_core::cstring::CString;

#[test]
fn new_appends_terminator() {
    let c = CString::new(b"foo".to_vec()).unwrap();
    assert_eq!(c.as_bytes(), &[b'f', b'o', b'o']);
    assert_eq!(c.as_bytes_with_nul(), &[b'f', b'o', b'o', b'\0']);
    assert_eq!(c.clone().into_bytes(), vec![b'f', b'o', b'o']);
    assert_eq!(c.into_bytes_with_nul(), vec![b'f', b'o', b'o', b'\0']);
}

#[test]
fn new_refuses_interior_nul() {
    let e = CString::new(b"foo\0bar".to_vec()).unwrap_err();
    assert_eq!(e.nul_position(), 3);
    assert_eq!(e.into_vec(), b"foo\0bar".to_vec());
    let e = CString::new(b"foo bar\0".to_vec()).unwrap_err();
    assert_eq!(e.nul_position(), 7);
    let e = CString::new(b"\0a\0".to_vec()).unwrap_err();
    assert_eq!(e.nul_position(), 0);
}

#[test]
fn empty_string() {
    let c = CString::new(Vec::new()).unwrap();
    assert_eq!(c.as_bytes(), &[] as &[u8]);
    assert_eq!(c.as_bytes_with_nul(), &[0]);
    assert_eq!(CString::default(), c);
}

#[test]
fn into_string_of_valid_utf8() {
    let c = CString::new(vec![b'f', b'o', b'o']).unwrap();
    assert_eq!(c.into_string().unwrap(), "foo");
    let c = CString::new("héllo".as_bytes().to_vec()).unwrap();
    assert_eq!(c.into_string().unwrap(), "héllo");
}

#[test]
fn into_string_of_invalid_utf8() {
    let c = CString::new(vec![b'f', 0xff, b'o', b'o']).unwrap();
    let err = c.into_string().err().unwrap();
    assert_eq!(err.utf8_error().valid_up_to(), 1);
    assert_eq!(err.valid_up_to(), 1);
    assert_eq!(err.into_cstring().as_bytes(), &[b'f', 0xff, b'o', b'o']);
}

#[test]
fn from_vec_unchecked_appends_terminator() {
    let c = CString::from_vec_unchecked(b"bar".to_vec());
    assert_eq!(c.as_bytes_with_nul(), b"bar\0");
    assert_eq!(c, CString::new(b"bar".to_vec()).unwrap());
}

#[test]
fn into_string_reports_longest_valid_prefix() {
    let c = CString::new(vec![b'a', 0xC3, 0xA9, b'b', 0xE2, 0x82]).unwrap();
    let err = c.into_string().err().unwrap();
    assert_eq!(err.valid_up_to(), 4);
    assert_eq!(err.utf8_error().valid_up_to(), 4);
}
