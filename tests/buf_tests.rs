use xml2buf::buf::{BufContent, BufError, XmlBuf, MAX_SIZE};
use xml2buf::registry::{
    xmlBufAdd, xmlBufAddLen, xmlBufAvail, xmlBufCat, xmlBufContent, xmlBufCreate,
    xmlBufCreateMem, xmlBufDetach, xmlBufEmpty, xmlBufEnd, xmlBufFree, xmlBufGrow,
    xmlBufIsEmpty, xmlBufResetInput, xmlBufShrink, xmlBufUpdateInput, xmlBufUse, BufRegistry,
    FIRST_HANDLE,
};

/// The bytes of a NUL-terminated literal, before its terminator.
fn c_str(s: &[u8]) -> &[u8] {
    &s[..s.len() - 1]
}

/// The content of an owned buffer, read in place.
fn owned_content(reg: &BufRegistry, buf: usize) -> Vec<u8> {
    let n = xmlBufUse(reg, buf);
    match xmlBufContent(reg, buf) {
        BufContent::Owned(s) => s[..n].to_vec(),
        _ => panic!("not an owned buffer"),
    }
}

#[test]
fn test_buf_create() {
    let mut reg = BufRegistry::new();
    let buf = xmlBufCreate(&mut reg, 100);
    assert_ne!(buf, 0);
    xmlBufFree(&mut reg, buf);
}

#[test]
fn test_buf_add() {
    let mut reg = BufRegistry::new();
    let buf = xmlBufCreate(&mut reg, 100);
    assert_ne!(buf, 0);

    let test_str = b"Hello, World!\0";
    let result = xmlBufAdd(&mut reg, buf, Some(c_str(test_str)), test_str.len() - 1);
    assert_eq!(result, 0);

    assert_eq!(xmlBufIsEmpty(&reg, buf), 0);

    xmlBufFree(&mut reg, buf);
}

#[test]
fn test_buf_empty() {
    let mut reg = BufRegistry::new();
    let buf = xmlBufCreate(&mut reg, 100);
    assert_ne!(buf, 0);

    let test_str = b"Test\0";
    xmlBufAdd(&mut reg, buf, Some(c_str(test_str)), test_str.len() - 1);
    assert_eq!(xmlBufIsEmpty(&reg, buf), 0);

    xmlBufEmpty(&mut reg, buf);
    assert_eq!(xmlBufIsEmpty(&reg, buf), 1);

    xmlBufFree(&mut reg, buf);
}

#[test]
fn test_buf_grow() {
    let mut reg = BufRegistry::new();
    let buf = xmlBufCreate(&mut reg, 10);
    assert_ne!(buf, 0);

    let result = xmlBufGrow(&mut reg, buf, 100);
    assert_eq!(result, 0);

    assert!(xmlBufAvail(&reg, buf) >= 100);

    xmlBufFree(&mut reg, buf);
}

#[test]
fn test_buf_cat() {
    let mut reg = BufRegistry::new();
    let buf = xmlBufCreate(&mut reg, 100);
    assert_ne!(buf, 0);

    let test_str = b"Hello\0";
    let result = xmlBufCat(&mut reg, buf, Some(c_str(test_str)));
    assert_eq!(result, 0);

    let test_str2 = b", World!\0";
    let result = xmlBufCat(&mut reg, buf, Some(c_str(test_str2)));
    assert_eq!(result, 0);

    xmlBufFree(&mut reg, buf);
}

#[test]
fn test_buf_static() {
    let mut reg = BufRegistry::new();
    let test_str = b"Static content\0";
    let buf = xmlBufCreateMem(&mut reg, Some(&test_str[..]), 0x1000, test_str.len() - 1, 1);
    assert_ne!(buf, 0);

    // Static buffers should not be modifiable
    let result = xmlBufAdd(&mut reg, buf, Some(c_str(b"more\0")), 4);
    assert_eq!(result, -1);

    xmlBufFree(&mut reg, buf);
}

#[test]
fn test_buf_detach() {
    let mut reg = BufRegistry::new();
    let buf = xmlBufCreate(&mut reg, 100);
    assert_ne!(buf, 0);

    let test_str = b"Detach me\0";
    xmlBufAdd(&mut reg, buf, Some(c_str(test_str)), test_str.len() - 1);

    let detached = xmlBufDetach(&mut reg, buf);
    assert!(detached.is_some());

    // Buffer should be empty after detach
    assert_eq!(xmlBufIsEmpty(&reg, buf), 1);

    assert_eq!(detached.unwrap(), test_str.to_vec());

    xmlBufFree(&mut reg, buf);
}

#[test]
fn test_xml_buf_update_input() {
    let mut reg = BufRegistry::new();
    let buf = xmlBufCreate(&mut reg, 100);
    assert_ne!(buf, 0);

    let input = xmlBufResetInput(&reg, buf);
    assert!(input.is_some());
    let w = input.unwrap();
    assert!(!matches!(w.base, BufContent::Null));
    assert_eq!(w.cur, 0);
    assert_eq!(w.end, 0);

    let input = xmlBufUpdateInput(&reg, buf, 0);
    assert!(input.is_some());
    let w = input.unwrap();
    assert!(!matches!(w.base, BufContent::Null));
    assert_eq!(w.cur, 0);
    assert_eq!(w.end, 0);

    xmlBufFree(&mut reg, buf);
}

#[test]
fn create_gives_empty_buffer_with_room() {
    let b = XmlBuf::new(64).unwrap();
    assert_eq!(b.used(), 0);
    assert!(b.avail() >= 64);
    assert!(b.is_empty());
    assert!(!b.is_error());
    assert!(!b.is_static());
}

#[test]
fn create_refuses_largest_size() {
    assert_eq!(XmlBuf::new(usize::MAX).unwrap_err(), BufError::InvalidArgument);
    let mut reg = BufRegistry::new();
    assert_eq!(xmlBufCreate(&mut reg, usize::MAX), 0);
}

#[test]
fn add_then_read_gives_bytes_back() {
    let mut reg = BufRegistry::new();
    let buf = xmlBufCreate(&mut reg, 16);
    assert_eq!(xmlBufAdd(&mut reg, buf, Some(b"round trip"), 10), 0);
    assert_eq!(xmlBufUse(&reg, buf), 10);
    assert_eq!(owned_content(&reg, buf), b"round trip".to_vec());
    match xmlBufContent(&reg, buf) {
        BufContent::Owned(s) => assert_eq!(s[10], 0),
        _ => panic!("not an owned buffer"),
    }
}

#[test]
fn add_without_memory() {
    let mut b = XmlBuf::new(8).unwrap();
    assert_eq!(b.add(None, 3), Err(BufError::InvalidArgument));
    assert_eq!(b.add(None, 0), Ok(()));
    assert_eq!(b.used(), 0);
}

#[test]
fn empty_twice_and_shrink_zero() {
    let mut b = XmlBuf::new(8).unwrap();
    b.empty();
    assert!(b.is_empty());
    b.empty();
    assert!(b.is_empty());
    assert_eq!(b.avail(), 8);
    b.add(Some(b"abc"), 3).unwrap();
    assert_eq!(b.shrink(0), 0);
    assert_eq!(b.used(), 3);
}

#[test]
fn shrink_slides_window_and_grow_compacts() {
    let mut b = XmlBuf::new(10).unwrap();
    b.add(Some(b"abcdefgh"), 8).unwrap();
    assert_eq!(b.shrink(3), 3);
    assert_eq!(b.used(), 5);
    assert_eq!(b.offset(), 3);
    assert_eq!(b.capacity(), 7);
    assert_eq!(b.avail(), 2);
    assert_eq!(b.shrink(6), 0);
    // 4 more bytes fit once the window moves back to the start
    b.grow(4).unwrap();
    assert_eq!(b.offset(), 0);
    assert_eq!(b.capacity(), 10);
    match b.content_ptr() {
        BufContent::Owned(s) => assert_eq!(&s[..6], b"defgh\0"),
        _ => panic!("not an owned buffer"),
    }
}

#[test]
fn grow_doubles_or_adds_slack() {
    let mut b = XmlBuf::new(10).unwrap();
    b.add(Some(b"0123456789"), 10).unwrap();
    // the size is larger than the request: it doubles
    b.grow(5).unwrap();
    assert_eq!(b.capacity(), 20);
    // the request is larger than the size: use + len + 100
    b.grow(30).unwrap();
    assert_eq!(b.capacity(), 10 + 30 + 100);
    assert_eq!(b.used(), 10);
}

#[test]
fn growth_keeps_content() {
    let mut reg = BufRegistry::new();
    let buf = xmlBufCreate(&mut reg, 2);
    assert_eq!(xmlBufAdd(&mut reg, buf, Some(b"ab"), 2), 0);
    assert_eq!(xmlBufAdd(&mut reg, buf, Some(b"cdef"), 4), 0);
    assert_eq!(xmlBufGrow(&mut reg, buf, 1000), 0);
    assert_eq!(xmlBufAdd(&mut reg, buf, Some(b"g"), 1), 0);
    assert_eq!(owned_content(&reg, buf), b"abcdefg".to_vec());
}

#[test]
fn overflow_sticks() {
    let mut reg = BufRegistry::new();
    let buf = xmlBufCreate(&mut reg, 8);
    assert_eq!(xmlBufAdd(&mut reg, buf, Some(b"abc"), 3), 0);
    assert_eq!(xmlBufGrow(&mut reg, buf, usize::MAX), -1);
    assert_eq!(xmlBufIsEmpty(&reg, buf), -1);
    assert_eq!(xmlBufAvail(&reg, buf), 0);
    assert_eq!(xmlBufUse(&reg, buf), 0);
    assert_eq!(xmlBufAdd(&mut reg, buf, Some(b"x"), 1), -1);
    assert_eq!(xmlBufGrow(&mut reg, buf, 1), -1);
    assert_eq!(xmlBufAddLen(&mut reg, buf, 1), -1);
    assert_eq!(xmlBufShrink(&mut reg, buf, 1), 0);
    assert!(xmlBufDetach(&mut reg, buf).is_none());
    assert!(matches!(xmlBufContent(&reg, buf), BufContent::Null));
    assert!(xmlBufEnd(&reg, buf).is_none());
    xmlBufEmpty(&mut reg, buf);
    assert_eq!(xmlBufIsEmpty(&reg, buf), -1);
}

#[test]
fn grow_past_limit_is_capacity_exceeded() {
    let mut b = XmlBuf::new(4).unwrap();
    b.add(Some(b"ab"), 2).unwrap();
    assert_eq!(b.grow(MAX_SIZE), Err(BufError::CapacityExceeded));
    assert!(b.is_error());
    assert_eq!(b.add(Some(b"c"), 1), Err(BufError::NotWritable));
}

#[test]
fn add_len_counts_written_room() {
    let mut b = XmlBuf::new(8).unwrap();
    b.add(Some(b"ab"), 2).unwrap();
    assert_eq!(b.end().unwrap().len(), 7);
    assert_eq!(b.add_len(7), Err(BufError::CapacityExceeded));
    assert_eq!(b.add_len(3), Ok(()));
    assert_eq!(b.used(), 5);
    assert_eq!(b.avail(), 3);
    match b.content_ptr() {
        BufContent::Owned(s) => assert_eq!(s[5], 0),
        _ => panic!("not an owned buffer"),
    }
}

#[test]
fn static_buffer_is_read_only() {
    let mut reg = BufRegistry::new();
    let text = b"fixed\0";
    let buf = xmlBufCreateMem(&mut reg, Some(&text[..]), 0x2000, 5, 1);
    assert_ne!(buf, 0);
    assert_eq!(xmlBufAdd(&mut reg, buf, Some(b"x"), 1), -1);
    assert_eq!(xmlBufGrow(&mut reg, buf, 1), -1);
    assert_eq!(xmlBufShrink(&mut reg, buf, 1), 0);
    assert!(xmlBufDetach(&mut reg, buf).is_none());
    assert!(xmlBufEnd(&reg, buf).is_none());
    assert!(matches!(xmlBufContent(&reg, buf), BufContent::Static(0x2000)));
    assert_eq!(xmlBufUse(&reg, buf), 5);
    assert_eq!(xmlBufIsEmpty(&reg, buf), 0);
}

#[test]
fn static_buffer_needs_terminator() {
    let text = b"fixedX";
    assert_eq!(
        XmlBuf::new_from_mem(Some(&text[..]), 0x2000, 5, true).unwrap_err(),
        BufError::InvalidArgument
    );
    assert_eq!(
        XmlBuf::new_from_mem(None, 0, 5, false).unwrap_err(),
        BufError::InvalidArgument
    );
    let mut reg = BufRegistry::new();
    assert_eq!(xmlBufCreateMem(&mut reg, Some(&text[..]), 0x2000, 5, 1), 0);
}

#[test]
fn owned_copy_from_memory() {
    let mut reg = BufRegistry::new();
    let buf = xmlBufCreateMem(&mut reg, Some(b"copy"), 0, 4, 0);
    assert_ne!(buf, 0);
    assert_eq!(owned_content(&reg, buf), b"copy".to_vec());
    assert_eq!(xmlBufAvail(&reg, buf), 0);
    assert_eq!(xmlBufAdd(&mut reg, buf, Some(b"!"), 1), 0);
    assert_eq!(owned_content(&reg, buf), b"copy!".to_vec());
}

#[test]
fn detach_hands_out_content_and_terminator() {
    let mut b = XmlBuf::new(32).unwrap();
    b.add(Some(b"payload"), 7).unwrap();
    b.shrink(3);
    let out = b.detach().unwrap();
    assert_eq!(out, b"load\0".to_vec());
    assert_eq!(out.len(), 4 + 1);
    assert_eq!(b.used(), 0);
    assert_eq!(b.avail(), 0);
    b.add(Some(b"again"), 5).unwrap();
    assert_eq!(b.detach().unwrap(), b"again\0".to_vec());
}

#[test]
fn freed_handle_is_not_found() {
    let mut reg = BufRegistry::new();
    let buf = xmlBufCreate(&mut reg, 8);
    assert_eq!(xmlBufAdd(&mut reg, buf, Some(b"abc"), 3), 0);
    xmlBufFree(&mut reg, buf);
    assert_eq!(xmlBufAdd(&mut reg, buf, Some(b"x"), 1), -1);
    assert_eq!(xmlBufCat(&mut reg, buf, Some(b"x")), -1);
    assert_eq!(xmlBufGrow(&mut reg, buf, 1), -1);
    assert_eq!(xmlBufAddLen(&mut reg, buf, 0), -1);
    assert_eq!(xmlBufIsEmpty(&reg, buf), -1);
    assert_eq!(xmlBufAvail(&reg, buf), 0);
    assert_eq!(xmlBufUse(&reg, buf), 0);
    assert_eq!(xmlBufShrink(&mut reg, buf, 1), 0);
    assert!(xmlBufDetach(&mut reg, buf).is_none());
    assert!(matches!(xmlBufContent(&reg, buf), BufContent::Null));
    assert!(xmlBufEnd(&reg, buf).is_none());
    assert!(xmlBufUpdateInput(&reg, buf, 0).is_none());
    xmlBufFree(&mut reg, buf);
    assert_eq!(xmlBufIsEmpty(&reg, 0), -1);
}

#[test]
fn handles_start_above_reserved_and_are_not_reused() {
    let mut reg = BufRegistry::new();
    let a = xmlBufCreate(&mut reg, 1);
    assert_eq!(a, FIRST_HANDLE);
    let b = xmlBufCreate(&mut reg, 1);
    assert_eq!(b, FIRST_HANDLE + 1);
    xmlBufFree(&mut reg, a);
    let c = xmlBufCreate(&mut reg, 1);
    assert_ne!(c, a);
    assert_ne!(c, b);
    assert_eq!(xmlBufIsEmpty(&reg, b), 1);
}

#[test]
fn update_input_positions() {
    let mut reg = BufRegistry::new();
    let buf = xmlBufCreate(&mut reg, 16);
    xmlBufAdd(&mut reg, buf, Some(b"<a/>"), 4);
    let w = xmlBufUpdateInput(&reg, buf, 2).unwrap();
    assert_eq!(w.cur, 2);
    assert_eq!(w.end, 4);
    match w.base {
        BufContent::Owned(s) => assert_eq!(&s[..4], b"<a/>"),
        _ => panic!("not an owned buffer"),
    }
}

#[test]
fn cat_of_missing_string_adds_nothing() {
    let mut reg = BufRegistry::new();
    let buf = xmlBufCreate(&mut reg, 4);
    assert_eq!(xmlBufCat(&mut reg, buf, None), 0);
    assert_eq!(xmlBufUse(&reg, buf), 0);
}
