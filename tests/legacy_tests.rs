use xml2buf::legacy::{
    xmlBufferAdd, xmlBufferAddHead, xmlBufferCCat, xmlBufferCat, xmlBufferContent,
    xmlBufferCreate, xmlBufferCreateSize, xmlBufferCreateStatic, xmlBufferDetach, xmlBufferEmpty,
    xmlBufferGrow, xmlBufferLength, xmlBufferResize, xmlBufferSetAllocationScheme,
    xmlBufferShrink, xmlBufferWriteCHAR, xmlBufferWriteChar, xmlBufferWriteQuotedString,
    xmlGetBufferAllocationScheme, xmlSetBufferAllocationScheme, XmlBuffer, LEGACY_MAX,
    XML_BUFFER_ALLOC_EXACT, XML_BUFFER_ALLOC_IO,
};
use xml2buf::registry::{
    xmlBufAdd, xmlBufBackToBuffer, xmlBufCreate, xmlBufCreateMem, xmlBufFromBuffer,
    xmlBufAvail, xmlBufGrow, xmlBufIsEmpty, xmlBufSetOutOfMemory, xmlBufShrink,
    xmlBufStorageLen, xmlBufUse, BufRegistry, Handover,
};

fn content(b: &XmlBuffer) -> Vec<u8> {
    xmlBufferContent(b).unwrap().to_vec()
}

fn quote_into_roomy_record(text: &[u8]) -> Vec<u8> {
    let mut b = xmlBufferCreate();
    xmlBufferWriteQuotedString(&mut b, Some(text));
    content(&b)
}

#[test]
fn quoted_plain_text() {
    assert_eq!(quote_into_roomy_record(b"foo"), b"\"foo\"".to_vec());
}

#[test]
fn quoted_double_quote_only() {
    assert_eq!(quote_into_roomy_record(b"a\"b"), b"'a\"b'".to_vec());
}

#[test]
fn quoted_both_quotes() {
    assert_eq!(quote_into_roomy_record(b"a\"b'c"), b"\"a&quot;b'c\"".to_vec());
}

#[test]
fn quoted_single_quote_only_is_not_escaped() {
    assert_eq!(quote_into_roomy_record(b"it's"), b"\"it's\"".to_vec());
    assert_eq!(quote_into_roomy_record(b""), b"\"\"".to_vec());
}

#[test]
fn quoted_missing_string_writes_nothing() {
    let mut b = xmlBufferCreate();
    xmlBufferWriteQuotedString(&mut b, None);
    assert_eq!(xmlBufferLength(&b), 0);
}

#[test]
fn quoted_pieces_that_do_not_fit_are_left_out() {
    let mut b = xmlBufferCreateSize(4).unwrap();
    xmlBufferWriteQuotedString(&mut b, Some(b"\"'"));
    // `"`, then `&quot;` does not fit, then `'` and the closing `"` do
    assert_eq!(content(&b), b"\"'\"".to_vec());
}

#[test]
fn create_has_default_room() {
    let b = xmlBufferCreate();
    assert_eq!(b.size, 256);
    assert_eq!(b.use_, 0);
    assert_eq!(b.alloc, XML_BUFFER_ALLOC_IO);
    assert_eq!(xmlBufferLength(&b), 0);
}

#[test]
fn create_size_bounds() {
    assert!(xmlBufferCreateSize(LEGACY_MAX as usize).is_none());
    let b = xmlBufferCreateSize(0).unwrap();
    assert_eq!(b.mem.as_ref().unwrap().len(), 1);
    assert_eq!(b.size, 1);
    assert_eq!(b.mem.as_ref().unwrap()[0], 0);
    let s = xmlBufferCreateStatic(Some(b""), 0).unwrap();
    assert_eq!(s.size, 1);
    assert_eq!(xmlBufferLength(&s), 0);
    let b = xmlBufferCreateSize(10).unwrap();
    assert_eq!(b.size, 11);
}

#[test]
fn create_static_copies_bytes() {
    let b = xmlBufferCreateStatic(Some(b"hello"), 5).unwrap();
    assert_eq!(content(&b), b"hello".to_vec());
    assert_eq!(b.size, 6);
    assert_eq!(b.mem.as_ref().unwrap()[5], 0);
}

#[test]
fn add_does_not_grow() {
    let mut b = xmlBufferCreateSize(4).unwrap();
    assert_eq!(xmlBufferAdd(&mut b, Some(b"abcd"), 4), 0);
    assert_eq!(xmlBufferAdd(&mut b, Some(b"e"), 1), -1);
    assert_eq!(content(&b), b"abcd".to_vec());
    assert_eq!(xmlBufferAdd(&mut b, None, 1), -1);
    assert_eq!(xmlBufferAdd(&mut b, Some(b""), 0), 0);
}

#[test]
fn cat_forms_append_strings() {
    let mut b = xmlBufferCreate();
    assert_eq!(xmlBufferCat(&mut b, Some(b"ab")), 0);
    assert_eq!(xmlBufferCCat(&mut b, Some(b"cd")), 0);
    xmlBufferWriteCHAR(&mut b, Some(b"ef"));
    xmlBufferWriteChar(&mut b, Some(b"gh"));
    assert_eq!(content(&b), b"abcdefgh".to_vec());
    assert_eq!(xmlBufferCat(&mut b, None), -1);
}

#[test]
fn add_head_grows_and_prepends() {
    let mut b = xmlBufferCreateSize(3).unwrap();
    assert_eq!(xmlBufferAdd(&mut b, Some(b"xyz"), 3), 0);
    assert_eq!(xmlBufferAddHead(&mut b, Some(b"abc"), 3), 0);
    assert_eq!(content(&b), b"abcxyz".to_vec());
    assert!(b.size as usize > 6);
    let m = b.mem.as_ref().unwrap();
    assert_eq!(m[b.start + 6], 0);
    assert_eq!(xmlBufferAddHead(&mut b, None, 1), -1);
    assert_eq!(xmlBufferAddHead(&mut b, Some(b""), -1), 0);
}

#[test]
fn grow_reports_room() {
    let mut b = xmlBufferCreateSize(9).unwrap();
    assert_eq!(b.size, 10);
    // room already there
    assert_eq!(xmlBufferGrow(&mut b, 5), 0);
    assert_eq!(xmlBufferAdd(&mut b, Some(b"abcdef"), 6), 0);
    // the size is larger than the request: it doubles
    assert_eq!(xmlBufferGrow(&mut b, 5), 20 - 6 - 1);
    assert_eq!(b.size, 20);
    // the request is larger: use + len + 1
    assert_eq!(xmlBufferGrow(&mut b, 50), 50);
    assert_eq!(b.size, 57);
    assert_eq!(content(&b), b"abcdef".to_vec());
    // past the 32-bit limit
    assert_eq!(xmlBufferGrow(&mut b, u32::MAX - 10), -1);
    assert_eq!(b.size, 57);
}

#[test]
fn resize_reports_one_or_zero() {
    let mut b = xmlBufferCreateSize(9).unwrap();
    assert_eq!(xmlBufferResize(&mut b, 5), 1);
    assert_eq!(b.size, 10);
    assert_eq!(xmlBufferResize(&mut b, 40), 1);
    assert_eq!(b.size, 41);
    assert_eq!(xmlBufferResize(&mut b, u32::MAX), 0);
}

#[test]
fn shrink_slides_window_in_io_mode() {
    let mut b = xmlBufferCreateSize(10).unwrap();
    xmlBufferAdd(&mut b, Some(b"abcdef"), 6);
    assert_eq!(xmlBufferShrink(&mut b, 0), 0);
    assert_eq!(xmlBufferShrink(&mut b, 7), -1);
    assert_eq!(xmlBufferShrink(&mut b, 2), 2);
    assert_eq!(b.start, 2);
    assert_eq!(b.size, 9);
    assert_eq!(content(&b), b"cdef".to_vec());
    xmlBufferEmpty(&mut b);
    assert_eq!(b.start, 0);
    assert_eq!(b.size, 11);
    assert_eq!(xmlBufferLength(&b), 0);
}

#[test]
fn shrink_moves_bytes_in_other_modes() {
    let mut b = xmlBufferCreateSize(10).unwrap();
    b.alloc = 0;
    xmlBufferAdd(&mut b, Some(b"abcdef"), 6);
    assert_eq!(xmlBufferShrink(&mut b, 2), 2);
    assert_eq!(b.start, 0);
    assert_eq!(b.size, 11);
    assert_eq!(content(&b), b"cdef".to_vec());
    assert_eq!(b.mem.as_ref().unwrap()[4], 0);
}

#[test]
fn detach_copies_an_advanced_window() {
    let mut b = xmlBufferCreateSize(10).unwrap();
    xmlBufferAdd(&mut b, Some(b"abcdef"), 6);
    xmlBufferShrink(&mut b, 2);
    let out = xmlBufferDetach(&mut b).unwrap();
    assert_eq!(out, b"cdef\0".to_vec());
    assert!(b.mem.is_none());
    assert_eq!(b.size, 0);
    assert_eq!(b.use_, 0);
    assert!(xmlBufferDetach(&mut b).is_none());
}

#[test]
fn detach_hands_out_whole_allocation() {
    let mut b = xmlBufferCreateSize(4).unwrap();
    xmlBufferAdd(&mut b, Some(b"ab"), 2);
    let out = xmlBufferDetach(&mut b).unwrap();
    assert_eq!(out.len(), 5);
    assert_eq!(&out[..3], b"ab\0");
}

#[test]
fn allocation_scheme_is_fixed() {
    xmlSetBufferAllocationScheme(3);
    assert_eq!(xmlGetBufferAllocationScheme(), XML_BUFFER_ALLOC_EXACT);
    let mut b = xmlBufferCreate();
    xmlBufferSetAllocationScheme(&mut b, 3);
    assert_eq!(b.alloc, XML_BUFFER_ALLOC_IO);
    assert_eq!(xmlGetBufferAllocationScheme(), 1);
}

#[test]
fn from_buffer_copies_content() {
    let mut reg = BufRegistry::new();
    let rec = xmlBufferCreateStatic(Some(b"legacy"), 6).unwrap();
    let buf = xmlBufFromBuffer(&mut reg, Some(&rec));
    assert_ne!(buf, 0);
    assert_eq!(xmlBufUse(&reg, buf), 6);
    assert_eq!(xmlBufAdd(&mut reg, buf, Some(b"!"), 1), 0);
    assert_eq!(xmlBufUse(&reg, buf), 7);
    assert_eq!(content(&rec), b"legacy".to_vec());
    assert_eq!(xmlBufFromBuffer(&mut reg, None), 0);
    let mut empty = xmlBufferCreateSize(0).unwrap();
    xmlBufferDetach(&mut empty);
    assert!(empty.mem.is_none());
    let buf2 = xmlBufFromBuffer(&mut reg, Some(&empty));
    assert_eq!(xmlBufIsEmpty(&reg, buf2), 1);
    assert_eq!(xmlBufAvail(&reg, buf2), 50);
}

#[test]
fn back_to_buffer_moves_storage() {
    let mut reg = BufRegistry::new();
    let buf = xmlBufCreate(&mut reg, 10);
    xmlBufAdd(&mut reg, buf, Some(b"abcdef"), 6);
    xmlBufShrink(&mut reg, buf, 2);
    match xmlBufBackToBuffer(&mut reg, buf) {
        Handover::Moved(rec) => {
            assert_eq!(rec.start, 2);
            assert_eq!(rec.use_, 4);
            assert_eq!(rec.size, 9);
            assert_eq!(rec.alloc, XML_BUFFER_ALLOC_IO);
            assert_eq!(content(&rec), b"cdef".to_vec());
        },
        _ => panic!("buffer was not handed over"),
    }
    assert_eq!(xmlBufIsEmpty(&reg, buf), -1);
    assert!(matches!(xmlBufBackToBuffer(&mut reg, buf), Handover::Missing));
}

#[test]
fn back_to_buffer_refuses_static_and_errored() {
    let mut reg = BufRegistry::new();
    let s = xmlBufCreateMem(&mut reg, Some(b"ro\0"), 0x10, 2, 1);
    assert!(matches!(xmlBufBackToBuffer(&mut reg, s), Handover::Refused));
    assert_eq!(xmlBufIsEmpty(&reg, s), -1);
    let e = xmlBufCreate(&mut reg, 1);
    assert_eq!(xmlBufGrow(&mut reg, e, usize::MAX), -1);
    assert!(matches!(xmlBufBackToBuffer(&mut reg, e), Handover::Refused));
    assert!(matches!(xmlBufBackToBuffer(&mut reg, 0), Handover::Missing));
}

#[test]
fn back_to_buffer_moves_short_writable_buffer() {
    let mut reg = BufRegistry::new();
    let buf = xmlBufCreate(&mut reg, 3);
    assert_eq!(xmlBufStorageLen(&reg, buf), 4);
    xmlBufAdd(&mut reg, buf, Some(b"xyz"), 3);
    match xmlBufBackToBuffer(&mut reg, buf) {
        Handover::Moved(rec) => {
            assert_eq!(rec.size, 4);
            assert_eq!(content(&rec), b"xyz".to_vec());
            assert_eq!(rec.mem.as_ref().unwrap().len(), 4);
            assert_eq!(rec.mem.as_ref().unwrap()[3], 0);
        },
        _ => panic!("buffer was not handed over"),
    }
    assert_eq!(xmlBufStorageLen(&reg, buf), 0);
}

#[test]
fn out_of_memory_sticks() {
    let mut reg = BufRegistry::new();
    let buf = xmlBufCreate(&mut reg, 8);
    xmlBufAdd(&mut reg, buf, Some(b"ab"), 2);
    xmlBufSetOutOfMemory(&mut reg, buf);
    assert_eq!(xmlBufIsEmpty(&reg, buf), -1);
    assert_eq!(xmlBufAdd(&mut reg, buf, Some(b"c"), 1), -1);
    assert!(matches!(xmlBufBackToBuffer(&mut reg, buf), Handover::Refused));
    let s = xmlBufCreateMem(&mut reg, Some(b"ro\0"), 0x10, 2, 1);
    xmlBufSetOutOfMemory(&mut reg, s);
    assert_eq!(xmlBufIsEmpty(&reg, s), 0);
}

#[test]
fn add_head_keeps_terminator() {
    let mut b = xmlBufferCreateSize(2).unwrap();
    assert_eq!(xmlBufferAddHead(&mut b, Some(b"b"), 1), 0);
    assert_eq!(xmlBufferAddHead(&mut b, Some(b"a"), -1), 0);
    assert_eq!(content(&b), b"ab".to_vec());
    assert_eq!(b.mem.as_ref().unwrap()[b.start + 2], 0);
}
