use eli_lib::compatible_text::{decode, CompatibleText, TextEncoding};
use eli_lib::error::ErrorKind;

fn text(contents: &str, encoding: TextEncoding) -> CompatibleText {
    CompatibleText { contents: contents.to_owned(), encoding }
}

#[test]
fn reads_each_byte_order_mark() {
    let utf8 = decode(&b"\xef\xbb\xbfplugin\r\n".to_vec()).unwrap().unwrap();
    assert_eq!(utf8.contents, "plugin\r\n");
    assert_eq!(utf8.encoding, TextEncoding::Utf8Bom);

    let little = decode(&vec![0xff, 0xfe, b'a', 0, 0x3d, 0xd8, 0x00, 0xde]).unwrap().unwrap();
    assert_eq!(little.contents, "a\u{1f600}");
    assert_eq!(little.encoding, TextEncoding::Utf16Le);

    let big = decode(&vec![0xfe, 0xff, 0, b'a', 0x4e, 0x2d]).unwrap().unwrap();
    assert_eq!(big.contents, "a中");
    assert_eq!(big.encoding, TextEncoding::Utf16Be);

    let plain = decode(&"插件\n".as_bytes().to_vec()).unwrap().unwrap();
    assert_eq!(plain.contents, "插件\n");
    assert_eq!(plain.encoding, TextEncoding::Utf8);

    let empty = decode(&Vec::new()).unwrap().unwrap();
    assert_eq!(empty.contents, "");
    assert_eq!(empty.encoding, TextEncoding::Utf8);
}

#[test]
fn leaves_legacy_bytes_to_the_code_page() {
    assert!(decode(&b"plugin\xa3\xa8bot\xa3\xa9\r\n".to_vec()).unwrap().is_none());
}

#[test]
fn refuses_broken_unicode_text() {
    let odd = decode(&vec![0xff, 0xfe, b'a']).unwrap_err();
    assert_eq!(odd.kind(), ErrorKind::InvalidData);
    assert_eq!(odd.to_string(), "UTF-16 text has an odd byte length");

    let lone = decode(&vec![0xff, 0xfe, 0x3d, 0xd8]).unwrap_err();
    assert_eq!(lone.kind(), ErrorKind::InvalidData);

    let broken = decode(&vec![0xef, 0xbb, 0xbf, 0xa3]).unwrap_err();
    assert_eq!(broken.kind(), ErrorKind::InvalidData);
}

#[test]
fn writes_back_in_the_same_encoding() {
    let contents = "a\u{1f600}中\r\n";
    for encoding in [TextEncoding::Utf8, TextEncoding::Utf8Bom, TextEncoding::Utf16Le, TextEncoding::Utf16Be] {
        let bytes = text("", encoding).encode(contents).unwrap();
        let read = decode(&bytes).unwrap().unwrap();
        assert_eq!(read.contents, contents);
        assert_eq!(read.encoding, encoding);
    }
    assert_eq!(text("", TextEncoding::Utf16Be).encode("a").unwrap(), vec![0xfe, 0xff, 0, b'a']);
    assert_eq!(text("", TextEncoding::Utf16Le).encode("a").unwrap(), vec![0xff, 0xfe, b'a', 0]);
    assert_eq!(text("", TextEncoding::Utf8Bom).encode("a").unwrap(), vec![0xef, 0xbb, 0xbf, b'a']);
    assert!(text("", TextEncoding::Gbk).encode("a").is_none());
}

#[test]
fn keeps_the_line_breaks_of_the_text() {
    assert_eq!(text("a\r\nb\r\n", TextEncoding::Utf8).newline(), "\r\n");
    assert_eq!(text("a\nb\n", TextEncoding::Utf8).newline(), "\n");
    assert_eq!(text("", TextEncoding::Utf8).newline(), "\n");
}

#[test]
fn gives_back_the_bytes_it_read() {
    let files: Vec<Vec<u8>> = vec![
        "plugin（bot）\r\n".as_bytes().to_vec(),
        b"\xef\xbb\xbfname=value\n".to_vec(),
        vec![0xff, 0xfe, 0x41, 0x00, 0x3d, 0xd8, 0x00, 0xde],
        vec![0xfe, 0xff, 0x00, 0x41, 0xd8, 0x3d, 0xde, 0x00, 0x4e, 0x2d],
        Vec::new(),
    ];
    for bytes in files {
        let text = decode(&bytes).unwrap().unwrap();
        assert_eq!(text.encode(&text.contents).unwrap(), bytes);
    }
    let text = decode(&vec![0xff, 0xfe, 0x41, 0x00, 0x3d, 0xd8, 0x00, 0xde]).unwrap().unwrap();
    assert_eq!(text.contents, "A\u{1F600}");
    assert_eq!(text.encoding, TextEncoding::Utf16Le);
}
