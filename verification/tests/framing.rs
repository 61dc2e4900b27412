//! Checks, digits, headers, subpackets and file offers.

use wireline::bytes::{u16_be, u32_be, u32_le};
use wireline::crc::{crc16, crc32_table, Crc32};
use wireline::decode::{flow, take_raw, take_values, unquote};
use wireline::frame::{
    bin_header, check, esc_byte, hex_header, subpacket, Header, CANFC32, ESCCTL, ZACK, ZBIN,
    ZBIN32, ZCRCE, ZCRCG, ZCRCQ, ZCRCW, ZDATA, ZDLE, ZFILE, ZFIN, ZHEX, ZPAD, ZRINIT, ZRPOS,
    ZRQINIT, ZRUB0, ZRUB1,
};
use wireline::hex::{hex_char, hex_val, parse_hex, push_hex};
use wireline::text::{
    base_name, blank, decimal, file_info, leading_size, parse_u64, read_offer, white, write_offer,
};

#[test]
fn crc16_of_the_check_string() {
    assert_eq!(crc16(b"123456789"), 0x31c3);
    assert_eq!(crc16(b""), 0);
    assert_eq!(crc16(&[0]), 0);
    assert_eq!(crc16(&[1]), 0x1021);
}

#[test]
fn crc32_of_the_check_string() {
    let c = Crc32::new();
    assert_eq!(c.crc32(b"123456789"), 0xcbf4_3926);
    assert_eq!(c.crc32(b""), 0);
}

#[test]
fn crc32_table_values() {
    let t = crc32_table();
    assert_eq!(t[0], 0);
    assert_eq!(t[1], 0x7707_3096);
    assert_eq!(t[128], 0xedb8_8320);
    assert_eq!(t[255], 0x2d02_ef8d);
}

#[test]
fn crc32_register_update() {
    let c = Crc32::new();
    let reg = c.update(0xffff_ffff, b'a');
    assert_eq!(reg ^ 0xffff_ffff, c.crc32(b"a"));
    assert_eq!(c.crc32(b"a"), 0xe8b7_be43);
}

#[test]
fn crcs_tell_every_single_byte_change() {
    let c = Crc32::new();
    let data = b"some file data".to_vec();
    for i in 0..data.len() {
        for b in 0..=255u8 {
            if b != data[i] {
                let mut other = data.clone();
                other[i] = b;
                assert_ne!(crc16(&other), crc16(&data));
                assert_ne!(c.crc32(&other), c.crc32(&data));
                assert_ne!(check(&other, false, &c), check(&data, false, &c));
                assert_ne!(check(&other, true, &c), check(&data, true, &c));
            }
        }
    }
}

#[test]
fn check_bytes_order() {
    let c = Crc32::new();
    assert_eq!(check(b"123456789", false, &c), vec![0x31, 0xc3]);
    assert_eq!(check(b"123456789", true, &c), vec![0x26, 0x39, 0xf4, 0xcb]);
}

#[test]
fn words_as_bytes() {
    assert_eq!(u16_be(0x1234), [0x12, 0x34]);
    assert_eq!(u32_le(0x1234_5678), [0x78, 0x56, 0x34, 0x12]);
    assert_eq!(u32_be(0x1234_5678), [0x12, 0x34, 0x56, 0x78]);
}

#[test]
fn header_words() {
    let h = Header { enc: ZHEX, typ: ZRPOS, data: [0x78, 0x56, 0x34, 0x12] };
    assert_eq!(h.pos(), 0x1234_5678);
    assert_eq!(h.flags(), 0x7856_3412);
    let z = Header { enc: ZHEX, typ: ZRINIT, data: [0, 0, 0, 0x23] };
    assert_eq!(z.flags(), 0x23);
}

#[test]
fn hex_digits() {
    assert_eq!(hex_val(b'0'), Some(0));
    assert_eq!(hex_val(b'9'), Some(9));
    assert_eq!(hex_val(b'a'), Some(10));
    assert_eq!(hex_val(b'f'), Some(15));
    assert_eq!(hex_val(b'A'), Some(10));
    assert_eq!(hex_val(b'F'), Some(15));
    assert_eq!(hex_val(b'g'), None);
    assert_eq!(hex_val(b'G'), None);
    assert_eq!(hex_val(b'/'), None);
    assert_eq!(hex_val(b':'), None);
    for n in 0..16u8 {
        assert_eq!(hex_val(hex_char(n)), Some(n));
    }
    let mut out = vec![1];
    push_hex(0xaf, &mut out);
    assert_eq!(out, vec![1, b'a', b'f']);
}

#[test]
fn hex_header_digits_are_parsed() {
    assert_eq!(parse_hex(b"01020304050607"), Some([1, 2, 3, 4, 5, 6, 7]));
    assert_eq!(parse_hex(b"aAbBcCdDeEfF0099"), Some([0xaa, 0xbb, 0xcc, 0xdd, 0xee, 0xff, 0]));
    assert_eq!(parse_hex(b"0102030405060"), None);
    assert_eq!(parse_hex(b"0102030405060g"), None);
    assert_eq!(parse_hex(b""), None);
}

#[test]
fn hex_round_trip_of_seven_bytes() {
    let seven = [0u8, 1, 0x7f, 0x80, 0xff, 0x18, 0x2a];
    let mut digits = Vec::new();
    for b in seven {
        push_hex(b, &mut digits);
    }
    assert_eq!(parse_hex(&digits), Some(seven));
}

#[test]
fn hex_header_bytes() {
    // what "sz" sends first: ZRQINIT, no data
    assert_eq!(hex_header(ZRQINIT, [0; 4]), b"**\x18B00000000000000\r\n\x11".to_vec());
    // and what answers it
    assert_eq!(hex_header(ZRINIT, [0, 0, 0, 0x23]), b"**\x18B0100000023be50\r\n\x11".to_vec());
    assert_eq!(hex_header(ZFIN, [0; 4]), b"**\x18B0800000000022d\r\n".to_vec());
    assert!(!hex_header(ZACK, [1, 2, 3, 4]).ends_with(&[0x11]));
    assert!(hex_header(ZRPOS, [1, 2, 3, 4]).ends_with(b"\r\n\x11"));
}

#[test]
fn bytes_are_escaped() {
    let esc = |b: u8, last: u8, ctl: bool| {
        let mut out = Vec::new();
        esc_byte(b, last, ctl, &mut out);
        out
    };
    for b in [0x10u8, 0x90, 0x11, 0x91, 0x13, 0x93, 0x18] {
        assert_eq!(esc(b, 0, false), vec![ZDLE, b ^ 0x40]);
    }
    // CR is escaped after '@' only, with or without the high bit
    assert_eq!(esc(0x0d, 0, false), vec![0x0d]);
    assert_eq!(esc(0x0d, b'@', false), vec![ZDLE, 0x4d]);
    assert_eq!(esc(0x8d, 0xc0, false), vec![ZDLE, 0xcd]);
    // every control character on request
    assert_eq!(esc(0x01, 0, false), vec![0x01]);
    assert_eq!(esc(0x01, 0, true), vec![ZDLE, 0x41]);
    assert_eq!(esc(0x81, 0, true), vec![ZDLE, 0xc1]);
    assert_eq!(esc(0x7f, 0, true), vec![0x7f]);
    assert_eq!(esc(b'a', 0, true), vec![b'a']);
}

#[test]
fn escapes_are_undone() {
    assert_eq!(unquote(ZRUB0), 0x7f);
    assert_eq!(unquote(ZRUB1), 0xff);
    assert_eq!(unquote(0x58), 0x18);
    assert!(flow(0x11) && flow(0x13) && flow(0x91) && flow(0x93));
    assert!(!flow(0x12) && !flow(0x10));
}

#[test]
fn escaped_values_come_back() {
    let all: Vec<u8> = (0..=255).collect();
    for ctl in [false, true] {
        let mut line = Vec::new();
        let mut last = 0;
        for &b in &all {
            esc_byte(b, last, ctl, &mut line);
            last = b;
        }
        let used = line.len();
        line.extend_from_slice(b"rest");
        assert_eq!(take_values(&line, 0, 256), Some((all.clone(), used)));
        // one byte short
        assert_eq!(take_values(&line[..used - 1], 0, 256), None);
    }
}

#[test]
fn values_skip_flow_control() {
    assert_eq!(take_values(&[9, 1, 0x11, 2, 0x93, ZDLE, 0x58], 1, 3), Some((vec![1, 2, 0x18], 7)));
    assert_eq!(take_values(&[1, ZDLE], 0, 2), None);
    assert_eq!(take_values(&[], 0, 0), Some((vec![], 0)));
}

#[test]
fn bin_header_bytes() {
    let c = Crc32::new();
    let narrow = bin_header(ZDATA, [0; 4], 0, &c);
    assert_eq!(&narrow[..3], &[ZPAD, ZDLE, ZBIN]);
    let (v, used) = take_values(&narrow, 3, 7).unwrap();
    assert_eq!(&v[..5], &[ZDATA, 0, 0, 0, 0]);
    assert_eq!(&v[5..], &u16_be(crc16(&v[..5])));
    assert_eq!(used, narrow.len());

    let wide = bin_header(ZFILE, [1, 2, 3, 0x18], CANFC32, &c);
    assert_eq!(&wide[..3], &[ZPAD, ZDLE, ZBIN32]);
    let (v, used) = take_values(&wide, 3, 9).unwrap();
    assert_eq!(&v[..5], &[ZFILE, 1, 2, 3, 0x18]);
    assert_eq!(&v[5..], &u32_le(c.crc32(&v[..5])));
    assert_eq!(used, wide.len());
    assert_eq!(&wide[7..9], &[ZDLE, 0x58]);
}

#[test]
fn subpacket_bytes() {
    let c = Crc32::new();
    // "A" and the terminator: crc16("Ah")
    let sum = u16_be(crc16(b"Ah"));
    assert_eq!(subpacket(b"A", ZCRCE, 0, &c), vec![b'A', ZDLE, ZCRCE, sum[0], sum[1]]);
    assert_eq!(subpacket(b"", ZCRCG, 0, &c)[..2], [ZDLE, ZCRCG]);
}

#[test]
fn subpackets_come_back() {
    let c = Crc32::new();
    let data: Vec<u8> = (0..=255).chain([b'@', 0x0d, 0x18, 0x18]).collect();
    for flags in [0, CANFC32, ESCCTL, CANFC32 | ESCCTL] {
        for end in [ZCRCE, ZCRCG, ZCRCQ, ZCRCW] {
            let len = if flags & CANFC32 != 0 { 4 } else { 2 };
            let mut line = subpacket(&data, end, flags, &c);
            let used = line.len();
            assert!(take_raw(&line[..used - 1], len).is_none());
            line.extend_from_slice(&[1, 2, 3]);
            let raw = take_raw(&line, len).unwrap();
            assert_eq!(raw.data, data);
            assert_eq!(raw.end, end);
            assert_eq!(raw.used, used);
            let mut body = data.clone();
            body.push(end);
            assert_eq!(raw.crc, check(&body, flags & CANFC32 != 0, &c));
        }
    }
}

#[test]
fn white_space_is_that_of_char() {
    for u in 0..=0x10ffffu32 {
        if let Some(c) = char::from_u32(u) {
            assert_eq!(white(c), c.is_whitespace());
        }
    }
    assert!(blank(""));
    assert!(blank(" \t\u{3000}"));
    assert!(!blank(" a "));
}

#[test]
fn last_part_of_a_path() {
    assert_eq!(base_name("a.txt"), "a.txt");
    assert_eq!(base_name("/tmp/a.txt"), "a.txt");
    assert_eq!(base_name("C:\\tmp\\a.txt"), "a.txt");
    assert_eq!(base_name("../../etc/passwd"), "passwd");
    assert_eq!(base_name("dir/"), "");
    assert_eq!(base_name(""), "");
    assert_eq!(base_name("a/b\\c"), "c");
}

#[test]
fn sizes_are_read() {
    assert_eq!(leading_size("123 1700000000 100644"), 123);
    assert_eq!(leading_size("  7"), 7);
    assert_eq!(leading_size(""), 0);
    assert_eq!(leading_size("x1"), 0);
    assert_eq!(leading_size("1x"), 0);
    assert_eq!(leading_size("+5"), 5);
    assert_eq!(leading_size("-5"), 0);
    assert_eq!(leading_size("+"), 0);
    assert_eq!(leading_size("18446744073709551615"), u64::MAX);
    assert_eq!(leading_size("18446744073709551616"), 0);
    assert_eq!(leading_size("00042"), 42);
}

#[test]
fn words_parse_as_std_does() {
    for w in ["0", "1", "+1", "++1", "+", "", "9999999999999999999", "18446744073709551615",
        "18446744073709551616", "99999999999999999999999", "0x1", "1 ", "\u{0663}"] {
        let v: Vec<char> = w.chars().collect();
        assert_eq!(parse_u64(&v), w.parse::<u64>().ok());
    }
}

#[test]
fn decimals_print_as_std_does() {
    for n in [0u64, 1, 9, 10, 99, 100, 12345, u64::MAX] {
        assert_eq!(decimal(n), n.to_string().into_bytes());
    }
}

#[test]
fn offers_come_back() {
    for (name, size) in [("a.txt", 0u64), ("b c.bin", 4096), ("\u{fc}ber.txt", u64::MAX)] {
        assert_eq!(read_offer(&write_offer(name, size)), (name.to_string(), size));
    }
    assert_eq!(write_offer("a", 12), b"a\x0012".to_vec());
    assert_eq!(read_offer(&write_offer("/x/y", 3)), ("y".to_string(), 3));
}

#[test]
fn offers_of_other_senders() {
    assert_eq!(read_offer(b"dir/a.c\x00100 14100 100644 0 1 100\x00"), ("a.c".to_string(), 100));
    assert_eq!(read_offer(b"noname"), ("noname".to_string(), 0));
    assert_eq!(read_offer(b"a\x00"), ("a".to_string(), 0));
    assert_eq!(read_offer(b""), (String::new(), 0));
    assert_eq!(file_info("/q/r", "8 9"), ("r".to_string(), 8));
}

#[test]
fn bytes_that_are_no_text_are_replaced() {
    assert_eq!(read_offer(b"a\xff/b\xffc\x001"), ("b\u{fffd}c".to_string(), 1));
    assert_eq!(read_offer(b"a\x00\xff"), ("a".to_string(), 0));
}
