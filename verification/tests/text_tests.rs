use glm_os::bytes;
use glm_os::io::serial::{SerialPort, COM1_BASE};
use glm_os::ring::ByteRing;
use glm_os::sync::Spinlock;
use glm_os::text;
use glm_os::words;

fn built(f: impl Fn(&mut String)) -> String {
    let mut s = String::from("=");
    f(&mut s);
    s
}

#[test]
fn numbers_as_text() {
    assert_eq!(built(|s| text::push_dec(s, 0)), "=0");
    assert_eq!(built(|s| text::push_dec(s, u64::MAX)), "=18446744073709551615");
    assert_eq!(built(|s| text::push_hex(s, 0xBEEF, false)), "=beef");
    assert_eq!(built(|s| text::push_hex(s, 0xBEEF, true)), "=BEEF");
    assert_eq!(built(|s| text::push_hex2(s, 10, false)), "=0a");
    assert_eq!(built(|s| text::push_hexp(s, 255)), "=0xff");
    assert_eq!(built(|s| text::push_dec_right(s, 42, 5)), "=   42");
    assert_eq!(built(|s| text::push_dec_zeros(s, 7, 2)), "=07");
    assert_eq!(built(|s| text::push_hex_zeros(s, 0x1F, 4)), "=001f");
    assert_eq!(built(|s| text::push_left(s, "ab", 4)), "=ab  ");
    assert_eq!(built(|s| text::push_right(s, "ab", 4)), "=  ab");
    assert_eq!(built(|s| text::push_right(s, "abcdef", 4)), "=abcdef");
}

#[test]
fn numbers_from_text() {
    let p = |s: &str, max: u64| text::parse_uint(&text::chars_of(s), max);
    assert_eq!(p("0", 10), Some(0));
    assert_eq!(p("+17", 100), Some(17));
    assert_eq!(p("18446744073709551615", u64::MAX), Some(u64::MAX));
    assert_eq!(p("18446744073709551616", u64::MAX), None);
    assert_eq!(p("101", 100), None);
    assert_eq!(p("", 10), None);
    assert_eq!(p("+", 10), None);
    assert_eq!(p("-1", 10), None);
    assert_eq!(p("1a", 10), None);
}

#[test]
fn decimal_text_reads_back() {
    for n in [0u64, 9, 10, 12345, u64::MAX] {
        let mut s = String::new();
        text::push_dec(&mut s, n);
        assert_eq!(text::parse_uint(&text::chars_of(&s), u64::MAX), Some(n));
    }
}

#[test]
fn pieces_and_words() {
    assert_eq!(text::last_piece("/BIN/HELLO.ELF", '/'), "HELLO.ELF");
    assert_eq!(text::last_piece("plain", '/'), "plain");
    let v = text::split(&text::chars_of("a//b"), '/');
    assert_eq!(v.len(), 3);
    assert!(text::same_text("one", "one"));
    assert!(!text::same_text("one", "onE"));
    assert_eq!(text::text_of(&words::trim(&text::chars_of(" \t x y\u{a0}\n"))), "x y");
    let w = words::split_words(&text::chars_of("  run  HELLO.ELF a\u{2003}b "));
    let w: Vec<String> = w.iter().map(|c| text::text_of(c)).collect();
    assert_eq!(w, vec!["run", "HELLO.ELF", "a", "b"]);
    assert!(words::has_char(&['a', '/'], '/'));
    assert!(!words::has_char(&[], '/'));
}

#[test]
fn fields_of_bytes() {
    let mut b = [0u8; 8];
    bytes::put_be2(&mut b, 0, 0x1234);
    bytes::put_be4(&mut b, 2, 0xAABBCCDD);
    assert_eq!(b, [0x12, 0x34, 0xAA, 0xBB, 0xCC, 0xDD, 0, 0]);
    assert_eq!(bytes::get_be2(&b, 0), 0x1234);
    assert_eq!(bytes::get_be4(&b, 2), 0xAABBCCDD);
    assert_eq!(bytes::get_le2(&b, 0), 0x3412);
    let mut v = Vec::new();
    bytes::push_le8(&mut v, 0x1122334455667788);
    assert_eq!(bytes::get_le8(&v, 0), 0x1122334455667788);
    assert_eq!(bytes::get_le4(&v, 0), 0x55667788);
    bytes::put_bytes(&mut b, 6, &[1, 2]);
    assert_eq!(b[6..], [1, 2]);
}

#[test]
fn rings_keep_order() {
    let mut r = ByteRing::new(4);
    assert_eq!(r.push(b"abc"), 3);
    assert_eq!(r.push(b"def"), 1);
    assert_eq!(r.peek(2), b"ab".to_vec());
    assert_eq!(r.pop(3), b"abc".to_vec());
    assert_eq!(r.push(b"xyz"), 3);
    assert_eq!(r.pop(9), b"dxyz".to_vec());
    assert_eq!(r.pop(9), Vec::<u8>::new());
}

#[test]
fn locks_exclude() {
    let mut l = Spinlock::new(5u32);
    let g = l.lock(0x202).unwrap();
    assert!(l.lock(0x202).is_none());
    assert_eq!(l.unlock(g), 0x202);
    assert!(l.lock(0).is_some());
}

#[test]
fn the_serial_port() {
    let p = SerialPort::new(COM1_BASE);
    let w = p.init();
    assert_eq!(w[0].0, COM1_BASE + 1);
    assert!(p.transmit_empty(0x20));
    assert!(!p.transmit_empty(0));
    assert_eq!(p.write_bytes(b"a\nb"), b"a\r\nb".to_vec());
}
