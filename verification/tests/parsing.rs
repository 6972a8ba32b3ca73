use tilemap::numfmt::parse_i32;
use tilemap::numfmt::parse_u32;
use tilemap::numfmt::parse_usize;
use tilemap::numfmt::push_i32;
use tilemap::numfmt::push_u64;
use tilemap::render::control::Control;
use tilemap::render::key::BlockProps;
use tilemap::render::key::KeyLine;
use tilemap::render::key::SplitIter;
use tilemap::text::bytes_eq;
use tilemap::text::find_byte;
use tilemap::text::split_bytes;
use tilemap::text::split_lines;

#[test]
fn decimal_formatting() {
    let mut s = String::new();
    push_u64(&mut s, 0);
    assert_eq!(s, "0");
    let mut s = String::new();
    push_u64(&mut s, 90210);
    assert_eq!(s, "90210");
    let mut s = String::from("x=");
    push_i32(&mut s, -123);
    assert_eq!(s, "x=-123");
    let mut s = String::new();
    push_i32(&mut s, i32::MIN);
    assert_eq!(s, "-2147483648");
}

#[test]
fn decimal_parsing() {
    assert_eq!(parse_usize(b"0"), Some(0));
    assert_eq!(parse_usize(b"+7"), Some(7));
    assert_eq!(parse_usize(b"1234567890"), Some(1234567890));
    assert_eq!(parse_usize(b""), None);
    assert_eq!(parse_usize(b"+"), None);
    assert_eq!(parse_usize(b"12a"), None);
    assert_eq!(parse_usize(b"-3"), None);
    assert_eq!(parse_u32(b"4294967295"), Some(4294967295));
    assert_eq!(parse_u32(b"4294967296"), None);
    assert_eq!(parse_i32(b"-42"), Some(-42));
    assert_eq!(parse_i32(b"2147483647"), Some(2147483647));
    assert_eq!(parse_i32(b"-2147483648"), Some(-2147483648));
    assert_eq!(parse_i32(b"2147483648"), None);
    assert_eq!(parse_i32(b"-"), None);
}

#[test]
fn byte_helpers() {
    assert!(bytes_eq(b"abc", b"abc"));
    assert!(!bytes_eq(b"abc", b"abd"));
    assert_eq!(find_byte(b"a,b", b','), Some(1));
    assert_eq!(find_byte(b"ab", b','), None);
    let parts = split_bytes(b"a=1,b=2,", b',');
    assert_eq!(parts, vec![b"a=1".to_vec(), b"b=2".to_vec(), b"".to_vec()]);
    let lines = split_lines(b"one\r\ntwo\nthree\n");
    assert_eq!(lines, vec![b"one".to_vec(), b"two".to_vec(), b"three".to_vec()]);
    assert_eq!(split_lines(b""), Vec::<Vec<u8>>::new());
}

#[test]
fn key_line_parsing() {
    let kl = KeyLine::try_parse(b"7 Block{minecraft:kelp}[waterlogged=true,age=3]").unwrap();
    assert_eq!(kl.id, 7);
    assert_eq!(kl.name, b"minecraft:kelp".to_vec());
    assert_eq!(kl.state, Some(b"waterlogged=true,age=3".to_vec()));
    let kl = KeyLine::try_parse(b"1 Block{minecraft:stone}").unwrap();
    assert_eq!(kl.id, 1);
    assert_eq!(kl.name, b"minecraft:stone".to_vec());
    assert_eq!(kl.state, None);
    assert_eq!(KeyLine::try_parse(b"oops").err(), Some(0));
    assert_eq!(KeyLine::try_parse(b"x Block{a}").err(), Some(0));
    assert_eq!(KeyLine::try_parse(b"3 Rock{a}").err(), Some(2));
    assert_eq!(KeyLine::try_parse(b"3 Block{a").err(), Some(8));
}

#[test]
fn block_props_from_state() {
    let kl = KeyLine::try_parse(b"7 Block{minecraft:kelp}[waterlogged=true,age=3]").unwrap();
    let parts = SplitIter::from_state(&kl.state);
    let props = BlockProps::new_from(&kl.name, &parts.0);
    assert!(props.waterlogged);
    assert!(!props.air);
    assert!(!props.water);
    let props = BlockProps::new_from(b"minecraft:air", &Vec::new());
    assert!(props.air);
    assert!(!props.waterlogged);
    let parts = SplitIter::from_state(&Some(b"waterlogged=false".to_vec()));
    let props = BlockProps::new_from(b"minecraft:stone", &parts.0);
    assert!(!props.waterlogged);
}

#[test]
fn control_lines() {
    let mut c = Control::default();
    assert_eq!(c.version, 1);
    assert!(c.modify_by(b"version:2").is_ok());
    assert_eq!(c.version, 2);
    assert!(c.modify_by(b"other:9").is_ok());
    assert_eq!(c.version, 2);
    assert_eq!(c.modify_by(b"nonsense"), Err(8));
    assert_eq!(c.modify_by(b"version:x"), Err(7));
    assert_eq!(c.version, 2);
}
