use mandelbrot::ordering::compare;
use std::cmp::Ordering::{Equal, Greater, Less};
use std::mem::size_of;

#[test]
fn main_test_as() {
    assert_eq!(10_i8 as i16, 10_i16);
    assert_eq!(2525_u16 as i16, 2525_i16);

    assert_eq!(-1_i16 as i32, -1_i32);
    assert_eq!(65535_u16 as i32, 65535_i32);

    assert_eq!(1000_i16 as u8, 232_u8);
    assert_eq!(65535_u16 as i32, 65535_i32);

    assert_eq!(-1_i8 as u8, 255_u8);
    assert_eq!(255_u8 as i8, -1_i8);
}

#[test]
fn main_test_calc() {
    assert_eq!(2_u16.pow(4), 16);
    assert_eq!((-4_i32).abs(), 4);
    assert_eq!(0b101101_u8.count_ones(), 4);
}

#[test]
fn main_test_checked() {
    assert_eq!(10_u8.checked_add(20), Some(30));
    assert_eq!(100_u8.checked_add(200), None);
    assert_eq!((-128_i8).checked_div(-1), None);
}

#[test]
fn main_test_wrapping() {
    assert_eq!(100_u16.wrapping_mul(200), 20000);
    assert_eq!(500_u16.wrapping_mul(500), 53392);

    assert_eq!(500_i16.wrapping_mul(500), -12144);

    assert_eq!(5_i16.wrapping_shl(17), 10);
}

#[test]
fn main_test_saturating() {
    assert_eq!(32760_i16.saturating_add(10), 32767);
    assert_eq!((-32760_i16).saturating_sub(10), -32768);
}

#[test]
fn main_test_overflowing() {
    assert_eq!(255_u8.overflowing_sub(2), (253, false));
    assert_eq!(255_u8.overflowing_add(2), (1, true));

    assert_eq!(5_u16.overflowing_shl(17), (10, true));
}

#[test]
fn main_test_float_type() {
    assert!((-1. / f32::INFINITY).is_sign_negative());
    assert_eq!(-f32::MIN, f32::MAX);

    assert_eq!(5f32.sqrt() * 5f32.sqrt(), 5.);
    assert_eq!((-1.01f64).floor(), -2.);
}

#[test]
fn main_test_bool() {
    assert_eq!(true as i32, 1);
    assert_eq!(false as i32, 0);
}

#[test]
fn main_test_char() {
    assert_eq!('*' as i32, 42);
    assert_eq!('\u{ca0}' as u16, 0xca0);
    assert_eq!('\u{ca0}' as i8, -0x60);

    assert_eq!('*'.is_alphabetic(), false);
    assert_eq!('\u{3b2}'.is_alphabetic(), true);
    assert_eq!('8'.to_digit(10), Some(8));
    assert_eq!('\u{ca0}'.len_utf8(), 3);
    assert_eq!(char::from_digit(2, 10), Some('2'));
}

#[test]
fn test_tuple() {
    let text = "I see the eigenvalue in thine eye";
    let (head, tail) = text.split_at(21);
    assert_eq!(head, "I see the eigenvalue ");
    assert_eq!(tail, "in thine eye");
}

#[test]
fn test_array() {
    let lazy_caterer: [u32; 6] = [1, 2, 4, 7, 11, 16];
    let taxonomy = ["Animalia", "Arthropoda", "Insecta"];

    assert_eq!(lazy_caterer[3], 7);
    assert_eq!(taxonomy.len(), 3);

    let mut sieve = [true; 10000];
    for i in 2..100 {
        let mut j = i * i;
        while j < 10000 {
            sieve[j] = false;
            j += i;
        }
    }

    assert!(sieve[211]);
    assert!(!sieve[9876]);

    let mut chaos = [3, 5, 4, 1, 2];
    chaos.sort();
    assert_eq!(chaos, [1, 2, 3, 4, 5]);
}

#[test]
fn test_string() {
    let method = b"GET";
    assert_eq!(method, &[b'G', b'E', b'T']);

    let noodles = "noodles".to_string();
    let oodles = &noodles[1..];
    let poodles = "\u{ca0}_\u{ca0}";

    assert_eq!(oodles, "oodles");
    assert_eq!(poodles.len(), 7);
    assert_eq!(poodles.chars().count(), 3);

    let temp = format!("{}\u{b0}{:02}\u{2032}{:02}\u{2033}N", 24, 5, 23);
    assert_eq!(temp, "24\u{b0}05\u{2032}23\u{2033}N");

    let bits = vec!["veni", "vidi", "vici"];
    assert_eq!(bits.concat(), "venividivici");
    assert_eq!(bits.join(", "), "veni, vidi, vici");

    assert!("ONE".to_lowercase() == "one");

    assert!("peanut".contains("nut"));
    assert_eq!("\u{ca0}_\u{ca0}".replace("\u{ca0}", "\u{25a0}"), "\u{25a0}_\u{25a0}");
    assert_eq!("    clean\n".trim(), "clean");

    for word in "veni, vidi, vici".split(", ") {
        assert!(word.starts_with("v"));
    }

    type Bytes = Vec<u8>;
    let b: Bytes = From::from("bors".as_bytes());

    assert_eq!(b, b"bors");
}

#[derive(Copy, Clone)]
struct Label {
    number: u32,
}

fn print_label(l: Label) {
    println!("STAMP: {}", l.number);
}

#[test]
fn test_struct_copy() {
    let l = Label { number: 3 };
    print_label(l);
    print_label(l);
}

struct Anime {
    name: &'static str,
    bechdel_pass: bool,
}

struct Point {
    x: i32,
    y: i32,
}

fn factorial(n: usize) -> usize {
    (1..n + 1).product()
}

#[test]
fn test_reference() {
    let aria = Anime {
        name: "Aria: The Animation",
        bechdel_pass: true,
    };
    let anime_ref = &aria;
    assert_eq!(anime_ref.name, "Aria: The Animation");
    assert_eq!((*anime_ref).name, "Aria: The Animation");
    assert!(anime_ref.bechdel_pass);

    let mut v = vec![1973, 1968];
    v.sort();
    (&mut v).sort();

    let x = 10;
    let y = 20;
    let mut r = &x;

    if true {
        r = &y;
    }

    assert!(*r == 10 || *r == 20);

    let point = Point { x: 1000, y: 729 };
    let r = &point;
    let rr = &r;
    let rrr = &rr;

    assert_eq!(rrr.y, 729);
    assert_eq!(rrr.x, 1000);

    let x = 10;
    let y = 10;

    let rx = &x;
    let ry = &y;

    let rrx = &rx;
    let rry = &ry;

    assert!(rrx <= rry);
    assert!(rrx == rry);

    assert!(!std::ptr::eq(rx, ry));

    assert!(rx == *rrx);

    let r = &factorial(6);
    assert_eq!(r + &1009, 1729);
}

struct Holder {
    r: &'static i32,
}

const TEN: i32 = 10;

#[test]
fn test_static_field_lifetime() {
    let s;
    {
        s = Holder { r: &TEN };
    }

    assert_eq!(*s.r, 10);
}

struct Both<'a, 'b> {
    x: &'a i32,
    y: &'b i32,
}

#[test]
fn test_unique_lifetime() {
    let x = 10;
    let r;
    {
        let y = 20;
        {
            let s: Both<'_, '_> = Both { x: &x, y: &y };
            r = s.x;
            assert_eq!(*s.y, 20);
        }
    }

    println!("{}", r);
}

#[test]
fn test_reference2() {
    let x = 10;
    let r1 = &x;
    let r2 = &x;
    assert_eq!(*r1 + *r2, 20);

    let mut y = 20;
    let m1 = &mut y;
    *m1 += 0;

    let w = (107, 109);
    let r = &w;
    let r0 = r.0;
    assert_eq!(r0, 107);

    let mut v = (136, 139);
    let m = &mut v;
    let m0 = &mut m.0;

    *m0 = 137;
    let r1 = &m.1;
    assert_eq!(*r1, 139);
    assert_eq!(v, (137, 139));
}

#[test]
fn test_if_expr() {
    let x = 5;
    let y = if x == 5 { 10 } else { 15 };
    assert_eq!(y, 10);
}

#[test]
fn test_for_ownership_move() {
    let strings: Vec<String> = vec!["Hello".to_string(), "World".to_string()];

    for s in strings.clone() {
        println!("{}", s);
    }

    println!("{}", strings.len());

    for s in &strings {
        println!("{}", s);
    }

    println!("{}", strings.len());
}

#[test]
fn test_float_to_int() {
    let x = -1.9;
    let y = x as i32;
    println!("{}", y);
    assert_eq!(y, -1);
}

#[test]
fn test_compare() {
    assert_eq!(compare(1, 2), Less);
    assert_eq!(compare(2, 1), Greater);
    assert_eq!(compare(1, 1), Equal);
}

#[test]
fn test_size_of() {
    assert_eq!(size_of::<std::cmp::Ordering>(), 1);
}
