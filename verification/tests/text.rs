use game_information_counter::order::sorted_order;
use game_information_counter::scalar::Scalar;
use game_information_counter::text::{
    chars_of, decimal_of, joined, lines_of, lowered_text, parsed, split_fields, string_of, trimmed,
    white,
};

#[test]
fn white_space_is_unicodes() {
    for n in 0..=0x10FFFFu32 {
        if let Some(c) = char::from_u32(n) {
            assert_eq!(white(c), c.is_whitespace(), "{n:#x}");
        }
    }
}

#[test]
fn lines_are_those_of_std() {
    for t in ["", "a", "a\n", "a\r\nb", "\n\n", "a\r", "a\r\r\n", "x\ny\n\nz"] {
        let want: Vec<Vec<char>> = t.lines().map(|l| l.chars().collect()).collect();
        assert_eq!(lines_of(t), want, "{t:?}");
    }
}

#[test]
fn trimming_is_that_of_std() {
    for t in ["", "  a b ", "\u{3000}x\u{a0}", "\t\n", "x"] {
        assert_eq!(string_of(&trimmed(&chars_of(t))), t.trim(), "{t:?}");
    }
}

#[test]
fn numbers_read_as_std_reads_them() {
    for t in ["", "0", "007", "+5", "-5", "+", "4294967295", "4294967296", "1 ", "x", "99999999999999999999"] {
        let want = t.parse::<u32>().ok().map(u64::from);
        assert_eq!(parsed(&chars_of(t), u32::MAX as u64), want, "{t:?}");
    }
    for n in [0, 9, 10, 12345, u64::MAX] {
        assert_eq!(string_of(&decimal_of(n)), n.to_string());
    }
}

#[test]
fn fields_are_those_of_std() {
    for t in ["", ",", "a,b", "a,,b,"] {
        let want: Vec<Vec<char>> = t.split(',').map(|l| l.chars().collect()).collect();
        assert_eq!(split_fields(&chars_of(t), ','), want, "{t:?}");
    }
    assert_eq!(string_of(&joined(&vec!["a".into(), "b".into()], ", ")), "a, b");
    assert_eq!(string_of(&lowered_text(&chars_of("AbЖ"))), "abЖ");
}

#[test]
fn sorting_is_stable() {
    let keys = vec![vec![2, 1], vec![1], vec![2], vec![1], vec![]];
    assert_eq!(sorted_order(&keys), vec![4, 1, 3, 2, 0]);
}

#[test]
fn scalars_compare_as_numbers() {
    let values = [0.0f32, -0.0, 1.5, -1.5, f32::MAX, f32::MIN, f32::INFINITY, f32::NEG_INFINITY, f32::NAN, 1e-40];
    let s = |x: f32| Scalar::from_bits(x.to_bits());
    for a in values {
        for b in values {
            assert_eq!(s(a).lt(s(b)), a < b, "{a} {b}");
            assert_eq!(s(a).le(s(b)), a <= b, "{a} {b}");
            if !(a.is_nan() && b.is_nan()) {
                assert_eq!(f32::from_bits(s(a).max(s(b)).bits), a.max(b), "{a} {b}");
            }
        }
        let clamped = f32::from_bits(s(a).clamp(s(-1.0), s(1.0)).bits);
        assert!(clamped == a.clamp(-1.0, 1.0) || a.is_nan() && clamped.is_nan(), "{a}");
    }
}
