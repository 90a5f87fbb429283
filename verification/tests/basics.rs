use zcode_speed_panel::clock::day_start;
use zcode_speed_panel::exact::{Amount, Natural, Rank, Ratio};
use zcode_speed_panel::json::{parse, Json};
use zcode_speed_panel::liveio::calibration::Bpt;
use zcode_speed_panel::liveio::sessions::SessionTable;
use zcode_speed_panel::order::select;
use zcode_speed_panel::speed::{ByteRate, Speed};
use zcode_speed_panel::sums::sum;
use zcode_speed_panel::text;

fn same(a: &Natural, b: &Natural) -> bool {
    a.rank(b) == Rank::Same
}

#[test]
fn naturals_have_no_limit() {
    let top = Natural::new(u128::MAX);
    let one = Natural::new(1);
    let next = top.plus(&one);
    assert!(top.less(&next) && !next.less(&top));
    assert!(same(&next.minus(&one), &top));
    assert!(same(&next.minus(&next), &Natural::Zero) && next.minus(&next).is_zero());
    // (2^128 - 1)^2 = 2^256 - 2 * 2^128 + 1
    let square = top.times(&top);
    assert!(same(&square.plus(&next).plus(&next), &next.times(&next).plus(&one)));
    assert!(same(&Natural::new(1_000_000_007).times(&Natural::new(998_244_353)), &Natural::new(998_244_359_987_710_471)));
    assert!(same(&top.times(&Natural::Zero), &Natural::new(0)));
    assert_eq!(one.rank(&top), Rank::Below);
    assert_eq!(top.rank(&one), Rank::Above);
    // Digits of nothing at the upper end make no difference.
    let padded = Natural::Digit { low: 1, high: Box::new(Natural::Digit { low: 0, high: Box::new(Natural::Zero) }) };
    assert!(same(&padded, &one) && same(&padded.plus(&top), &next));
}

#[test]
fn fractions_are_compared_exactly() {
    let less = |a, b, c, d| Ratio::new(a, b).less(&Ratio::new(c, d));
    assert!(less(1, 3, 1, 2));
    assert!(!less(2, 4, 1, 2));
    assert!(!less(1, 2, 1, 3));
    assert!(less(u128::MAX - 1, u128::MAX, 1, 1));
    assert!(less(u128::MAX - 2, u128::MAX - 1, u128::MAX - 1, u128::MAX));
    assert!(!less(u128::MAX, 1, u128::MAX, 1));
    let third = Ratio::new(2, 3).over(2);
    assert!(!third.less(&Ratio::new(1, 3)) && !Ratio::new(1, 3).less(&third));
    assert!(!third.times(3).less(&Ratio::whole(1)) && !Ratio::whole(1).less(&third.times(3)));
    assert!(third.is_positive() && !Ratio::whole(0).is_positive());
}

#[test]
fn amounts_add_up_exactly() {
    // 1/3 - 1/2 + 1/6 = 0
    let sum = Amount::new(1, 3).plus(&Amount::new(-1, 2)).plus(&Amount::new(1, 6));
    assert!(!sum.above(0) && !sum.or_zero().is_positive());
    assert!(sum.plus(&Amount::new(1, u128::MAX)).above(0));
    assert!(!Amount::new(i128::MIN, 1).above(0));
    assert!(Amount::new(i128::MIN, 1).plus(&Amount::new(i128::MAX, 1)).plus(&Amount::new(2, 1)).above(0));
    // Exactly as much is not more.
    assert!(!Amount::new(15, 3).above(5) && Amount::new(16, 3).above(5));
    let part = Amount::share(-7, 2, 3).plus(&Amount::share(7, 3, 3));
    let (gain, loss, per) = part.parts();
    assert!(same(&gain.minus(loss), &Natural::new(7)) && same(per, &Natural::new(3)));
}

#[test]
fn numbers_are_selected_by_rank() {
    let v = [5, -3, 9, 5, 0];
    let sorted = [-3, 0, 5, 5, 9];
    for (k, expected) in sorted.iter().enumerate() {
        assert_eq!(select(&v, k), *expected);
    }
}

#[test]
fn speeds_are_compared_with_one() {
    assert!(Speed::Zero.below_one());
    assert!(!Speed::Zero.is_positive());
    assert!(!Speed::Tokens { tokens: 1, ms: 1_000 }.below_one());
    assert!(Speed::Tokens { tokens: 1, ms: 1_001 }.below_one());
    assert!(Speed::Tokens { tokens: 1, ms: 1_001 }.is_positive());
    assert!(!Speed::Tokens { tokens: 0, ms: 5 }.is_positive());
    let at = |millibytes| Speed::Stream {
        pipe: ByteRate { millibytes: Ratio::whole(millibytes), ms: 1_000 },
        bpt: Bpt { millibytes: Ratio::whole(3_000), tokens: 2 },
    };
    assert!(at(1_499).below_one());
    assert!(!at(1_500).below_one());
    assert!(at(1).is_positive());
    assert!(!at(0).is_positive());
    assert_eq!(Speed::from_tokens(5, 0), Speed::Zero);
    assert_eq!(Speed::from_tokens(5, 1), Speed::Tokens { tokens: 5, ms: 1 });
}

#[test]
fn documents_are_read() {
    let doc = parse(r#" {"a": [1, -1, 1.5, "x", null, true], "b": {"c": 18446744073709551615}} "#).unwrap();
    match doc.get("a") {
        Some(Json::Array(items)) => {
            assert_eq!(items.len(), 6);
            assert!(matches!(items[0], Json::Number(Some(1))));
            assert!(matches!(items[1], Json::Number(None)));
            assert!(matches!(items[2], Json::Number(None)));
            assert!(matches!(&items[3], Json::Text(s) if s == "x"));
            assert!(matches!(items[4], Json::Null));
            assert!(matches!(items[5], Json::Bool(true)));
        }
        other => panic!("{other:?}"),
    }
    let b = doc.get("b").unwrap();
    assert_eq!(b.get_number("c"), Some(u64::MAX));
    assert_eq!(b.get_text("c"), None);
    assert_eq!(b.get_number("d"), None);
    assert!(doc.get("a").unwrap().get("a").is_none());
    assert_eq!(parse(r#"{"t": "v"}"#).unwrap().get_text("t"), Some("v".to_string()));
    assert!(parse("{").is_none());
    assert!(parse("1 2").is_none());
}

#[test]
fn texts_are_trimmed_and_searched() {
    assert_eq!(text::trim(" \t\u{3000}a b\u{a0}\n"), "a b");
    assert_eq!(text::trim("  "), "");
    assert!(text::contains("hello", "ell"));
    assert!(text::contains("x", ""));
    assert!(!text::contains("hello", "elo"));
    assert!(text::starts_with("hello", "he"));
    assert!(!text::starts_with("he", "hello"));
    assert!(text::ends_with("hello", "llo"));
    assert!(!text::ends_with("hello", "ll"));
    assert!(text::same("生成中", "生成中"));
    assert!(!text::same("a", "ab"));
}

#[test]
fn numbers_are_parsed() {
    assert_eq!(text::parse_u64("0"), Some(0));
    assert_eq!(text::parse_u64("+7"), Some(7));
    assert_eq!(text::parse_u64("18446744073709551615"), Some(u64::MAX));
    assert_eq!(text::parse_u64("18446744073709551616"), None);
    for bad in ["", "+", "-1", " 1", "1_000", "0x1", "１"] {
        assert_eq!(text::parse_u64(bad), None, "{bad}");
        assert!(bad.parse::<u64>().is_err(), "{bad}");
    }
}

#[test]
fn sessions_have_one_process() {
    let mut t = SessionTable::new();
    assert_eq!(t.get("a"), None);
    t.insert("a".to_string(), 1);
    t.insert("b".to_string(), 2);
    t.insert("c".to_string(), 3);
    t.insert("a".to_string(), 4);
    assert_eq!((t.get("a"), t.get("b"), t.get("c")), (Some(4), Some(2), Some(3)));
    t.retain(&[4], Some("c"));
    assert_eq!((t.get("a"), t.get("b"), t.get("c")), (Some(4), None, Some(3)));
    t.retain(&[], None);
    assert_eq!((t.get("a"), t.get("c")), (None, None));
}

#[test]
fn days_begin_at_midnight_or_a_day_ago() {
    assert_eq!(day_start(100_000_000, Some(90_000_000)), 90_000_000);
    assert_eq!(day_start(100_000_000, None), 13_600_000);
}

#[test]
fn sizes_add_up() {
    assert_eq!(sum(&[]), 0);
    assert_eq!(sum(&[1, 2, 3]), 6);
    assert_eq!(sum(&[u64::MAX, u64::MAX]), 2 * (u64::MAX as u128));
}

#[test]
fn own_bytes_give_the_own_speed() {
    // 900 kB in 30 s for 1500 tokens, read back with 600 B for each.
    let pipe = ByteRate { millibytes: Ratio::whole(900_000_000), ms: 30_000 };
    let bpt = Bpt { millibytes: Ratio::whole(900_000_000), tokens: 1_500 };
    // 30000 B/s at 600 B for each token are 50 t/s.
    let (up, fifty) = (pipe.per_second(), bpt.per_token().times(50));
    assert!(!up.less(&fifty) && !fifty.less(&up));
    assert!(!Speed::Stream { pipe, bpt }.below_one());
    assert!(!Speed::from_tokens(1_500, 30_000).below_one());
}
