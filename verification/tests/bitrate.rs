use mediatable::bitrate::format_bitrate;

// What floating-point arithmetic gives for a run of digits: the value is
// scaled by the number of digits, written with three decimals and cut to
// five characters.
fn by_floats(input: &str) -> String {
    let mut value: f64 = input.parse().unwrap();
    let suffix = match input.len() {
        4..=6 => {
            value /= 1000f64;
            "kb/s"
        }
        7..=9 => {
            value /= 1000000f64;
            "mb/s"
        }
        _ => "bps",
    };
    let mut shown = format!("{:.3}", value);
    shown.truncate(5);
    format!("{} {}", shown, suffix)
}

#[test]
fn bitrate_megabits() {
    assert_eq!(format_bitrate(String::from("1500000")), "1.500 mb/s");
}

#[test]
fn bitrate_kilobits() {
    assert_eq!(format_bitrate(String::from("15000")), "15.00 kb/s");
}

#[test]
fn bitrate_not_a_number() {
    assert_eq!(format_bitrate(String::from("null")), "");
    assert_eq!(format_bitrate(String::from("")), "");
    assert_eq!(format_bitrate(String::from("12a4")), "");
    assert_eq!(format_bitrate(String::from("Variable")), "");
    assert_eq!(format_bitrate(String::from("١٢٣٤")), "");
}

#[test]
fn bitrate_plain_bits() {
    assert_eq!(format_bitrate(String::from("0")), "0.000 bps");
    assert_eq!(format_bitrate(String::from("7")), "7.000 bps");
    assert_eq!(format_bitrate(String::from("64")), "64.00 bps");
    assert_eq!(format_bitrate(String::from("640")), "640.0 bps");
    assert_eq!(format_bitrate(String::from("007")), "7.000 bps");
    assert_eq!(format_bitrate(String::from("1234567890")), "12345 bps");
    assert_eq!(format_bitrate(String::from("0000001234")), "1234. bps");
    assert_eq!(format_bitrate(String::from("0000000000")), "0.000 bps");
}

#[test]
fn bitrate_unit_goes_by_digit_count() {
    assert_eq!(format_bitrate(String::from("999")), "999.0 bps");
    assert_eq!(format_bitrate(String::from("0999")), "0.999 kb/s");
    assert_eq!(format_bitrate(String::from("999999")), "999.9 kb/s");
    assert_eq!(format_bitrate(String::from("0999999")), "1.000 mb/s");
    assert_eq!(format_bitrate(String::from("999999999")), "1000. mb/s");
    assert_eq!(format_bitrate(String::from("0999999999")), "99999 bps");
}

#[test]
fn bitrate_halfway_thousandths() {
    // 0.0625 and 1.0625 are binary fractions: the tie goes to the even digit.
    assert_eq!(format_bitrate(String::from("0062500")), "0.062 mb/s");
    assert_eq!(format_bitrate(String::from("1062500")), "1.062 mb/s");
    assert_eq!(format_bitrate(String::from("0187500")), "0.188 mb/s");
    assert_eq!(format_bitrate(String::from("1000500")), by_floats("1000500"));
    assert_eq!(format_bitrate(String::from("1500500")), by_floats("1500500"));
}

#[test]
fn bitrate_short_numbers_agree_with_floats() {
    for v in 0..1000u32 {
        for text in [format!("{}", v), format!("{:03}", v), format!("{:010}", v)] {
            assert_eq!(format_bitrate(text.clone()), by_floats(&text), "{}", text);
        }
    }
}

#[test]
fn bitrate_kilobits_agree_with_floats() {
    for v in 0..1000000u32 {
        if v % 7 == 0 || v % 1000 == 500 || v % 1000 == 999 {
            let text = format!("{:06}", v);
            assert_eq!(format_bitrate(text.clone()), by_floats(&text), "{}", text);
        }
    }
    for v in 0..10000u32 {
        let text = format!("{:04}", v);
        assert_eq!(format_bitrate(text.clone()), by_floats(&text), "{}", text);
    }
}

#[test]
fn bitrate_seven_digit_ties_agree_with_floats() {
    for k in 0..10000u32 {
        let text = format!("{:07}", k * 1000 + 500);
        assert_eq!(format_bitrate(text.clone()), by_floats(&text), "{}", text);
    }
}

#[test]
fn bitrate_eight_and_nine_digit_ties_agree_with_floats() {
    for k in 0..1000000u32 {
        if k % 100 == 99 || k % 1009 == 0 {
            let v = k * 1000 + 500;
            for text in [format!("{:08}", v), format!("{:09}", v)] {
                if text.len() <= 9 {
                    assert_eq!(format_bitrate(text.clone()), by_floats(&text), "{}", text);
                }
            }
        }
    }
}

#[test]
fn bitrate_megabits_agree_with_floats() {
    let mut v: u64 = 1;
    while v < 1_000_000_000 {
        for text in [format!("{:07}", v), format!("{:09}", v)] {
            if text.len() <= 9 {
                assert_eq!(format_bitrate(text.clone()), by_floats(&text), "{}", text);
            }
        }
        v = v + 1 + v / 997;
    }
}

#[test]
fn bitrate_long_numbers_agree_with_floats() {
    let mut v: u64 = 1_000_000_000;
    while v < (1u64 << 53) {
        let text = format!("{}", v);
        assert_eq!(format_bitrate(text.clone()), by_floats(&text), "{}", text);
        v = v + 1 + v / 13;
    }
}
