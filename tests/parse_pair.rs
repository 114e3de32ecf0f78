use mandelbrot::parse::{find_separator, parse_pair, DecimalInt};

#[test]
fn test_parse_pair() {
    assert_eq!(parse_pair::<i32>("  ", 'x'), None);
    assert_eq!(parse_pair::<i32>("100x", 'x'), None);
    assert_eq!(parse_pair::<i32>("x200", 'x'), None);
    assert_eq!(parse_pair::<i32>("100x200bv", 'x'), None);
    assert_eq!(parse_pair::<i32>("100x200", 'x'), Some((100, 200)));
}

#[test]
fn round_trip_i32_pairs() {
    for &(a, b) in &[(1, 1), (100, 200), (7, 2147483647), (1000, 750)] {
        for &sep in &['x', ',', '-', ' ', 'é'] {
            let text = format!("{}{}{}", a, sep, b);
            assert_eq!(parse_pair::<i32>(&text, sep), Some((a, b)));
        }
    }
}

#[test]
fn round_trip_usize_pairs() {
    for &(a, b) in &[(1usize, 9usize), (1000, 750), (usize::MAX, 3)] {
        let text = format!("{}x{}", a, b);
        assert_eq!(parse_pair::<usize>(&text, 'x'), Some((a, b)));
    }
}

#[test]
fn splits_at_first_separator() {
    assert_eq!(parse_pair::<i32>("1,2,3", ','), None);
    assert_eq!(find_separator("1,2,3", ','), Some(1));
    assert_eq!(find_separator("123", ','), None);
    assert_eq!(find_separator("", ','), None);
    assert_eq!(find_separator("éé,1", ','), Some(2));
}

#[test]
fn separator_after_wide_chars() {
    assert_eq!(parse_pair::<i32>("12é34", 'é'), Some((12, 34)));
    assert_eq!(parse_pair::<i32>("é12x4", 'x'), None);
}

#[test]
fn signs_and_ranges() {
    assert_eq!(parse_pair::<i32>("-1x+2", 'x'), Some((-1, 2)));
    assert_eq!(parse_pair::<i32>("-x2", 'x'), None);
    assert_eq!(parse_pair::<i32>("2147483648x1", 'x'), None);
    assert_eq!(parse_pair::<i32>("-2147483648x1", 'x'), Some((i32::MIN, 1)));
    assert_eq!(parse_pair::<usize>("-1x2", 'x'), None);
    assert_eq!(parse_pair::<usize>("+4x2", 'x'), Some((4, 2)));
    assert_eq!(parse_pair::<usize>(" 4x2", 'x'), None);
    assert_eq!(parse_pair::<usize>("4x2 ", 'x'), None);
    assert_eq!(parse_pair::<usize>("4_0x2", 'x'), None);
}

#[test]
fn parse_decimal_reads_whole_text() {
    assert_eq!(<i32 as DecimalInt>::parse_decimal("042"), Some(42));
    assert_eq!(<i32 as DecimalInt>::parse_decimal(""), None);
    assert_eq!(<usize as DecimalInt>::parse_decimal("18446744073709551616"), None);
    assert_eq!(<usize as DecimalInt>::parse_decimal("750"), Some(750));
}
