use guess_server::utils::{as_text, nth, rand};

#[test]
fn test_nth_small_numbers() {
    assert_eq!(nth(1), "first");
    assert_eq!(nth(2), "second");
    assert_eq!(nth(3), "third");
}

#[test]
fn test_nth_larger_numbers() {
    assert_eq!(nth(21), "21st");
    assert_eq!(nth(22), "22nd");
    assert_eq!(nth(23), "23rd");
    assert_eq!(nth(24), "24th");
}

#[test]
fn nth_named_forms() {
    assert_eq!(nth(0), "zeroth");
    assert_eq!(nth(1), "first");
    assert_eq!(nth(13), "13th");
    assert_eq!(nth(21), "21st");
    assert_eq!(nth(22), "22nd");
}

#[test]
fn nth_table() {
    let words = [
        "zeroth", "first", "second", "third", "fourth", "fifth", "sixth", "seventh", "eighth",
        "ninth", "10th", "11th", "12th", "13th",
    ];
    let mut n: u32 = 0;
    while n <= 13 {
        assert_eq!(nth(n), words[n as usize]);
        n += 1;
    }
}

#[test]
fn nth_goes_by_last_digit_alone() {
    assert_eq!(nth(14), "14th");
    assert_eq!(nth(20), "20th");
    assert_eq!(nth(100), "100th");
    assert_eq!(nth(101), "101st");
    assert_eq!(nth(111), "111st");
    assert_eq!(nth(112), "112nd");
    assert_eq!(nth(113), "113rd");
    assert_eq!(nth(1011), "1011st");
    assert_eq!(nth(4294967295), "4294967295th");
    assert_eq!(nth(4294967293), "4294967293rd");
}

#[test]
fn nth_from_14_up() {
    let mut n: u32 = 14;
    while n < 3000 {
        let suffix = match n % 10 {
            1 => "st",
            2 => "nd",
            3 => "rd",
            _ => "th",
        };
        assert_eq!(nth(n), format!("{}{}", n, suffix));
        n += 1;
    }
}

#[test]
fn rand_reduces_the_time_fraction() {
    assert_eq!(rand(0), 0);
    assert_eq!(rand(49), 49);
    assert_eq!(rand(65536), 65536);
    assert_eq!(rand(65537), 0);
    assert_eq!(rand(65538), 1);
    assert_eq!(rand(999_999_000), 35454);
    assert_eq!(rand(123_456_000), 49829);
    assert_eq!(rand(u32::MAX), 0);
}

#[test]
fn as_text_reads_both_forms() {
    assert_eq!(as_text(&nth(2)), "second");
    assert_eq!(as_text(&nth(42)), "42nd");
}
