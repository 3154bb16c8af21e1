use guess_server::config::MAX_LEN;
use guess_server::protocol::{
    decode, draw_secret, find_nul, on_close, on_open, on_payload, on_probe, Frame, Outcome,
};
use guess_server::session::Registry;

fn text_of(outcome: Outcome) -> String {
    match outcome.message() {
        Some(message) => message,
        None => panic!("no text for {:?}", outcome),
    }
}

#[test]
fn scenario_high_then_won() {
    let mut registry = Registry::new();
    assert_eq!(on_open(&mut registry, 1, 49), Outcome::Welcome);
    assert_eq!(registry.get(1).map(|game| game.secret()), Some(50));

    assert_eq!(on_probe(&registry, 1, 3), None);
    let first = on_payload(&mut registry, 1, b"75\0");
    assert_eq!(first, Outcome::TooHigh { attempt: 1 });
    assert_eq!(text_of(first), "Your first guess was too high");
    assert!(!first.closes_connection());
    assert!(!first.is_failure());

    let second = on_payload(&mut registry, 1, b"50\0");
    assert_eq!(second, Outcome::Won { secret: 50, attempt: 2 });
    assert_eq!(second.frames().last(), Some(&Frame::Close));
    assert!(text_of(second).contains("on your second try"));
    assert_eq!(text_of(second), "You guessed 50 on your second try! Refresh to play again");
    assert!(second.closes_connection());
    assert!(!second.is_failure());
}

#[test]
fn scenario_test_seam_with_fixed_secret() {
    let mut registry = Registry::new();
    let _ = registry.create_or_get(1, 50);
    assert_eq!(on_payload(&mut registry, 1, b"75\0"), Outcome::TooHigh { attempt: 1 });
    assert_eq!(on_payload(&mut registry, 1, b"25\0"), Outcome::TooLow { attempt: 2 });
    assert_eq!(text_of(Outcome::TooLow { attempt: 2 }), "Your second guess was too low");
    assert_eq!(on_payload(&mut registry, 1, b"50\0"), Outcome::Won { secret: 50, attempt: 3 });
}

#[test]
fn scenario_payload_of_length_nine() {
    let mut registry = Registry::new();
    let _ = registry.create_or_get(1, 50);
    assert_eq!(on_payload(&mut registry, 1, b"10\0"), Outcome::TooLow { attempt: 1 });

    assert_eq!(on_probe(&registry, 1, 9), Some(Outcome::TooBig));
    let outcome = on_payload(&mut registry, 1, b"12345678\0");
    assert_eq!(outcome, Outcome::TooBig);
    assert_eq!(text_of(outcome), "Request too big");
    assert!(outcome.closes_connection());
    assert!(outcome.is_failure());
    assert_eq!(registry.get(1).map(|game| game.guesses()), Some(1));
    assert_eq!(registry.len(), 1);

    assert_eq!(on_payload(&mut registry, 1, b"50\0\0\0\0\0\0\0"), Outcome::TooBig);
    assert_eq!(registry.get(1).map(|game| (game.guesses(), game.is_done())), Some((1, false)));
}

#[test]
fn scenario_close_without_messages() {
    let mut registry = Registry::new();
    assert_eq!(on_open(&mut registry, 1, 0), Outcome::Welcome);
    assert_eq!(on_open(&mut registry, 2, 1000), Outcome::Welcome);
    let before = registry.len();
    assert_eq!(on_close(&mut registry, 1), Outcome::Closed);
    assert_eq!(registry.len(), before - 1);
    assert!(!registry.contains(1));
    assert!(registry.contains(2));

    assert_eq!(on_probe(&registry, 1, 3), Some(Outcome::NoSession));
    let outcome = on_payload(&mut registry, 1, b"50\0");
    assert_eq!(outcome, Outcome::NoSession);
    assert_eq!(outcome.message(), None);
    assert!(!outcome.closes_connection());
    assert!(outcome.is_failure());
    assert_eq!(registry.len(), 1);

    assert_eq!(on_close(&mut registry, 1), Outcome::Closed);
    assert_eq!(registry.len(), 1);
    assert_eq!(Outcome::Closed.message(), None);
    assert!(!Outcome::Closed.closes_connection());
    assert!(!Outcome::Closed.is_failure());
}

#[test]
fn open_keeps_an_existing_session() {
    let mut registry = Registry::new();
    assert_eq!(on_open(&mut registry, 5, 49), Outcome::Welcome);
    assert_eq!(on_payload(&mut registry, 5, b"1\0"), Outcome::TooLow { attempt: 1 });
    assert_eq!(on_open(&mut registry, 5, 7), Outcome::Welcome);
    assert_eq!(registry.len(), 1);
    assert_eq!(registry.get(5).map(|game| (game.secret(), game.guesses())), Some((50, 1)));
}

#[test]
fn frames_in_order() {
    assert_eq!(
        Outcome::TooBig.frames(),
        vec![Frame::Text("Request too big".to_string()), Frame::Close]
    );
    assert_eq!(
        Outcome::Won { secret: 50, attempt: 2 }.frames(),
        vec![
            Frame::Text("You guessed 50 on your second try! Refresh to play again".to_string()),
            Frame::Close
        ]
    );
    assert_eq!(
        Outcome::TooHigh { attempt: 1 }.frames(),
        vec![Frame::Text("Your first guess was too high".to_string())]
    );
    assert_eq!(
        Outcome::Invalid.frames(),
        vec![Frame::Text("Please enter a number between 1 and 100".to_string())]
    );
    assert_eq!(Outcome::NoTerminator.frames(), vec![Frame::Text("[CStr decode Error]".to_string())]);
    assert_eq!(Outcome::BadEncoding.frames(), vec![Frame::Text("[UTF-8 Error]".to_string())]);
    assert_eq!(Outcome::Welcome.frames().len(), 1);
    assert_eq!(Outcome::Closed.frames(), Vec::<Frame>::new());
    assert_eq!(Outcome::NoSession.frames(), Vec::<Frame>::new());
}

#[test]
fn welcome_text() {
    assert_eq!(
        text_of(Outcome::Welcome),
        "Welcome to the guessing game! Enter a number between 1 and 100"
    );
    assert!(!Outcome::Welcome.closes_connection());
    assert!(!Outcome::Welcome.is_failure());
}

#[test]
fn recoverable_rejections_keep_the_connection() {
    let mut registry = Registry::new();
    let _ = registry.create_or_get(1, 50);

    let outcome = on_payload(&mut registry, 1, b"50");
    assert_eq!(outcome, Outcome::NoTerminator);
    assert_eq!(text_of(outcome), "[CStr decode Error]");
    assert!(!outcome.closes_connection());
    assert!(!outcome.is_failure());

    let outcome = on_payload(&mut registry, 1, b"");
    assert_eq!(outcome, Outcome::NoTerminator);

    let outcome = on_payload(&mut registry, 1, &[0xff, 0x35, 0x00]);
    assert_eq!(outcome, Outcome::BadEncoding);
    assert_eq!(text_of(outcome), "[UTF-8 Error]");
    assert!(!outcome.closes_connection());
    assert!(!outcome.is_failure());

    let outcome = on_payload(&mut registry, 1, b"abc\0");
    assert_eq!(outcome, Outcome::Invalid);
    assert_eq!(text_of(outcome), "Please enter a number between 1 and 100");
    assert!(!outcome.closes_connection());
    assert!(!outcome.is_failure());

    assert_eq!(on_payload(&mut registry, 1, b"0\0"), Outcome::Invalid);
    assert_eq!(on_payload(&mut registry, 1, b"101\0"), Outcome::Invalid);
    assert_eq!(on_payload(&mut registry, 1, b"-5\0"), Outcome::Invalid);
    assert_eq!(on_payload(&mut registry, 1, b"\0"), Outcome::Invalid);
    assert_eq!(on_payload(&mut registry, 1, b"\0" as &[u8]), Outcome::Invalid);
    assert_eq!(on_payload(&mut registry, 1, b"\x0050\0"), Outcome::Invalid);

    assert_eq!(registry.get(1).map(|game| (game.guesses(), game.is_done())), Some((0, false)));
}

#[test]
fn late_messages_after_a_win() {
    let mut registry = Registry::new();
    let _ = registry.create_or_get(1, 50);
    assert_eq!(on_payload(&mut registry, 1, b"50\0"), Outcome::Won { secret: 50, attempt: 1 });
    assert_eq!(on_payload(&mut registry, 1, b"20\0"), Outcome::Won { secret: 50, attempt: 1 });
    assert_eq!(on_payload(&mut registry, 1, b"99\0"), Outcome::Won { secret: 50, attempt: 1 });
    assert_eq!(on_payload(&mut registry, 1, b"abc\0"), Outcome::Invalid);
    assert_eq!(registry.get(1).map(|game| (game.guesses(), game.is_done())), Some((1, true)));
    assert_eq!(
        text_of(Outcome::Won { secret: 50, attempt: 1 }),
        "You guessed 50 on your first try! Refresh to play again"
    );
}

#[test]
fn sessions_are_independent() {
    let mut registry = Registry::new();
    let _ = registry.create_or_get(1, 50);
    let _ = registry.create_or_get(2, 60);
    assert_eq!(on_payload(&mut registry, 1, b"55\0"), Outcome::TooHigh { attempt: 1 });
    assert_eq!(on_payload(&mut registry, 2, b"55\0"), Outcome::TooLow { attempt: 1 });
    assert_eq!(on_payload(&mut registry, 1, b"50\0"), Outcome::Won { secret: 50, attempt: 2 });
    assert_eq!(on_payload(&mut registry, 2, b"50\0"), Outcome::TooLow { attempt: 2 });
    assert_eq!(on_close(&mut registry, 1), Outcome::Closed);
    assert_eq!(on_payload(&mut registry, 2, b"60\0"), Outcome::Won { secret: 60, attempt: 3 });
}

#[test]
fn bytes_after_the_terminator_are_ignored() {
    assert_eq!(decode(b"42\0"), Ok(42));
    assert_eq!(decode(b"42\0zzzz"), Ok(42));
    assert_eq!(decode(b"42\0\xff\xff"), Ok(42));
    assert_eq!(decode(b"7\0\0\0\0\0\0\0"), Ok(7));
    assert_eq!(decode(b" 42 \n\0"), Ok(42));
    assert_eq!(decode(b"+42\0"), Ok(42));
    assert_eq!(decode(b"100\0"), Ok(100));
    assert_eq!(decode(b"1234567\0"), Err(Outcome::Invalid));
    assert_eq!(decode("\u{a0}9\0".as_bytes()), Ok(9));
    assert_eq!(decode("\u{3000}42\0".as_bytes()), Ok(42));
}

#[test]
fn decode_checks_in_order() {
    assert_eq!(decode(b"123456789"), Err(Outcome::TooBig));
    assert_eq!(decode(b"\xff\xff\xff\xff\xff\xff\xff\xff\xff"), Err(Outcome::TooBig));
    assert_eq!(decode(b"12345678"), Err(Outcome::NoTerminator));
    assert_eq!(decode(b"\xff\xff"), Err(Outcome::NoTerminator));
    assert_eq!(decode(b"\xffab\0"), Err(Outcome::BadEncoding));
    assert_eq!(decode(b"\xc3\0"), Err(Outcome::BadEncoding));
    assert_eq!(decode(b"\xed\xa0\x80\0"), Err(Outcome::BadEncoding));
    assert_eq!(decode(b"\xc0\x80\0"), Err(Outcome::BadEncoding));
    assert_eq!(decode("\u{e9}\0".as_bytes()), Err(Outcome::Invalid));
    assert_eq!(decode(b"abc\0"), Err(Outcome::Invalid));
}

#[test]
fn find_nul_examples() {
    assert_eq!(find_nul(b""), None);
    assert_eq!(find_nul(b"abc"), None);
    assert_eq!(find_nul(b"\0"), Some(0));
    assert_eq!(find_nul(b"ab\0cd\0"), Some(2));
}

#[test]
fn probe_limits_the_length() {
    assert_eq!(MAX_LEN, 8);
    let mut registry = Registry::new();
    let _ = registry.create_or_get(1, 50);
    let mut len: usize = 0;
    while len <= 8 {
        assert_eq!(on_probe(&registry, 1, len), None);
        len += 1;
    }
    assert_eq!(on_probe(&registry, 1, 9), Some(Outcome::TooBig));
    assert_eq!(on_probe(&registry, 1, usize::MAX), Some(Outcome::TooBig));
    assert_eq!(on_probe(&registry, 2, 0), Some(Outcome::NoSession));
    assert_eq!(on_probe(&registry, 2, 9), Some(Outcome::NoSession));
}

#[test]
fn draw_secret_formula() {
    assert_eq!(draw_secret(0), 1);
    assert_eq!(draw_secret(49), 50);
    assert_eq!(draw_secret(99), 100);
    assert_eq!(draw_secret(100), 1);
    assert_eq!(draw_secret(65536), 37);
    assert_eq!(draw_secret(65537), 1);
    assert_eq!(draw_secret(123_456_000), 30);
    assert_eq!(draw_secret(999_999_000), 55);
    let mut nanos: u32 = 0;
    while nanos < 1_000_000_000 {
        let secret = draw_secret(nanos);
        assert!(1 <= secret && secret <= 100);
        nanos += 999_983;
    }
}

#[test]
fn ordinals_in_replies() {
    assert_eq!(text_of(Outcome::TooHigh { attempt: 3 }), "Your third guess was too high");
    assert_eq!(text_of(Outcome::TooLow { attempt: 13 }), "Your 13th guess was too low");
    assert_eq!(text_of(Outcome::TooHigh { attempt: 21 }), "Your 21st guess was too high");
    assert_eq!(
        text_of(Outcome::Won { secret: 100, attempt: 22 }),
        "You guessed 100 on your 22nd try! Refresh to play again"
    );
    assert_eq!(
        text_of(Outcome::Won { secret: 1, attempt: 111 }),
        "You guessed 1 on your 111st try! Refresh to play again"
    );
}
