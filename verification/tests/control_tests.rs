use ambilight_player::control::{is_float_token, parse_command, tokenize, Command};

#[test]
fn tokenize_splits_on_ascii_whitespace() {
    let toks = tokenize(b"  seek \t 12.5\r\n");
    assert_eq!(toks.len(), 2);
    assert_eq!(toks[0], b"seek".to_vec());
    assert_eq!(toks[1], b"12.5".to_vec());
    assert!(tokenize(b"   \t \n").is_empty());
    assert!(tokenize(b"").is_empty());
}

#[test]
fn seek_with_a_number() {
    let cmd = parse_command(b"SEEK 12.5\n");
    assert_eq!(cmd, Some(Command::Seek { seconds: b"12.5".to_vec() }));
}

#[test]
fn keywords_ignore_ascii_case() {
    assert_eq!(parse_command(b"seek 3"), Some(Command::Seek { seconds: b"3".to_vec() }));
    assert_eq!(parse_command(b"Pause"), Some(Command::Pause));
    assert_eq!(parse_command(b"RESUME"), Some(Command::Resume));
    assert_eq!(parse_command(b"stop"), Some(Command::Stop));
}

#[test]
fn seek_without_a_valid_number_is_ignored() {
    assert_eq!(parse_command(b"SEEK"), None);
    assert_eq!(parse_command(b"SEEK abc"), None);
    assert_eq!(parse_command(b"SEEK 1 2"), None);
    assert_eq!(parse_command(b"SEEK 1..2"), None);
}

#[test]
fn pause_resume_stop_take_no_arguments() {
    assert_eq!(parse_command(b"PAUSE"), Some(Command::Pause));
    assert_eq!(parse_command(b"PAUSE now"), None);
    assert_eq!(parse_command(b"RESUME"), Some(Command::Resume));
    assert_eq!(parse_command(b"STOP"), Some(Command::Stop));
    assert_eq!(parse_command(b"STOP 1"), None);
}

#[test]
fn beat_with_and_without_epoch() {
    assert_eq!(
        parse_command(b"BEAT 81.2"),
        Some(Command::Beat { position: b"81.2".to_vec(), epoch: None })
    );
    assert_eq!(
        parse_command(b"BEAT 81.2 1700000000.5"),
        Some(Command::Beat {
            position: b"81.2".to_vec(),
            epoch: Some(b"1700000000.5".to_vec()),
        })
    );
    // A malformed epoch is dropped; the heartbeat itself still counts.
    assert_eq!(
        parse_command(b"BEAT 81.2 soon"),
        Some(Command::Beat { position: b"81.2".to_vec(), epoch: None })
    );
    // A malformed position invalidates the whole line.
    assert_eq!(parse_command(b"BEAT soon"), None);
    assert_eq!(parse_command(b"BEAT 1 2 3"), None);
}

#[test]
fn unknown_or_empty_lines_are_ignored() {
    assert_eq!(parse_command(b""), None);
    assert_eq!(parse_command(b"   \t"), None);
    assert_eq!(parse_command(b"REWIND 3"), None);
    assert_eq!(parse_command(b"SEEKX 3"), None);
}

#[test]
fn float_grammar_matches_std_parsing() {
    let samples: &[&str] = &[
        "1", "1.", ".5", "1.5", "+1.5", "-1.5", "1e3", "1.5e-3", ".5E+2", "inf", "-inf",
        "Infinity", "NaN", "nan", "+infinity", "0", "007", "3.", "", ".", "+", "-", "e3", "1e",
        "1e+", "--1", "1.2.3", "1,5", "0x10", "1_000", "abc", " 1", "1 ", "infx", "nanx", "1f",
    ];
    for s in samples {
        assert_eq!(
            is_float_token(s.as_bytes()),
            s.parse::<f64>().is_ok(),
            "grammar disagrees with std for {:?}",
            s
        );
    }
}
