use wave_visualizer::startup::{parse_args, parse_group_count, StartupError};

#[test]
fn zero_group_count_exits_with_two() {
    let e = parse_group_count("0").unwrap_err();
    assert_eq!(e, StartupError::InvalidGroupCount);
    assert_eq!(e.exit_code(), 2);
}

#[test]
fn non_numeric_group_count_exits_with_two() {
    let e = parse_group_count("abc").unwrap_err();
    assert_eq!(e, StartupError::InvalidGroupCount);
    assert_eq!(e.exit_code(), 2);
}

#[test]
fn group_count_parsing() {
    assert_eq!(parse_group_count("42"), Ok(42));
    assert_eq!(parse_group_count("+7"), Ok(7));
    assert_eq!(parse_group_count("007"), Ok(7));
    assert_eq!(parse_group_count(""), Err(StartupError::InvalidGroupCount));
    assert_eq!(parse_group_count("+"), Err(StartupError::InvalidGroupCount));
    assert_eq!(parse_group_count("-3"), Err(StartupError::InvalidGroupCount));
    assert_eq!(parse_group_count(" 3"), Err(StartupError::InvalidGroupCount));
    assert_eq!(parse_group_count("3.5"), Err(StartupError::InvalidGroupCount));
    assert_eq!(
        parse_group_count("99999999999999999999999999"),
        Err(StartupError::InvalidGroupCount)
    );
}

#[test]
fn missing_arguments_exit_with_one() {
    let args = vec!["prog".to_string(), "song.wav".to_string()];
    assert_eq!(parse_args(&args), Err(StartupError::MissingArguments));
    assert_eq!(StartupError::MissingArguments.exit_code(), 1);
    assert_eq!(parse_args(&vec![]), Err(StartupError::MissingArguments));
}

#[test]
fn full_arguments_give_group_count() {
    let args = vec!["prog".to_string(), "song.wav".to_string(), "120".to_string()];
    assert_eq!(parse_args(&args), Ok(120));
    let args = vec!["prog".to_string(), "song.wav".to_string(), "abc".to_string()];
    assert_eq!(parse_args(&args), Err(StartupError::InvalidGroupCount));
}

#[test]
fn audio_failures_exit_with_three() {
    for e in [
        StartupError::UnreadableAudio,
        StartupError::NoSamples,
        StartupError::UnsupportedBitDepth,
        StartupError::SampleOutOfRange,
    ] {
        assert_eq!(e.exit_code(), 3);
    }
}
