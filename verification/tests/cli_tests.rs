use blurhash_batch::cli::{message, parse_args, parse_count, ArgError, Config, DEFAULT_CHUNK_SIZE};

fn line(args: &[&str]) -> Vec<String> {
    args.iter().map(|arg| arg.to_string()).collect()
}

fn config(folder: &str, output: &str, sample: Option<usize>, chunk_size: usize) -> Config {
    Config { folder: folder.to_string(), output: output.to_string(), sample, chunk_size }
}

#[test]
fn counts_are_decimal_digits() {
    assert_eq!(parse_count("0"), Some(0));
    assert_eq!(parse_count("7"), Some(7));
    assert_eq!(parse_count("42"), Some(42));
    assert_eq!(parse_count("100"), Some(100));
    assert_eq!(parse_count("1234567890"), Some(1_234_567_890));
}

#[test]
fn a_count_may_have_a_plus_sign_and_leading_zeros() {
    assert_eq!(parse_count("+7"), Some(7));
    assert_eq!(parse_count("007"), Some(7));
    assert_eq!(parse_count("+007"), Some(7));
    assert_eq!(parse_count("0000000000000000000000000000000000000001"), Some(1));
}

#[test]
fn what_is_no_count_is_refused() {
    for text in ["", "+", "-", "-1", "-0", "++1", "+-1", "1+", " 1", "1 ", "4 2", "4_2", "0x10"] {
        assert_eq!(parse_count(text), None, "{:?}", text);
    }
    for text in ["ten", "1e3", "1.0", "１２", "٣", "1\n", "+ 1", "٣4", "4٣"] {
        assert_eq!(parse_count(text), None, "{:?}", text);
    }
}

#[test]
fn a_count_must_fit_the_machine_word() {
    let largest = format!("{}", usize::MAX);
    assert_eq!(parse_count(&largest), Some(usize::MAX));
    assert_eq!(parse_count(&format!("+000{}", usize::MAX)), Some(usize::MAX));
    assert_eq!(parse_count(&format!("{}0", usize::MAX)), None);
    assert_eq!(parse_count(&format!("{}", usize::MAX as u128 + 1)), None);
    assert_eq!(parse_count("99999999999999999999999999999999999999999"), None);
}

#[test]
fn counts_are_read_as_the_standard_library_reads_them() {
    let largest = format!("{}", usize::MAX);
    let beyond = format!("{}", usize::MAX as u128 + 1);
    let texts = [
        "", "0", "1", "+1", "-1", "+", "-", "00", "+00", "12a", "a12", " 12", "12 ", "1_000",
        "4294967295", "4294967296", "18446744073709551615", "18446744073709551616", "١٢", "+-3",
        largest.as_str(), beyond.as_str(),
    ];
    for text in texts {
        assert_eq!(parse_count(text), text.parse::<usize>().ok(), "{:?}", text);
    }
}

#[test]
fn two_paths_make_a_command_line() {
    assert_eq!(
        parse_args(&line(&["prog", "photos", "out.json"])),
        Ok(config("photos", "out.json", None, 100))
    );
    assert_eq!(DEFAULT_CHUNK_SIZE, 100);
}

#[test]
fn the_flags_may_stand_anywhere() {
    let expected = Ok(config("photos", "out.json", Some(5), 20));
    assert_eq!(
        parse_args(&line(&["prog", "photos", "out.json", "--sample", "5", "--chunk", "20"])),
        expected
    );
    assert_eq!(
        parse_args(&line(&["prog", "--chunk", "20", "photos", "--sample", "5", "out.json"])),
        expected
    );
    assert_eq!(
        parse_args(&line(&["prog", "--sample", "5", "--chunk", "20", "photos", "out.json"])),
        expected
    );
}

#[test]
fn one_flag_alone_leaves_the_other_at_its_default() {
    assert_eq!(
        parse_args(&line(&["prog", "photos", "out.json", "--sample", "0"])),
        Ok(config("photos", "out.json", Some(0), 100))
    );
    assert_eq!(
        parse_args(&line(&["prog", "photos", "out.json", "--chunk", "1"])),
        Ok(config("photos", "out.json", None, 1))
    );
    assert_eq!(
        parse_args(&line(&["prog", "photos", "out.json", "--chunk", "0"])),
        Ok(config("photos", "out.json", None, 0))
    );
}

#[test]
fn a_repeated_flag_takes_its_last_value() {
    assert_eq!(
        parse_args(&line(&["prog", "--sample", "1", "a", "b", "--sample", "2", "--chunk", "3", "--chunk", "4"])),
        Ok(config("a", "b", Some(2), 4))
    );
}

#[test]
fn the_program_name_is_passed_over() {
    assert_eq!(
        parse_args(&line(&["--sample", "photos", "out.json"])),
        Ok(config("photos", "out.json", None, 100))
    );
}

#[test]
fn a_sample_flag_needs_a_count() {
    assert_eq!(
        parse_args(&line(&["prog", "a", "b", "--sample"])),
        Err(ArgError::SampleNotNumeric)
    );
    assert_eq!(
        parse_args(&line(&["prog", "a", "b", "--sample", "many"])),
        Err(ArgError::SampleNotNumeric)
    );
    assert_eq!(
        parse_args(&line(&["prog", "--sample", "-1", "a", "b"])),
        Err(ArgError::SampleNotNumeric)
    );
    assert_eq!(
        parse_args(&line(&["prog", "--sample", "--chunk", "3", "a", "b"])),
        Err(ArgError::SampleNotNumeric)
    );
}

#[test]
fn a_chunk_flag_needs_a_count() {
    assert_eq!(
        parse_args(&line(&["prog", "a", "b", "--chunk"])),
        Err(ArgError::ChunkNotNumeric)
    );
    assert_eq!(
        parse_args(&line(&["prog", "a", "b", "--chunk", "2.5"])),
        Err(ArgError::ChunkNotNumeric)
    );
    assert_eq!(
        parse_args(&line(&["prog", "--chunk", "", "a", "b"])),
        Err(ArgError::ChunkNotNumeric)
    );
}

#[test]
fn a_third_path_is_one_too_many() {
    assert_eq!(
        parse_args(&line(&["prog", "a", "b", "c"])),
        Err(ArgError::TooManyArguments)
    );
    assert_eq!(
        parse_args(&line(&["prog", "a", "--chunk", "5", "b", "--verbose"])),
        Err(ArgError::TooManyArguments)
    );
}

#[test]
fn both_paths_are_needed() {
    assert_eq!(parse_args(&line(&[])), Err(ArgError::MissingPaths));
    assert_eq!(parse_args(&line(&["prog"])), Err(ArgError::MissingPaths));
    assert_eq!(parse_args(&line(&["prog", "a"])), Err(ArgError::MissingPaths));
    assert_eq!(
        parse_args(&line(&["prog", "--sample", "3", "--chunk", "4"])),
        Err(ArgError::MissingPaths)
    );
    assert_eq!(parse_args(&line(&["prog", "a", "--chunk", "4"])), Err(ArgError::MissingPaths));
}

#[test]
fn the_first_fault_is_the_one_reported() {
    assert_eq!(
        parse_args(&line(&["prog", "a", "b", "c", "--sample"])),
        Err(ArgError::TooManyArguments)
    );
    assert_eq!(
        parse_args(&line(&["prog", "--chunk", "x", "--sample", "y"])),
        Err(ArgError::ChunkNotNumeric)
    );
    assert_eq!(
        parse_args(&line(&["prog", "--sample", "y", "--chunk", "x"])),
        Err(ArgError::SampleNotNumeric)
    );
    assert_eq!(
        parse_args(&line(&["prog", "a", "--sample", "y"])),
        Err(ArgError::SampleNotNumeric)
    );
}

#[test]
fn an_empty_path_sets_nothing() {
    assert_eq!(
        parse_args(&line(&["prog", "", "a", "b"])),
        Ok(config("a", "b", None, 100))
    );
    assert_eq!(
        parse_args(&line(&["prog", "a", "", "", "b"])),
        Ok(config("a", "b", None, 100))
    );
    assert_eq!(parse_args(&line(&["prog", "a", ""])), Err(ArgError::MissingPaths));
    assert_eq!(parse_args(&line(&["prog", "", ""])), Err(ArgError::MissingPaths));
    assert_eq!(parse_args(&line(&["prog", "a", "b", ""])), Err(ArgError::TooManyArguments));
}

#[test]
fn an_unknown_flag_is_taken_for_a_path() {
    assert_eq!(
        parse_args(&line(&["prog", "--fast", "out.json"])),
        Ok(config("--fast", "out.json", None, 100))
    );
    assert_eq!(
        parse_args(&line(&["prog", "--SAMPLE", "3"])),
        Ok(config("--SAMPLE", "3", None, 100))
    );
}

#[test]
fn each_fault_has_its_message() {
    assert_eq!(message(ArgError::SampleNotNumeric, "prog"), "--sample requires a numeric value");
    assert_eq!(message(ArgError::ChunkNotNumeric, "prog"), "--chunk requires a numeric value");
    assert_eq!(message(ArgError::TooManyArguments, "prog"), "Too many arguments");
}

#[test]
fn the_usage_line_names_the_program() {
    assert_eq!(
        message(ArgError::MissingPaths, "./hasher"),
        "Usage: ./hasher <folder_path> <output_path> [--sample <number>] [--chunk <number>]"
    );
    assert_eq!(
        message(ArgError::MissingPaths, ""),
        "Usage:  <folder_path> <output_path> [--sample <number>] [--chunk <number>]"
    );
}
