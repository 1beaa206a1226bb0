use bfup::config::Config;
use bfup::lex::Error;
use bfup::pre::{preprocess, preprocess_and_align};

fn chars_of(s: &str) -> Vec<Result<char, ()>> {
    s.chars().map(Ok).collect()
}

fn preprocess_str(input: &str) -> String {
    preprocess(chars_of(input), &Config::default())
        .expect("preprocessing should succeed")
        .into_iter()
        .collect()
}

fn preprocess_str_aligned(input: &str, line_width: usize) -> String {
    preprocess_and_align(chars_of(input), &Config::default(), line_width)
        .expect("preprocessing should succeed")
        .into_iter()
        .collect()
}

#[test]
fn preprocess_copy_input() {
    let input = "++++[][]---<><><><>";
    let output = preprocess_str(input);

    assert!(
        output == "++++[][]---<><><><>",
        "input (\"{input}\") and output (\"{output}\") should be equal.",
    );
}

#[test]
fn preprocess_multiplier() {
    let input = "#5+-#2(>#2(--#0(+++)))";
    let output = preprocess_str(input);

    assert!(
        output == "+++++->---->----",
        "\"{input}\" preprocessed to \"{output}\" should be equal to \"+++++->---->----\".",
    );
}

#[test]
fn preprocess_macros() {
    let input = "$m/thistextwillbeskipped/+$g$\n (#2([-]))(--)mg\n";
    let output = preprocess_str(input);

    assert!(
        output == "+--[-][-]",
        "\"{input}\" preprocessed to \"{output}\" should be equal to \"+--[-][-]\".",
    );
}

#[test]
fn preprocess_just_comments() {
    let input = "thiswillnotbecopied\\+\\#\\(\\)";
    let output = preprocess_str(input);

    assert!(
        output == "",
        "\"{input}\" preprocessed to \"{output}\" should be \"\"."
    );
}

#[test]
fn preprocess_nothing() {
    let output = preprocess_str("");

    assert!(output == "", "output should be empty.");
}

#[test]
fn preprocess_with_alignment() {
    let input = "#6(#6(+))";
    let output = preprocess_str_aligned(input, 6);

    assert!(
        output == "++++++\n++++++\n++++++\n++++++\n++++++\n++++++\n",
        "\"{input}\" preprocessed to \"{output}\" should be six lines of six '+'.",
    );
}

#[test]
fn preprocess_alignment_width_one() {
    let output = preprocess_str_aligned("+++", 1);
    assert_eq!(output, "+\n+\n+\n");
}

#[test]
fn preprocess_alignment_width_zero_never_wraps() {
    let output = preprocess_str_aligned("#9+", 0);
    assert_eq!(output, "+++++++++");
}

#[test]
fn preprocess_alignment_counter_is_shared_across_groups() {
    // the line counter is global to the whole output: wrap positions do not
    // restart at group boundaries
    let output = preprocess_str_aligned("++(+++)+", 4);
    assert_eq!(output, "++++\n++");
}

#[test]
fn preprocess_two_numbers_keep_the_second() {
    // a second number overwrites the first, with no accumulation
    let output = preprocess_str("#2#3+");
    assert_eq!(output, "+++");
}

#[test]
fn preprocess_group_multiplier_repeats_whole_group() {
    // the multiplier repeats the entire child sequence, not just the final
    // child
    let output = preprocess_str("#3(+-)");
    assert_eq!(output, "+-+-+-");
}

#[test]
fn preprocess_escaped_prefixes_are_skipped() {
    // escaping any character, configured ones included, skips it with no
    // token and no error
    let output = preprocess_str("\\#2+");
    assert_eq!(output, "+");
}

#[test]
fn preprocess_zero_multiplier_erases_next_token() {
    let output = preprocess_str("#0(+++)-");
    assert_eq!(output, "-");
}

#[test]
fn preprocess_error_reports_nothing_emitted() {
    let result = preprocess(chars_of(")"), &Config::default());
    match result {
        Err(Error::Group(group)) => {
            assert_eq!(group.0.len(), 1);
            assert!(matches!(group.0[0], Error::DelimiterUnopened { .. }));
        }
        _ => panic!("a lone close delimiter must fail the whole run"),
    }
}

#[test]
fn preprocess_input_failure_is_fatal() {
    let mut input = chars_of("+++");
    input.push(Err(()));
    let result = preprocess(input, &Config::default());
    assert!(
        matches!(result, Err(Error::Input)),
        "an upstream read failure discards everything collected"
    );
}

#[test]
fn preprocess_custom_symbols() {
    // the same grammar under a different symbol configuration
    let config = Config::new(vec!['a', 'b'], '<', '>', '%', '@', '!').expect("distinct symbols");
    let output: String = preprocess(chars_of("%3<ab>!a@ca c"), &config)
        .expect("balanced input under a custom configuration")
        .into_iter()
        .collect();
    assert_eq!(output, "abababa");
}
