use easyocr_gui::command::{
    build_ocr_args, Availability, not_found_message, resolve_easyocr_cmd, run_outcome, spawn_failure_message,
    OcrResult, ResolveStep, ResolvedCommand,
};
use easyocr_gui::format::{decimal_string, fixed4_string};
use easyocr_gui::normalize::{expand_home_dir, parse_languages};
use easyocr_gui::number::Number;
use easyocr_gui::ocr::{parse_easyocr_output, parse_line, OcrLine};
use easyocr_gui::settings::{Decoder, OcrConfig, UiLanguage};

fn value(n: &Number) -> f32 {
    n.as_str().parse().unwrap()
}

fn corner(line: &OcrLine, i: usize) -> [f32; 2] {
    [value(&line.bbox[i][0]), value(&line.bbox[i][1])]
}

#[test]
fn parse_languages_uses_default_when_empty() {
    assert_eq!(parse_languages(""), vec!["ch_sim", "en"]);
    assert_eq!(parse_languages(" , ; \u{ff0c} "), vec!["ch_sim", "en"]);
}

#[test]
fn parse_languages_supports_common_separators() {
    assert_eq!(parse_languages("ch_sim,en"), vec!["ch_sim", "en"]);
    assert_eq!(parse_languages("ch_sim\u{ff0c}en"), vec!["ch_sim", "en"]);
    assert_eq!(parse_languages("ch_sim en"), vec!["ch_sim", "en"]);
}

#[test]
fn expand_home_dir_expands_tilde_prefix() {
    let home = "/home/tester".to_string();
    assert_eq!(expand_home_dir("~", Some(&home)), home);
    assert_eq!(expand_home_dir("~/models", Some(&home)), format!("{home}/models"));
    assert_eq!(expand_home_dir("/tmp/models", Some(&home)), "/tmp/models");
}

#[test]
fn parse_line_standard_format() {
    let line = "([[70, 12], [268, 12], [268, 48], [70, 48]], 'Hello World', 0.9543)";
    let parsed = parse_line(line).expect("should parse standard format");
    assert_eq!(parsed.text, "Hello World");
    let confidence = value(parsed.confidence.as_ref().unwrap());
    assert!((confidence - 0.9543).abs() < 0.001);
    assert_eq!(corner(&parsed, 0), [70.0, 12.0]);
    assert_eq!(corner(&parsed, 2), [268.0, 48.0]);
}

#[test]
fn parse_line_paragraph_format() {
    let line = "[[[70, 12], [268, 12], [268, 48], [70, 48]], 'Hello World']";
    let parsed = parse_line(line).expect("should parse paragraph format");
    assert_eq!(parsed.text, "Hello World");
    assert!(parsed.confidence.is_none());
    assert_eq!(corner(&parsed, 0), [70.0, 12.0]);
}

#[test]
fn parse_easyocr_output_mixed() {
    let output = "([[10, 20], [100, 20], [100, 50], [10, 50]], 'line one', 0.85)\n\
                  ([[10, 60], [200, 60], [200, 90], [10, 90]], 'line two', 0.92)\n";
    let lines = parse_easyocr_output(output);
    assert_eq!(lines.len(), 2);
    assert_eq!(lines[0].text, "line one");
    assert_eq!(lines[1].text, "line two");
}

#[test]
fn parse_easyocr_output_paragraph_mode() {
    let output = "[[[10, 20], [200, 20], [200, 90], [10, 90]], 'paragraph text']\n";
    let lines = parse_easyocr_output(output);
    assert_eq!(lines.len(), 1);
    assert_eq!(lines[0].text, "paragraph text");
    assert!(lines[0].confidence.is_none());
}

#[test]
fn parse_line_text_with_comma() {
    let line = "([[10, 20], [100, 20], [100, 50], [10, 50]], 'hello, world', 0.88)";
    let parsed = parse_line(line).expect("should handle comma in text");
    assert_eq!(parsed.text, "hello, world");
    let confidence = value(parsed.confidence.as_ref().unwrap());
    assert!((confidence - 0.88).abs() < 0.01);
}

#[test]
fn parse_line_paragraph_with_comma() {
    let line = "[[[10, 20], [100, 20], [100, 50], [10, 50]], 'hello, world']";
    let parsed = parse_line(line).expect("should handle comma in paragraph text");
    assert_eq!(parsed.text, "hello, world");
    assert!(parsed.confidence.is_none());
}

#[test]
fn standard_line_end_to_end() {
    let line = "([[70, 12], [268, 12], [268, 48], [70, 48]], 'Hello World', 0.9543)";
    let parsed = parse_line(line).unwrap();
    assert_eq!(corner(&parsed, 0), [70.0, 12.0]);
    assert_eq!(corner(&parsed, 1), [268.0, 12.0]);
    assert_eq!(corner(&parsed, 2), [268.0, 48.0]);
    assert_eq!(corner(&parsed, 3), [70.0, 48.0]);
    assert_eq!(parsed.text, "Hello World");
    assert_eq!(parsed.confidence.as_ref().unwrap().as_str(), "0.9543");
}

#[test]
fn paragraph_line_has_no_confidence() {
    let line = "[[[10, 20], [200, 20], [200, 90], [10, 90]], 'paragraph text']";
    let parsed = parse_line(line).unwrap();
    assert_eq!(parsed.text, "paragraph text");
    assert!(parsed.confidence.is_none());
    assert_eq!(corner(&parsed, 3), [10.0, 90.0]);
}

#[test]
fn paragraph_text_ending_in_numeral_is_not_a_score() {
    let line = "[[[1, 2], [3, 4], [5, 6], [7, 8]], 'page, 0.5']";
    let parsed = parse_line(line).unwrap();
    assert_eq!(parsed.text, "page, 0.5");
    assert!(parsed.confidence.is_none());
}

#[test]
fn signed_and_fractional_coordinates() {
    let line = "([[-1.5, 2], [3e2, +4], [5., .6], [7, 8]], 'x', 1.2e-05)";
    let parsed = parse_line(line).unwrap();
    assert_eq!(corner(&parsed, 0), [-1.5, 2.0]);
    assert_eq!(corner(&parsed, 1), [300.0, 4.0]);
    assert_eq!(corner(&parsed, 2), [5.0, 0.6]);
    assert_eq!(parsed.confidence.as_ref().unwrap().as_str(), "1.2e-05");
}

#[test]
fn standard_line_without_numeric_confidence_keeps_text() {
    let line = "([[1, 2], [3, 4], [5, 6], [7, 8]], 'a, b')";
    let parsed = parse_line(line).unwrap();
    assert_eq!(parsed.text, "a, b");
    assert!(parsed.confidence.is_none());
}

#[test]
fn double_quoted_text_keeps_inner_quotes() {
    let line = "([[1, 2], [3, 4], [5, 6], [7, 8]], \"it's 'here'\", 0.5)";
    let parsed = parse_line(line).unwrap();
    assert_eq!(parsed.text, "it's 'here'");
}

#[test]
fn malformed_lines_are_rejected() {
    assert!(parse_line("").is_none());
    assert!(parse_line("Using CPU. Note: This module is much faster with a GPU.").is_none());
    assert!(parse_line("([[1, 2], [3, 4], [5, 6]], 'three corners', 0.5)").is_none());
    assert!(parse_line("([[1, x], [3, 4], [5, 6], [7, 8]], 'bad number', 0.5)").is_none());
    assert!(parse_line("([[1, 2], [3, 4], [5, 6], [7, 8]] 'no comma', 0.5)").is_none());
    assert!(parse_line("([[1, 2, 9], [3, 4], [5, 6], [7, 8]], 'three coords', 0.5)").is_none());
    assert!(parse_line("(no box at all)").is_none());
}

#[test]
fn mixed_output_skips_log_lines_in_order() {
    let output = "Downloading detection model, please wait.\n\
                  ([[1, 2], [3, 4], [5, 6], [7, 8]], 'first', 0.5)\r\n\
                  \n\
                  garbage ]] line\n\
                  ([[1, 2], [3, 4], [5, 6], [7, 8]], broken\n\
                  [[[1, 2], [3, 4], [5, 6], [7, 8]], 'second']\n\
                  Progress: |####| 100.0% Complete";
    let lines = parse_easyocr_output(output);
    assert_eq!(lines.len(), 2);
    assert_eq!(lines[0].text, "first");
    assert_eq!(lines[1].text, "second");
    assert!(parse_easyocr_output("").is_empty());
}

#[test]
fn languages_with_duplicate_separators() {
    assert_eq!(parse_languages("en,, ,fr"), vec!["en", "fr"]);
    assert_eq!(parse_languages(" ja ;\u{ff1b} ko\t,"), vec!["ja", "ko"]);
    assert_eq!(parse_languages("\t \t"), vec!["ch_sim", "en"]);
}

#[test]
fn expand_home_without_home_is_unchanged() {
    assert_eq!(expand_home_dir("~/models", None), "~/models");
    assert_eq!(expand_home_dir("~", None), "~");
    assert_eq!(expand_home_dir("~/models", Some("/home/u")), "/home/u/models");
    assert_eq!(expand_home_dir("~", Some("/home/u")), "/home/u");
    assert_eq!(expand_home_dir("~user/x", Some("/home/u")), "~user/x");
    assert_eq!(expand_home_dir("/abs/path", Some("/home/u")), "/abs/path");
}

fn probe_target(step: ResolveStep) -> (String, Vec<String>) {
    match step {
        ResolveStep::Probe(c) => (c.program, c.prefix),
        other => panic!("expected a probe, got {:?}", other),
    }
}

#[test]
fn resolution_without_explicit_path() {
    let (p, a) = probe_target(resolve_easyocr_cmd("", &vec![]));
    assert_eq!((p.as_str(), a.len()), ("easyocr", 0));
    let (p, a) = probe_target(resolve_easyocr_cmd("", &vec![false]));
    assert_eq!(p, "python3");
    assert_eq!(a, vec!["-m", "easyocr.cli"]);
    let (p, _) = probe_target(resolve_easyocr_cmd("", &vec![false, false]));
    assert_eq!(p, "python");
    match resolve_easyocr_cmd("", &vec![false, true]) {
        ResolveStep::Resolved(c) => {
            assert_eq!(c.program, "python3");
            assert_eq!(c.prefix, vec!["-m", "easyocr.cli"]);
        }
        other => panic!("unexpected {:?}", other),
    }
    assert!(matches!(
        resolve_easyocr_cmd("", &vec![false, false, false]),
        ResolveStep::NotFound
    ));
}

#[test]
fn explicit_path_that_fails_both_probes_is_not_found() {
    let (p, a) = probe_target(resolve_easyocr_cmd("/opt/py/bin/python", &vec![]));
    assert_eq!((p.as_str(), a.len()), ("/opt/py/bin/python", 0));
    let (p, a) = probe_target(resolve_easyocr_cmd("/opt/py/bin/python", &vec![false]));
    assert_eq!(p, "/opt/py/bin/python");
    assert_eq!(a, vec!["-m", "easyocr.cli"]);
    assert!(matches!(
        resolve_easyocr_cmd("/opt/py/bin/python", &vec![false, false]),
        ResolveStep::NotFound
    ));
    match resolve_easyocr_cmd("/usr/bin/easyocr", &vec![true]) {
        ResolveStep::Resolved(c) => {
            assert_eq!(c.program, "/usr/bin/easyocr");
            assert!(c.prefix.is_empty());
        }
        other => panic!("unexpected {:?}", other),
    }
}

fn sample_config() -> OcrConfig {
    OcrConfig {
        languages: "en, ch_sim".to_string(),
        gpu: false,
        workers: 0,
        decoder: Decoder::BeamSearch,
        beam_width: 5,
        batch_size: 1,
        min_size: 20,
        text_threshold: 7000,
        low_text: 4000,
        link_threshold: 4000,
        contrast_ths: 1000,
        adjust_contrast: 5000,
        paragraph: true,
        quantize: true,
        add_margin: 1000,
        model_storage_directory: "~/models".to_string(),
        easyocr_exe: String::new(),
    }
}

#[test]
fn argument_list_is_exact() {
    let cmd = ResolvedCommand {
        program: "python3".to_string(),
        prefix: vec!["-m".to_string(), "easyocr.cli".to_string()],
    };
    let args = build_ocr_args(&cmd, &sample_config(), "/tmp/img.png", Some("/home/u"));
    let expected = vec![
        "-m", "easyocr.cli", "-l", "en", "ch_sim", "-f", "/tmp/img.png", "--gpu", "False",
        "--workers", "0", "--decoder", "beamsearch", "--beamWidth", "5", "--batch_size", "1",
        "--text_threshold", "0.7000", "--low_text", "0.4000", "--link_threshold", "0.4000",
        "--contrast_ths", "0.1000", "--adjust_contrast", "0.5000", "--min_size", "20",
        "--paragraph", "True", "--quantize", "True", "--add_margin", "0.1000", "--detail", "1",
        "--model_storage_directory", "/home/u/models",
    ];
    assert_eq!(args, expected);
}

#[test]
fn argument_list_without_model_directory() {
    let mut config = sample_config();
    config.model_storage_directory = String::new();
    config.languages = String::new();
    config.gpu = true;
    config.workers = 12;
    let cmd = ResolvedCommand { program: "easyocr".to_string(), prefix: vec![] };
    let args = build_ocr_args(&cmd, &config, "a.png", None);
    assert_eq!(&args[0..4], &["-l", "ch_sim", "en", "-f"]);
    assert_eq!(args[5..9].to_vec(), vec!["--gpu", "True", "--workers", "12"]);
    assert_eq!(args.last().unwrap(), "1");
    assert_eq!(args.len(), 35);
}

#[test]
fn number_formatting() {
    assert_eq!(decimal_string(0), "0");
    assert_eq!(decimal_string(1234567890), "1234567890");
    assert_eq!(decimal_string(u64::MAX), u64::MAX.to_string());
    assert_eq!(fixed4_string(7000), "0.7000");
    assert_eq!(fixed4_string(12345), "1.2345");
    assert_eq!(fixed4_string(5), "0.0005");
    assert_eq!(fixed4_string(-2500), "-0.2500");
    assert_eq!(fixed4_string(i64::MIN), "-922337203685477.5808");
}

#[test]
fn number_grammar() {
    for good in ["0", "-1", "+2.5", "3.", ".5", "1e5", "1.2E-05", "7e+3"] {
        assert!(Number::parse(good).is_some(), "{good}");
        assert_eq!(Number::parse(good).unwrap().as_str(), good);
    }
    for bad in ["", "-", ".", "e5", "1e", "1.2.3", "0x10", " 1", "nan", "1e+"] {
        assert!(Number::parse(bad).is_none(), "{bad}");
    }
}

#[test]
fn run_outcomes() {
    let ok = run_outcome(true, "log\n([[1, 2], [3, 4], [5, 6], [7, 8]], 'hi', 0.5)\n", "");
    assert!(ok.error.is_none());
    assert_eq!(ok.lines.len(), 1);
    assert_eq!(ok.lines[0].text, "hi");
    let failed = run_outcome(false, "out", "err");
    assert!(failed.lines.is_empty());
    assert_eq!(failed.error.as_deref(), Some("EasyOCR exited with error:\nerr\nout"));
    let empty = run_outcome(false, "", "");
    assert_eq!(empty.error.as_deref(), Some("EasyOCR exited with error:\n\n"));
    let failure = OcrResult::failure("boom".to_string());
    assert!(failure.lines.is_empty());
    assert_eq!(failure.error.as_deref(), Some("boom"));
}

#[test]
fn diagnostics() {
    assert_eq!(
        not_found_message(""),
        "EasyOCR command not found (tried 'easyocr' and 'python -m easyocr.cli').\n\nMake sure EasyOCR is installed:\n  pip install easyocr"
    );
    assert_eq!(
        not_found_message("/x/py"),
        "EasyOCR command not found (tried '/x/py').\n\nMake sure EasyOCR is installed:\n  pip install easyocr"
    );
    assert_eq!(
        spawn_failure_message("easyocr", "No such file"),
        "Failed to run 'easyocr': No such file\n\nMake sure EasyOCR is installed:\n  pip install easyocr"
    );
}

#[test]
fn decoders_and_ui_language() {
    assert_eq!(Decoder::Greedy.as_str(), "greedy");
    assert_eq!(Decoder::BeamSearch.as_str(), "beamsearch");
    assert_eq!(Decoder::WordBeamSearch.as_str(), "wordbeamsearch");
    assert_eq!(Decoder::BeamSearch.label(), "Beam Search (Accurate)");
    assert_eq!(
        Decoder::all(),
        &[Decoder::Greedy, Decoder::BeamSearch, Decoder::WordBeamSearch]
    );
    assert_eq!(UiLanguage::default(), UiLanguage::Chinese);
}

#[test]
fn availability_after_check() {
    assert_eq!(Availability::after_check(true), Availability::Available);
    assert_eq!(Availability::after_check(false), Availability::Unavailable);
}
