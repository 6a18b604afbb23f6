use heif_convert::cli::{expand_file, expand_input, py_bool, Args, Format};
use heif_convert::cmdline::{format_from_text, quality_from_str, CliError};

fn parse(argv: &[&str]) -> Args {
    Args::parse_from(argv).unwrap()
}

#[test]
fn verify_cli() {
    // Every switch of the grammar is known, in its short and long forms.
    for argv in [
        vec!["heif-convert", "-o", "x", "a.heic"],
        vec!["heif-convert", "--output", "x", "a.heic"],
        vec!["heif-convert", "-p", "x", "a.heic"],
        vec!["heif-convert", "--path", "x", "a.heic"],
        vec!["heif-convert", "-f", "png", "a.heic"],
        vec!["heif-convert", "--format", "png", "a.heic"],
        vec!["heif-convert", "-q", "10", "a.heic"],
        vec!["heif-convert", "--quality", "10", "a.heic"],
        vec!["heif-convert", "-n", "a.heic"],
        vec!["heif-convert", "--no-exif", "a.heic"],
        vec!["heif-convert", "-v", "a.heic"],
        vec!["heif-convert", "--verbose", "a.heic"],
        vec!["heif-convert", "--extra-verbose", "a.heic"],
    ] {
        assert!(Args::parse_from(&argv).is_ok(), "{:?}", argv);
    }
    assert_eq!(Args::parse_from(&["heif-convert", "-h"]).err(), Some(CliError::Help));
    assert_eq!(Args::parse_from(&["heif-convert", "--help"]).err(), Some(CliError::Help));
    assert_eq!(Args::parse_from(&["heif-convert", "-V"]).err(), Some(CliError::Version));
    assert_eq!(Args::parse_from(&["heif-convert", "--version"]).err(), Some(CliError::Version));
}

#[test]
fn defaults_match_the_python_implementation() {
    let args = parse(&["heif-convert", "image.heic"]);
    assert_eq!(args.output, "{name}");
    assert_eq!(args.path, "{path}");
    assert_eq!(args.format, Format::Jpg);
    assert_eq!(args.quality, 90);
    assert!(args.exif);
    assert!(!args.verbose());
    assert!(!args.extra_verbose());
}

#[test]
fn verbosity_flags() {
    let verbose = parse(&["heif-convert", "-v", "image.heic"]);
    assert!(verbose.verbose());
    assert!(!verbose.extra_verbose());

    let extra = parse(&["heif-convert", "-vv", "image.heic"]);
    assert!(!extra.verbose());
    assert!(extra.extra_verbose());

    let long = parse(&["heif-convert", "--extra-verbose", "image.heic"]);
    assert!(long.extra_verbose());
}

#[test]
fn verbose_flags_per_token() {
    let both = parse(&["heif-convert", "-v", "-vv", "a.heic"]);
    assert!(both.verbose());
    assert!(both.extra_verbose());
    let twice = parse(&["heif-convert", "-v", "-v", "a.heic"]);
    assert!(twice.verbose());
    assert!(!twice.extra_verbose());
    let long = parse(&["heif-convert", "--verbose", "a.heic"]);
    assert!(long.verbose());
    assert!(!long.extra_verbose());
    let clustered = parse(&["heif-convert", "-nv", "a.heic"]);
    assert!(clustered.verbose());
    assert!(!clustered.extra_verbose());
}

#[test]
fn no_exif_flag() {
    let args = parse(&["heif-convert", "-n", "image.heic"]);
    assert!(!args.exif);
}

#[test]
fn namespace_rendering() {
    let args = parse(&["heif-convert", "-vv", "-n", "a.heic"]);
    assert_eq!(
        args.namespace(),
        "Namespace(input=['a.heic'], output='{name}', path='{path}', format='jpg', quality=90, exif=False, verbose=False, extra_verbose=True)"
    );
}

#[test]
fn missing_input_file_is_rejected() {
    let error = expand_input(&["does-not-exist.heic".to_owned()]).unwrap_err();
    assert_eq!(error, "Input file 'does-not-exist.heic' does not exist");
}

#[test]
fn unmatched_wildcard_is_rejected() {
    let error = expand_input(&["*.does-not-exist".to_owned()]).unwrap_err();
    assert_eq!(error, "No matches found: *.does-not-exist");
}

#[test]
fn namespace_lists_several_inputs_and_settings() {
    let args = parse(&[
        "heif-convert", "-o", "{name}_x", "--path=out", "-fpng", "-q", "75", "-v", "a.heic", "b c.heic",
    ]);
    assert_eq!(
        args.namespace(),
        "Namespace(input=['a.heic', 'b c.heic'], output='{name}_x', path='out', format='png', quality=75, exif=True, verbose=True, extra_verbose=False)"
    );
}

#[test]
fn py_bool_spelling() {
    assert_eq!(py_bool(true), "True");
    assert_eq!(py_bool(false), "False");
}

#[test]
fn format_extensions_and_names_roundtrip() {
    let all = [
        (Format::Jpg, "jpg"),
        (Format::Png, "png"),
        (Format::Webp, "webp"),
        (Format::Gif, "gif"),
        (Format::Tiff, "tiff"),
        (Format::Bmp, "bmp"),
        (Format::Ico, "ico"),
    ];
    for (format, name) in all {
        assert_eq!(format.extension(), name);
        assert_eq!(format.to_text(), name);
        assert_eq!(format_from_text(name), Some(format));
    }
    assert_eq!(format_from_text("JPG"), None);
    assert_eq!(format_from_text("jpeg"), None);
}

#[test]
fn quality_values() {
    assert_eq!(quality_from_str("90"), Some(90));
    assert_eq!(quality_from_str("+90"), Some(90));
    assert_eq!(quality_from_str("007"), Some(7));
    assert_eq!(quality_from_str("255"), Some(255));
    assert_eq!(quality_from_str("-0"), Some(0));
    assert_eq!(quality_from_str("256"), None);
    assert_eq!(quality_from_str("-1"), None);
    assert_eq!(quality_from_str(""), None);
    assert_eq!(quality_from_str("+"), None);
    assert_eq!(quality_from_str("9a"), None);
    assert_eq!(quality_from_str("99999999999999999999999"), None);
}

#[test]
fn switch_forms() {
    let a = parse(&["heif-convert", "-q80", "-o=out", "--format=webp", "x.heic"]);
    assert_eq!(a.quality, 80);
    assert_eq!(a.output, "out");
    assert_eq!(a.format, Format::Webp);
    let b = parse(&["heif-convert", "-nvo", "name", "x.heic"]);
    assert!(!b.exif);
    assert_eq!(b.verbosity, 1);
    assert_eq!(b.output, "name");
    let c = parse(&["heif-convert", "--", "-n", "--", "-"]);
    assert_eq!(c.input, vec!["-n", "--", "-"]);
    assert!(c.exif);
    let d = parse(&["heif-convert", "-o", "-", "x.heic"]);
    assert_eq!(d.output, "-");
    let e = parse(&["heif-convert", "-vvvv", "--verbose", "x.heic"]);
    assert_eq!(e.verbosity, 5);
}

#[test]
fn refused_command_lines() {
    let err = |argv: &[&str]| Args::parse_from(argv).err();
    assert_eq!(err(&["heif-convert"]), Some(CliError::MissingInput));
    assert_eq!(err(&[]), Some(CliError::MissingInput));
    assert_eq!(err(&["heif-convert", "-x", "a"]), Some(CliError::UnknownArgument));
    assert_eq!(err(&["heif-convert", "--bogus", "a"]), Some(CliError::UnknownArgument));
    assert_eq!(err(&["heif-convert", "--no-exif=1", "a"]), Some(CliError::UnexpectedValue));
    assert_eq!(err(&["heif-convert", "a", "-o"]), Some(CliError::MissingValue));
    assert_eq!(err(&["heif-convert", "-o", "-v", "a"]), Some(CliError::MissingValue));
    assert_eq!(err(&["heif-convert", "-o", "--", "a"]), Some(CliError::MissingValue));
    assert_eq!(err(&["heif-convert", "-n", "-n", "a"]), Some(CliError::RepeatedArgument));
    assert_eq!(err(&["heif-convert", "-o", "x", "-o", "y", "a"]), Some(CliError::RepeatedArgument));
    assert_eq!(err(&["heif-convert", "-f", "jpeg", "a"]), Some(CliError::InvalidValue));
    assert_eq!(err(&["heif-convert", "-q", "101x", "a"]), Some(CliError::InvalidValue));
    assert_eq!(err(&["heif-convert", "-q", "300", "a"]), Some(CliError::InvalidValue));
    // A pending value is checked when the next known switch is read, but an
    // unknown switch is reported first.
    assert_eq!(err(&["heif-convert", "-q", "300", "--bogus"]), Some(CliError::UnknownArgument));
    assert_eq!(err(&["heif-convert", "-q", "300", "-h"]), Some(CliError::InvalidValue));
    assert_eq!(err(&["heif-convert", "-n", "-h", "-n"]), Some(CliError::Help));
}

#[test]
fn namespace_marks_both_verbose_flags() {
    let args = parse(&["heif-convert", "-v", "-vv", "a.heic"]);
    assert_eq!(
        args.namespace(),
        "Namespace(input=['a.heic'], output='{name}', path='{path}', format='jpg', quality=90, exif=True, verbose=True, extra_verbose=True)"
    );
}

#[test]
fn namespace_quotes_like_python_repr() {
    let args = parse(&["heif-convert", "it's.heic", "-o", "a\"b'c", "-p", "x\\y\tz"]);
    assert_eq!(
        args.namespace(),
        "Namespace(input=[\"it's.heic\"], output='a\"b\\'c', path='x\\\\y\\tz', format='jpg', quality=90, exif=True, verbose=False, extra_verbose=False)"
    );
    let control = parse(&["heif-convert", "a\u{1}b"]);
    assert!(control.namespace().starts_with("Namespace(input=['a\\x01b']"));
}

#[test]
fn malformed_patterns_are_refused() {
    let error = expand_input(&["[*".to_owned()]).unwrap_err();
    assert!(error.starts_with("Invalid pattern '[*': "), "{}", error);
    let error = expand_input(&["a**b*".to_owned()]).unwrap_err();
    assert!(error.starts_with("Invalid pattern 'a**b*': "), "{}", error);
}

#[test]
fn plain_inputs_expand_to_themselves() {
    assert_eq!(expand_file("a.heic", true), Ok(vec!["a.heic".to_string()]));
    assert_eq!(expand_file("a.heic", false), Err("Input file 'a.heic' does not exist".to_string()));
}

#[test]
fn format_switch_takes_each_extension() {
    for format in [Format::Jpg, Format::Png, Format::Webp, Format::Gif, Format::Tiff, Format::Bmp, Format::Ico] {
        let args = parse(&["heif-convert", "-f", format.extension(), "x.heic"]);
        assert_eq!(args.format, format);
        assert_eq!(format.to_text(), format.extension());
    }
}
