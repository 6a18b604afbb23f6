//! The command-line grammar of the converter: which switches exist, how
//! their values are attached, which defaults apply, and which inputs are
//! refused.
//!
//! The grammar follows the conventions of GNU-style command lines:
//! `--name value`, `--name=value`, clustered short flags (`-nvv`), short
//! options with an attached value (`-q80`, `-q=80`), `--` to end the
//! switches, and `-` as an ordinary value.  A value-taking switch leaves its
//! value pending until the next token; a pending value is checked when the
//! next known switch, the next input or the end of the line is reached.
use vstd::prelude::*;
use crate::cli::{format_name, Args, Format};
use crate::text::{decimal, digit_char, opt_text, str_eq};

verus! {

/// Why a command line was not turned into arguments.
///
/// `Help` and `Version` are the requests for the help and version texts;
/// the others are usage errors.
#[derive(Clone, Copy, Debug, PartialEq, Eq, Structural)]
pub enum CliError {
    /// `-h` or `--help` was given.
    Help,
    /// `-V` or `--version` was given.
    Version,
    /// A switch that the grammar does not know.
    UnknownArgument,
    /// A flag that takes no value was given one with `=`.
    UnexpectedValue,
    /// A value-taking switch was not followed by a value.
    MissingValue,
    /// A switch that may appear once appeared twice.
    RepeatedArgument,
    /// The value of `--format` or `--quality` was refused.
    InvalidValue,
    /// No input file was named.
    MissingInput,
}

/// The switches that take a value.
#[derive(Clone, Copy, Debug, PartialEq, Eq, Structural)]
pub enum ValueSwitch {
    Output,
    Path,
    Format,
    Quality,
}

/// The switches that take no value.
#[derive(Clone, Copy, Debug, PartialEq, Eq, Structural)]
pub enum FlagSwitch {
    NoExif,
    Verbose,
    ExtraVerbose,
    Help,
    Version,
}

/// A switch of the grammar.
#[derive(Clone, Copy, Debug, PartialEq, Eq, Structural)]
pub enum Switch {
    Value(ValueSwitch),
    Flag(FlagSwitch),
}

/// The switch a long name (the text after `--`) stands for.
pub open spec fn long_switch(name: Seq<char>) -> Option<Switch> {
    if name == "output"@ {
        Some(Switch::Value(ValueSwitch::Output))
    } else if name == "path"@ {
        Some(Switch::Value(ValueSwitch::Path))
    } else if name == "format"@ {
        Some(Switch::Value(ValueSwitch::Format))
    } else if name == "quality"@ {
        Some(Switch::Value(ValueSwitch::Quality))
    } else if name == "no-exif"@ {
        Some(Switch::Flag(FlagSwitch::NoExif))
    } else if name == "verbose"@ {
        Some(Switch::Flag(FlagSwitch::Verbose))
    } else if name == "extra-verbose"@ {
        Some(Switch::Flag(FlagSwitch::ExtraVerbose))
    } else if name == "help"@ {
        Some(Switch::Flag(FlagSwitch::Help))
    } else if name == "version"@ {
        Some(Switch::Flag(FlagSwitch::Version))
    } else {
        None
    }
}

/// The switch a short letter stands for.
pub open spec fn short_switch(c: char) -> Option<Switch> {
    if c == 'o' {
        Some(Switch::Value(ValueSwitch::Output))
    } else if c == 'p' {
        Some(Switch::Value(ValueSwitch::Path))
    } else if c == 'f' {
        Some(Switch::Value(ValueSwitch::Format))
    } else if c == 'q' {
        Some(Switch::Value(ValueSwitch::Quality))
    } else if c == 'n' {
        Some(Switch::Flag(FlagSwitch::NoExif))
    } else if c == 'v' {
        Some(Switch::Flag(FlagSwitch::Verbose))
    } else if c == 'h' {
        Some(Switch::Flag(FlagSwitch::Help))
    } else if c == 'V' {
        Some(Switch::Flag(FlagSwitch::Version))
    } else {
        None
    }
}

/// The format a `--format` value names; names are matched exactly.
pub open spec fn format_from_name(v: Seq<char>) -> Option<Format> {
    if v == format_name(Format::Jpg) {
        Some(Format::Jpg)
    } else if v == format_name(Format::Png) {
        Some(Format::Png)
    } else if v == format_name(Format::Webp) {
        Some(Format::Webp)
    } else if v == format_name(Format::Gif) {
        Some(Format::Gif)
    } else if v == format_name(Format::Tiff) {
        Some(Format::Tiff)
    } else if v == format_name(Format::Bmp) {
        Some(Format::Bmp)
    } else if v == format_name(Format::Ico) {
        Some(Format::Ico)
    } else {
        None
    }
}

/// Whether `c` is an ASCII decimal digit.
pub open spec fn is_digit(c: char) -> bool {
    '0' <= c <= '9'
}

/// Whether every character of `s` is a decimal digit.
pub open spec fn all_digits(s: Seq<char>) -> bool {
    forall|i: int| 0 <= i < s.len() ==> is_digit(#[trigger] s[i])
}

/// The number a string of decimal digits denotes.
pub open spec fn digits_value(s: Seq<char>) -> nat
    decreases s.len(),
{
    if s.len() == 0 {
        0
    } else {
        digits_value(s.drop_last()) * 10 + ((s.last() as u32 - '0' as u32) as nat)
    }
}

/// The quality a `--quality` value denotes: an optional sign, at least one
/// decimal digit, and a value from 0 to 255.
pub open spec fn quality_from_text(v: Seq<char>) -> Option<u8> {
    let negative = v.len() > 0 && v[0] == '-';
    let signed = v.len() > 0 && (v[0] == '-' || v[0] == '+');
    let digits = if signed { v.drop_first() } else { v };
    if digits.len() > 0 && all_digits(digits) && digits_value(digits) <= 255 && (!negative
        || digits_value(digits) == 0) {
        Some(digits_value(digits) as u8)
    } else {
        None
    }
}

/// What has been read of a command line so far.
#[verifier::ext_equal]
pub struct CliState {
    pub input: Seq<Seq<char>>,
    pub output: Option<Seq<char>>,
    pub path: Option<Seq<char>>,
    pub format: Option<Format>,
    pub quality: Option<u8>,
    pub no_exif: bool,
    pub extra_verbose: bool,
    pub verbosity: u8,
    /// A token of its own held exactly one `v` (`-v`, `--verbose`).
    pub verbose_flag: bool,
    /// A token of its own held `v` more than once (`-vv`).
    pub double_verbose: bool,
    /// The `v` flags read in the current token, counted up to 2.
    pub token_v: u8,
    /// A value-taking switch whose value has not been checked yet, with the
    /// value once it has been read.
    pub pending: Option<(ValueSwitch, Option<Seq<char>>)>,
    /// `--` has been read: every further token is an input.
    pub trailing: bool,
}

/// The state before the first token.
pub open spec fn initial_state() -> CliState {
    CliState {
        input: Seq::empty(),
        output: None,
        path: None,
        format: None,
        quality: None,
        no_exif: false,
        extra_verbose: false,
        verbosity: 0,
        verbose_flag: false,
        double_verbose: false,
        token_v: 0,
        pending: None,
        trailing: false,
    }
}

/// Records the value of a value-taking switch.
pub open spec fn commit_value(st: CliState, sw: ValueSwitch, v: Seq<char>) -> Result<
    CliState,
    CliError,
> {
    match sw {
        ValueSwitch::Output => if st.output is Some {
            Err(CliError::RepeatedArgument)
        } else {
            Ok(CliState { output: Some(v), ..st })
        },
        ValueSwitch::Path => if st.path is Some {
            Err(CliError::RepeatedArgument)
        } else {
            Ok(CliState { path: Some(v), ..st })
        },
        ValueSwitch::Format => if st.format is Some {
            Err(CliError::RepeatedArgument)
        } else {
            match format_from_name(v) {
                Some(f) => Ok(CliState { format: Some(f), ..st }),
                None => Err(CliError::InvalidValue),
            }
        },
        ValueSwitch::Quality => if st.quality is Some {
            Err(CliError::RepeatedArgument)
        } else {
            match quality_from_text(v) {
                Some(q) => Ok(CliState { quality: Some(q), ..st }),
                None => Err(CliError::InvalidValue),
            }
        },
    }
}

/// Checks and records the pending switch, if any.
pub open spec fn resolve_pending(st: CliState) -> Result<CliState, CliError> {
    match st.pending {
        None => Ok(st),
        Some((_, None)) => Err(CliError::MissingValue),
        Some((sw, Some(v))) => commit_value(CliState { pending: None, ..st }, sw, v),
    }
}

/// Applies a flag.
pub open spec fn apply_flag(st: CliState, f: FlagSwitch) -> Result<CliState, CliError> {
    match f {
        FlagSwitch::NoExif => if st.no_exif {
            Err(CliError::RepeatedArgument)
        } else {
            Ok(CliState { no_exif: true, ..st })
        },
        FlagSwitch::ExtraVerbose => if st.extra_verbose {
            Err(CliError::RepeatedArgument)
        } else {
            Ok(CliState { extra_verbose: true, ..st })
        },
        FlagSwitch::Verbose => Ok(
            CliState {
                verbosity: if st.verbosity < 255 {
                    (st.verbosity + 1) as u8
                } else {
                    255
                },
                token_v: if st.token_v < 2 {
                    (st.token_v + 1) as u8
                } else {
                    st.token_v
                },
                ..st
            },
        ),
        FlagSwitch::Help => Err(CliError::Help),
        FlagSwitch::Version => Err(CliError::Version),
    }
}

/// Reacts to a known switch, with the value attached to it if any: the
/// pending switch is checked first.
pub open spec fn take_switch(st: CliState, sw: Switch, attached: Option<Seq<char>>) -> Result<
    CliState,
    CliError,
> {
    match resolve_pending(st) {
        Err(e) => Err(e),
        Ok(s) => match sw {
            Switch::Flag(f) => apply_flag(s, f),
            Switch::Value(v) => match attached {
                Some(val) => commit_value(s, v, val),
                None => Ok(CliState { pending: Some((v, None)), ..s }),
            },
        },
    }
}

/// Splits the text after `--` at its first `=`.
pub open spec fn split_at_equals(s: Seq<char>) -> (Seq<char>, Option<Seq<char>>)
    decreases s.len(),
{
    if s.len() == 0 {
        (s, None)
    } else if s[0] == '=' {
        (Seq::empty(), Some(s.drop_first()))
    } else {
        let (name, value) = split_at_equals(s.drop_first());
        (seq![s[0]] + name, value)
    }
}

/// Reads a long switch; `body` is the token without its leading `--`.
pub open spec fn step_long(st: CliState, body: Seq<char>) -> Result<CliState, CliError> {
    let (name, value) = split_at_equals(body);
    match long_switch(name) {
        None => Err(CliError::UnknownArgument),
        Some(Switch::Flag(f)) => if value is Some {
            Err(CliError::UnexpectedValue)
        } else {
            take_switch(st, Switch::Flag(f), None)
        },
        Some(sw) => take_switch(st, sw, value),
    }
}

/// Reads a cluster of short switches; `rest` is what is left of the token
/// after its leading `-`.  A value-taking letter takes the rest of the
/// cluster, without one leading `=`, as its value.
pub open spec fn step_short(st: CliState, rest: Seq<char>) -> Result<CliState, CliError>
    decreases rest.len(),
{
    if rest.len() == 0 {
        Ok(st)
    } else {
        match short_switch(rest[0]) {
            None => Err(CliError::UnknownArgument),
            Some(Switch::Flag(f)) => match take_switch(st, Switch::Flag(f), None) {
                Err(e) => Err(e),
                Ok(s) => step_short(s, rest.drop_first()),
            },
            Some(sw) => {
                let tail = rest.drop_first();
                if tail.len() == 0 {
                    take_switch(st, sw, None)
                } else if tail[0] == '=' {
                    take_switch(st, sw, Some(tail.drop_first()))
                } else {
                    take_switch(st, sw, Some(tail))
                }
            },
        }
    }
}

/// Reads a token that is not a switch: the awaited value of the pending
/// switch, or else an input.
pub open spec fn step_value(st: CliState, tok: Seq<char>) -> Result<CliState, CliError> {
    match st.pending {
        Some((sw, None)) if !st.trailing => Ok(CliState { pending: Some((sw, Some(tok))), ..st }),
        _ => match resolve_pending(st) {
            Err(e) => Err(e),
            Ok(s) => Ok(CliState { input: s.input.push(tok), ..s }),
        },
    }
}

/// Records what the `v` flags of the token just read mean: one `v` in a
/// token is `-v`, more than one is `-vv`.
pub open spec fn note_verbose(st: CliState) -> CliState {
    if st.token_v == 1 {
        CliState { verbose_flag: true, ..st }
    } else if st.token_v >= 2 {
        CliState { double_verbose: true, ..st }
    } else {
        st
    }
}

/// Reads one token, counting its `v` flags afresh.
pub open spec fn step(st: CliState, tok: Seq<char>) -> Result<CliState, CliError> {
    match step_token(CliState { token_v: 0, ..st }, tok) {
        Err(e) => Err(e),
        Ok(s) => Ok(note_verbose(s)),
    }
}

/// Reads one token, by its shape.
pub open spec fn step_token(st: CliState, tok: Seq<char>) -> Result<CliState, CliError> {
    if st.trailing {
        step_value(st, tok)
    } else if tok == "--"@ {
        Ok(CliState { trailing: true, ..st })
    } else if tok.len() >= 2 && tok[0] == '-' && tok[1] == '-' {
        step_long(st, tok.skip(2))
    } else if tok.len() >= 2 && tok[0] == '-' {
        step_short(st, tok.skip(1))
    } else {
        step_value(st, tok)
    }
}

/// Reads the tokens in order, stopping at the first refusal.
pub open spec fn run(st: CliState, toks: Seq<Seq<char>>) -> Result<CliState, CliError>
    decreases toks.len(),
{
    if toks.len() == 0 {
        Ok(st)
    } else {
        match step(st, toks[0]) {
            Err(e) => Err(e),
            Ok(s) => run(s, toks.drop_first()),
        }
    }
}

/// The parsed arguments as mathematical values.
#[verifier::ext_equal]
pub struct ArgsView {
    pub input: Seq<Seq<char>>,
    pub output: Seq<char>,
    pub path: Seq<char>,
    pub format: Format,
    pub quality: u8,
    pub exif: bool,
    pub verbosity: u8,
    pub verbose_flag: bool,
    pub double_verbose_flag: bool,
    pub extra_verbose_flag: bool,
}

/// The arguments once every token has been read: the pending switch is
/// checked, at least one input is required, and the defaults fill what was
/// not given (`{name}`, `{path}`, JPEG, quality 90, EXIF kept).
pub open spec fn finish(st: CliState) -> Result<ArgsView, CliError> {
    match resolve_pending(st) {
        Err(e) => Err(e),
        Ok(s) => if s.input.len() == 0 {
            Err(CliError::MissingInput)
        } else {
            Ok(
                ArgsView {
                    input: s.input,
                    output: match s.output {
                        Some(o) => o,
                        None => "{name}"@,
                    },
                    path: match s.path {
                        Some(p) => p,
                        None => "{path}"@,
                    },
                    format: match s.format {
                        Some(f) => f,
                        None => Format::Jpg,
                    },
                    quality: match s.quality {
                        Some(q) => q,
                        None => 90u8,
                    },
                    exif: !s.no_exif,
                    verbosity: s.verbosity,
                    verbose_flag: s.verbose_flag,
                    double_verbose_flag: s.double_verbose,
                    extra_verbose_flag: s.extra_verbose,
                },
            )
        },
    }
}

/// The meaning of a whole command line; its first token is the program's
/// name and is skipped.
pub open spec fn parse_command_line(argv: Seq<Seq<char>>) -> Result<ArgsView, CliError> {
    let toks = if argv.len() == 0 { argv } else { argv.drop_first() };
    match run(initial_state(), toks) {
        Err(e) => Err(e),
        Ok(st) => finish(st),
    }
}

impl View for Args {
    type V = ArgsView;

    open spec fn view(&self) -> ArgsView {
        ArgsView {
            input: self.input.deep_view(),
            output: self.output@,
            path: self.path@,
            format: self.format,
            quality: self.quality,
            exif: self.exif,
            verbosity: self.verbosity,
            verbose_flag: self.verbose_flag,
            double_verbose_flag: self.double_verbose_flag,
            extra_verbose_flag: self.extra_verbose_flag,
        }
    }
}


/// Folds a result and the state it left into the result of a spec step.
pub open spec fn lift(r: Result<(), CliError>, st: CliState) -> Result<CliState, CliError> {
    match r {
        Ok(_) => Ok(st),
        Err(e) => Err(e),
    }
}

/// Finds the format a `--format` value names.
pub fn format_from_text(v: &str) -> (f: Option<Format>)
    ensures
        f == format_from_name(v@),
{
    if str_eq(v, "jpg") {
        Some(Format::Jpg)
    } else if str_eq(v, "png") {
        Some(Format::Png)
    } else if str_eq(v, "webp") {
        Some(Format::Webp)
    } else if str_eq(v, "gif") {
        Some(Format::Gif)
    } else if str_eq(v, "tiff") {
        Some(Format::Tiff)
    } else if str_eq(v, "bmp") {
        Some(Format::Bmp)
    } else if str_eq(v, "ico") {
        Some(Format::Ico)
    } else {
        None
    }
}

proof fn lemma_digits_step(prefix: Seq<char>, c: char, acc: nat)
    requires
        is_digit(c),
        acc == if digits_value(prefix) <= 256 { digits_value(prefix) } else { 256 },
    ensures
        digits_value(prefix.push(c)) == digits_value(prefix) * 10 + ((c as u32 - '0' as u32) as nat),
        ({
            let next = acc * 10 + ((c as u32 - '0' as u32) as nat);
            let capped: nat = if next > 256 { 256 } else { next };
            capped == if digits_value(prefix.push(c)) <= 256 {
                digits_value(prefix.push(c))
            } else {
                256
            }
        }),
{
    assert(prefix.push(c).drop_last() =~= prefix);
}

/// Reads a `--quality` value.
pub fn quality_from_str(v: &str) -> (q: Option<u8>)
    ensures
        q == quality_from_text(v@),
{
    let n = v.unicode_len();
    let negative = n > 0 && v.get_char(0) == '-';
    let signed = n > 0 && (v.get_char(0) == '-' || v.get_char(0) == '+');
    let start: usize = if signed { 1 } else { 0 };
    let ghost digits = if signed { v@.drop_first() } else { v@ };
    assert(digits =~= v@.subrange(start as int, n as int));
    if start == n {
        return None;
    }
    let mut acc: u32 = 0;
    let mut i: usize = start;
    assert(digits.take(0) =~= Seq::<char>::empty());
    while i < n
        invariant
            n == v@.len(),
            signed == (v@.len() > 0 && (v@[0] == '-' || v@[0] == '+')),
            negative == (v@.len() > 0 && v@[0] == '-'),
            digits == (if signed { v@.drop_first() } else { v@ }),
            start <= i <= n,
            digits.len() == n - start,
            forall|k: int| 0 <= k < digits.len() ==> digits[k] == v@[k + start],
            all_digits(digits.take(i - start)),
            acc as nat == if digits_value(digits.take(i - start)) <= 256 {
                digits_value(digits.take(i - start))
            } else {
                256
            },
        decreases n - i,
    {
        let c = v.get_char(i);
        let ghost prefix = digits.take(i - start);
        assert(digits[i - start] == c);
        assert(digits.take(i - start + 1) =~= prefix.push(c));
        if !('0' <= c && c <= '9') {
            assert(!is_digit(digits[i - start]));
            return None;
        }
        proof {
            lemma_digits_step(prefix, c, acc as nat);
        }
        let d = (c as u32) - ('0' as u32);
        let next = acc * 10 + d;
        acc = if next > 256 { 256 } else { next };
        i = i + 1;
    }
    assert(digits.take(n - start) =~= digits);
    if acc <= 255 && (!negative || acc == 0) {
        Some(acc as u8)
    } else {
        None
    }
}

/// The switch a long name stands for.
pub fn long_switch_of(name: &str) -> (sw: Option<Switch>)
    ensures
        sw == long_switch(name@),
{
    if str_eq(name, "output") {
        Some(Switch::Value(ValueSwitch::Output))
    } else if str_eq(name, "path") {
        Some(Switch::Value(ValueSwitch::Path))
    } else if str_eq(name, "format") {
        Some(Switch::Value(ValueSwitch::Format))
    } else if str_eq(name, "quality") {
        Some(Switch::Value(ValueSwitch::Quality))
    } else if str_eq(name, "no-exif") {
        Some(Switch::Flag(FlagSwitch::NoExif))
    } else if str_eq(name, "verbose") {
        Some(Switch::Flag(FlagSwitch::Verbose))
    } else if str_eq(name, "extra-verbose") {
        Some(Switch::Flag(FlagSwitch::ExtraVerbose))
    } else if str_eq(name, "help") {
        Some(Switch::Flag(FlagSwitch::Help))
    } else if str_eq(name, "version") {
        Some(Switch::Flag(FlagSwitch::Version))
    } else {
        None
    }
}

/// The switch a short letter stands for.
pub fn short_switch_of(c: char) -> (sw: Option<Switch>)
    ensures
        sw == short_switch(c),
{
    if c == 'o' {
        Some(Switch::Value(ValueSwitch::Output))
    } else if c == 'p' {
        Some(Switch::Value(ValueSwitch::Path))
    } else if c == 'f' {
        Some(Switch::Value(ValueSwitch::Format))
    } else if c == 'q' {
        Some(Switch::Value(ValueSwitch::Quality))
    } else if c == 'n' {
        Some(Switch::Flag(FlagSwitch::NoExif))
    } else if c == 'v' {
        Some(Switch::Flag(FlagSwitch::Verbose))
    } else if c == 'h' {
        Some(Switch::Flag(FlagSwitch::Help))
    } else if c == 'V' {
        Some(Switch::Flag(FlagSwitch::Version))
    } else {
        None
    }
}


proof fn lemma_split_at_equals(s: Seq<char>, k: int)
    requires
        0 <= k <= s.len(),
        forall|j: int| 0 <= j < k ==> s[j] != '=',
        k == s.len() || s[k] == '=',
    ensures
        split_at_equals(s) == (s.take(k), if k < s.len() { Some(s.skip(k + 1)) } else { None }),
    decreases s.len(),
{
    if s.len() == 0 {
        assert(s.take(k) =~= s);
    } else if k == 0 {
        assert(s.take(0) =~= Seq::<char>::empty());
        assert(s.skip(1) =~= s.drop_first());
    } else {
        let rest = s.drop_first();
        assert forall|j: int| 0 <= j < k - 1 implies rest[j] != '=' by {
            assert(rest[j] == s[j + 1]);
        }
        if k < s.len() {
            assert(rest[k - 1] == s[k]);
        }
        lemma_split_at_equals(rest, k - 1);
        assert(seq![s[0]] + rest.take(k - 1) =~= s.take(k));
        if k < s.len() {
            assert(rest.skip(k) =~= s.skip(k + 1));
        }
    }
}

/// The reader's view of an optional pending switch.
pub open spec fn pending_view(p: Option<(ValueSwitch, Option<String>)>) -> Option<
    (ValueSwitch, Option<Seq<char>>),
> {
    match p {
        Some((sw, v)) => Some((sw, opt_text(v))),
        None => None,
    }
}

struct CliReader {
    input: Vec<String>,
    output: Option<String>,
    path: Option<String>,
    format: Option<Format>,
    quality: Option<u8>,
    no_exif: bool,
    extra_verbose: bool,
    verbosity: u8,
    verbose_flag: bool,
    double_verbose: bool,
    token_v: u8,
    pending: Option<(ValueSwitch, Option<String>)>,
    trailing: bool,
}

impl CliReader {
    spec fn state(&self) -> CliState {
        CliState {
            input: self.input.deep_view(),
            output: opt_text(self.output),
            path: opt_text(self.path),
            format: self.format,
            quality: self.quality,
            no_exif: self.no_exif,
            extra_verbose: self.extra_verbose,
            verbosity: self.verbosity,
            verbose_flag: self.verbose_flag,
            double_verbose: self.double_verbose,
            token_v: self.token_v,
            pending: pending_view(self.pending),
            trailing: self.trailing,
        }
    }

    fn new() -> (r: CliReader)
        ensures
            r.state() == initial_state(),
    {
        let r = CliReader {
            input: Vec::new(),
            output: None,
            path: None,
            format: None,
            quality: None,
            no_exif: false,
            extra_verbose: false,
            verbosity: 0,
            verbose_flag: false,
            double_verbose: false,
            token_v: 0,
            pending: None,
            trailing: false,
        };
        assert(r.input.deep_view() =~= Seq::<Seq<char>>::empty());
        r
    }

    fn commit(&mut self, sw: ValueSwitch, v: String) -> (r: Result<(), CliError>)
        ensures
            lift(r, final(self).state()) == commit_value(old(self).state(), sw, v@),
    {
        match sw {
            ValueSwitch::Output => {
                if self.output.is_some() {
                    Err(CliError::RepeatedArgument)
                } else {
                    self.output = Some(v);
                    Ok(())
                }
            },
            ValueSwitch::Path => {
                if self.path.is_some() {
                    Err(CliError::RepeatedArgument)
                } else {
                    self.path = Some(v);
                    Ok(())
                }
            },
            ValueSwitch::Format => {
                if self.format.is_some() {
                    Err(CliError::RepeatedArgument)
                } else {
                    match format_from_text(v.as_str()) {
                        Some(f) => {
                            self.format = Some(f);
                            Ok(())
                        },
                        None => Err(CliError::InvalidValue),
                    }
                }
            },
            ValueSwitch::Quality => {
                if self.quality.is_some() {
                    Err(CliError::RepeatedArgument)
                } else {
                    match quality_from_str(v.as_str()) {
                        Some(q) => {
                            self.quality = Some(q);
                            Ok(())
                        },
                        None => Err(CliError::InvalidValue),
                    }
                }
            },
        }
    }

    fn resolve(&mut self) -> (r: Result<(), CliError>)
        ensures
            lift(r, final(self).state()) == resolve_pending(old(self).state()),
    {
        match self.pending.take() {
            None => Ok(()),
            Some((_, None)) => Err(CliError::MissingValue),
            Some((sw, Some(v))) => self.commit(sw, v),
        }
    }

    fn apply(&mut self, f: FlagSwitch) -> (r: Result<(), CliError>)
        ensures
            lift(r, final(self).state()) == apply_flag(old(self).state(), f),
    {
        match f {
            FlagSwitch::NoExif => {
                if self.no_exif {
                    Err(CliError::RepeatedArgument)
                } else {
                    self.no_exif = true;
                    Ok(())
                }
            },
            FlagSwitch::ExtraVerbose => {
                if self.extra_verbose {
                    Err(CliError::RepeatedArgument)
                } else {
                    self.extra_verbose = true;
                    Ok(())
                }
            },
            FlagSwitch::Verbose => {
                if self.verbosity < 255 {
                    self.verbosity = self.verbosity + 1;
                }
                if self.token_v < 2 {
                    self.token_v = self.token_v + 1;
                }
                Ok(())
            },
            FlagSwitch::Help => Err(CliError::Help),
            FlagSwitch::Version => Err(CliError::Version),
        }
    }

    fn take(&mut self, sw: Switch, attached: Option<String>) -> (r: Result<(), CliError>)
        ensures
            lift(r, final(self).state()) == take_switch(old(self).state(), sw, opt_text(attached)),
    {
        match self.resolve() {
            Err(e) => Err(e),
            Ok(()) => match sw {
                Switch::Flag(f) => self.apply(f),
                Switch::Value(v) => match attached {
                    Some(val) => self.commit(v, val),
                    None => {
                        self.pending = Some((v, None));
                        Ok(())
                    },
                },
            },
        }
    }

    fn read_long(&mut self, tok: &str) -> (r: Result<(), CliError>)
        requires
            tok@.len() >= 2,
        ensures
            lift(r, final(self).state()) == step_long(old(self).state(), tok@.skip(2)),
    {
        let n = tok.unicode_len();
        let mut k: usize = 2;
        while k < n && tok.get_char(k) != '='
            invariant
                n == tok@.len(),
                2 <= k <= n,
                forall|j: int| 2 <= j < k ==> tok@[j] != '=',
            decreases n - k,
        {
            k = k + 1;
        }
        let name = tok.substring_char(2, k);
        let value = if k < n {
            Some(String::from_str(tok.substring_char(k + 1, n)))
        } else {
            None
        };
        proof {
            let body = tok@.skip(2);
            assert forall|j: int| 0 <= j < k - 2 implies body[j] != '=' by {
                assert(body[j] == tok@[j + 2]);
            }
            if k < n {
                assert(body[k - 2] == tok@[k as int]);
            }
            lemma_split_at_equals(body, k - 2);
            assert(body.take(k - 2) =~= name@);
            if k < n {
                assert(body.skip(k - 1) =~= tok@.subrange(k + 1, n as int));
            }
        }
        match long_switch_of(name) {
            None => Err(CliError::UnknownArgument),
            Some(Switch::Flag(f)) => {
                if value.is_some() {
                    Err(CliError::UnexpectedValue)
                } else {
                    self.take(Switch::Flag(f), None)
                }
            },
            Some(sw) => self.take(sw, value),
        }
    }

    fn read_short(&mut self, tok: &str) -> (r: Result<(), CliError>)
        requires
            tok@.len() >= 2,
        ensures
            lift(r, final(self).state()) == step_short(old(self).state(), tok@.skip(1)),
    {
        let ghost st0 = self.state();
        let n = tok.unicode_len();
        let mut j: usize = 1;
        while j < n
            invariant
                n == tok@.len(),
                1 <= j <= n,
                st0 == old(self).state(),
                step_short(st0, tok@.skip(1)) == step_short(self.state(), tok@.skip(j as int)),
            decreases n - j,
        {
            let c = tok.get_char(j);
            let ghost rest = tok@.skip(j as int);
            assert(rest[0] == c);
            assert(rest.drop_first() =~= tok@.skip(j + 1));
            match short_switch_of(c) {
                None => {
                    return Err(CliError::UnknownArgument);
                },
                Some(Switch::Flag(f)) => {
                    match self.take(Switch::Flag(f), None) {
                        Err(e) => {
                            return Err(e);
                        },
                        Ok(()) => {},
                    }
                    j = j + 1;
                },
                Some(sw) => {
                    let ghost tail = tok@.skip(j + 1);
                    if j + 1 == n {
                        assert(tail.len() == 0);
                        return self.take(sw, None);
                    } else if tok.get_char(j + 1) == '=' {
                        assert(tail[0] == '=');
                        let v = String::from_str(tok.substring_char(j + 2, n));
                        assert(tail.drop_first() =~= v@);
                        return self.take(sw, Some(v));
                    } else {
                        assert(tail[0] != '=');
                        let v = String::from_str(tok.substring_char(j + 1, n));
                        assert(tail =~= v@);
                        return self.take(sw, Some(v));
                    }
                },
            }
        }
        assert(tok@.skip(j as int).len() == 0);
        Ok(())
    }

    fn read_value(&mut self, tok: &str) -> (r: Result<(), CliError>)
        ensures
            lift(r, final(self).state()) == step_value(old(self).state(), tok@),
    {
        let awaiting: Option<ValueSwitch> = match &self.pending {
            Some((sw, None)) => Some(*sw),
            _ => None,
        };
        if !self.trailing && awaiting.is_some() {
            let sw = awaiting.unwrap();
            self.pending = Some((sw, Some(String::from_str(tok))));
            Ok(())
        } else {
            match self.resolve() {
                Err(e) => Err(e),
                Ok(()) => {
                    let ghost before = self.input.deep_view();
                    self.input.push(String::from_str(tok));
                    assert(self.input.deep_view() =~= before.push(tok@));
                    Ok(())
                },
            }
        }
    }

    fn read(&mut self, tok: &str) -> (r: Result<(), CliError>)
        ensures
            lift(r, final(self).state()) == step(old(self).state(), tok@),
    {
        self.token_v = 0;
        let r = self.read_token(tok);
        if r.is_ok() {
            if self.token_v == 1 {
                self.verbose_flag = true;
            } else if self.token_v >= 2 {
                self.double_verbose = true;
            }
        }
        r
    }

    fn read_token(&mut self, tok: &str) -> (r: Result<(), CliError>)
        ensures
            lift(r, final(self).state()) == step_token(old(self).state(), tok@),
    {
        if self.trailing {
            return self.read_value(tok);
        }
        let n = tok.unicode_len();
        let dash0 = n >= 1 && tok.get_char(0) == '-';
        let dash1 = n >= 2 && tok.get_char(1) == '-';
        proof {
            reveal_strlit("--");
        }
        if n == 2 && dash0 && dash1 {
            assert(tok@ =~= "--"@);
            self.trailing = true;
            Ok(())
        } else if n >= 2 && dash0 && dash1 {
            self.read_long(tok)
        } else if n >= 2 && dash0 {
            self.read_short(tok)
        } else {
            self.read_value(tok)
        }
    }
}

/// The meaning of a whole command line, as results of [`Args::parse_from`].
pub open spec fn args_result_view(r: Result<Args, CliError>) -> Result<ArgsView, CliError> {
    match r {
        Ok(a) => Ok(a@),
        Err(e) => Err(e),
    }
}

impl Args {
    /// Parses a command line; its first token is the program's name.
    pub fn parse_from(argv: &[&str]) -> (r: Result<Args, CliError>)
        ensures
            args_result_view(r) == parse_command_line(argv@.map_values(|t: &str| t@)),
    {
        let ghost toks_all = argv@.map_values(|t: &str| t@);
        let ghost toks = if toks_all.len() == 0 { toks_all } else { toks_all.drop_first() };
        let mut reader = CliReader::new();
        let n = argv.len();
        let mut i: usize = if n == 0 { 0 } else { 1 };
        assert(toks =~= toks_all.skip(i as int));
        while i < n
            invariant
                n == argv@.len(),
                toks_all == argv@.map_values(|t: &str| t@),
                toks == (if toks_all.len() == 0 { toks_all } else { toks_all.drop_first() }),
                i <= n,
                run(initial_state(), toks) == run(reader.state(), toks_all.skip(i as int)),
            decreases n - i,
        {
            let ghost rest = toks_all.skip(i as int);
            assert(rest[0] == argv@[i as int]@);
            assert(rest.drop_first() =~= toks_all.skip(i + 1));
            match reader.read(argv[i]) {
                Err(e) => {
                    return Err(e);
                },
                Ok(()) => {},
            }
            i = i + 1;
        }
        assert(toks_all.skip(i as int).len() == 0);
        match reader.resolve() {
            Err(e) => Err(e),
            Ok(()) => {
                if reader.input.len() == 0 {
                    Err(CliError::MissingInput)
                } else {
                    let args = Args {
                        input: reader.input,
                        output: match reader.output {
                            Some(o) => o,
                            None => String::from_str("{name}"),
                        },
                        path: match reader.path {
                            Some(p) => p,
                            None => String::from_str("{path}"),
                        },
                        format: match reader.format {
                            Some(f) => f,
                            None => Format::Jpg,
                        },
                        quality: match reader.quality {
                            Some(q) => q,
                            None => 90,
                        },
                        exif: !reader.no_exif,
                        verbosity: reader.verbosity,
                        verbose_flag: reader.verbose_flag,
                        double_verbose_flag: reader.double_verbose,
                        extra_verbose_flag: reader.extra_verbose,
                    };
                    Ok(args)
                }
            },
        }
    }
}


/// Every format's name is read back as that format: the values `--format`
/// accepts are exactly the extensions of the output files.
pub proof fn lemma_format_name_roundtrip(f: Format)
    ensures
        format_from_name(format_name(f)) == Some(f),
{
    reveal_strlit("jpg");
    reveal_strlit("png");
    reveal_strlit("webp");
    reveal_strlit("gif");
    reveal_strlit("tiff");
    reveal_strlit("bmp");
    reveal_strlit("ico");
    assert("jpg"@[0] == 'j' && "png"@[0] == 'p' && "webp"@[0] == 'w' && "gif"@[0] == 'g');
    assert("tiff"@[0] == 't' && "bmp"@[0] == 'b' && "ico"@[0] == 'i');
}

/// A token that is neither a switch nor `--`: shorter than two characters
/// or not starting with `-`.
pub open spec fn is_plain(tok: Seq<char>) -> bool {
    tok.len() < 2 || tok[0] != '-'
}

proof fn lemma_run_plain(st: CliState, toks: Seq<Seq<char>>)
    requires
        st.pending is None,
        !st.trailing,
        st.token_v == 0,
        forall|i: int| 0 <= i < toks.len() ==> is_plain(#[trigger] toks[i]),
    ensures
        run(st, toks) == Ok::<CliState, CliError>(CliState { input: st.input + toks, ..st }),
    decreases toks.len(),
{
    reveal_strlit("--");
    if toks.len() == 0 {
        assert(st.input + toks =~= st.input);
        assert(CliState { input: st.input + toks, ..st } =~= st);
    } else {
        let tok = toks[0];
        assert(is_plain(tok));
        assert(tok != "--"@);
        let next = CliState { input: st.input.push(tok), ..st };
        assert(CliState { token_v: 0, ..st } == st);
        assert(step_token(st, tok) == Ok::<CliState, CliError>(next));
        assert(step(st, tok) == Ok::<CliState, CliError>(next));
        let rest = toks.drop_first();
        assert forall|i: int| 0 <= i < rest.len() implies is_plain(#[trigger] rest[i]) by {
            assert(rest[i] == toks[i + 1]);
        }
        lemma_run_plain(next, rest);
        assert(next.input + rest =~= st.input + toks);
    }
}

/// A command line of plain inputs only is accepted with every default:
/// the output is named `{name}` in `{path}`, as JPEG at quality 90, with
/// the EXIF metadata kept and the log at its default level.
pub proof fn lemma_plain_inputs_take_defaults(argv: Seq<Seq<char>>)
    requires
        argv.len() >= 2,
        forall|i: int| 1 <= i < argv.len() ==> is_plain(#[trigger] argv[i]),
    ensures
        parse_command_line(argv) == Ok::<ArgsView, CliError>(
            ArgsView {
                input: argv.drop_first(),
                output: "{name}"@,
                path: "{path}"@,
                format: Format::Jpg,
                quality: 90,
                exif: true,
                verbosity: 0,
                verbose_flag: false,
                double_verbose_flag: false,
                extra_verbose_flag: false,
            },
        ),
{
    let toks = argv.drop_first();
    assert forall|i: int| 0 <= i < toks.len() implies is_plain(#[trigger] toks[i]) by {
        assert(toks[i] == argv[i + 1]);
    }
    lemma_run_plain(initial_state(), toks);
    assert(Seq::<Seq<char>>::empty() + toks =~= toks);
}

/// An accepted command line names at least one input.
pub proof fn lemma_accepted_has_input(argv: Seq<Seq<char>>)
    ensures
        parse_command_line(argv) matches Ok(a) ==> a.input.len() > 0,
{
}

/// Whether two states agree on the flags set by whole tokens.
pub open spec fn same_token_flags(a: CliState, b: CliState) -> bool {
    a.verbose_flag == b.verbose_flag && a.double_verbose == b.double_verbose && a.trailing
        == b.trailing
}

proof fn lemma_take_switch_keeps(st: CliState, sw: Switch, attached: Option<Seq<char>>)
    ensures
        take_switch(st, sw, attached) matches Ok(s) ==> same_token_flags(st, s),
{
}

proof fn lemma_step_short_keeps(st: CliState, rest: Seq<char>)
    ensures
        step_short(st, rest) matches Ok(s) ==> same_token_flags(st, s),
    decreases rest.len(),
{
    if rest.len() > 0 {
        match short_switch(rest[0]) {
            Some(Switch::Flag(f)) => {
                lemma_take_switch_keeps(st, Switch::Flag(f), None);
                match take_switch(st, Switch::Flag(f), None) {
                    Ok(s) => lemma_step_short_keeps(s, rest.drop_first()),
                    Err(_) => {},
                }
            },
            Some(sw) => {
                let tail = rest.drop_first();
                lemma_take_switch_keeps(st, sw, None);
                if tail.len() > 0 {
                    lemma_take_switch_keeps(st, sw, Some(tail.drop_first()));
                    lemma_take_switch_keeps(st, sw, Some(tail));
                }
            },
            None => {},
        }
    }
}

/// A token never clears a flag set by an earlier one, and starts the
/// trailing inputs exactly when it is `--`.
proof fn lemma_step_keeps_flags(st: CliState, tok: Seq<char>)
    ensures
        step(st, tok) matches Ok(s) ==> (st.verbose_flag ==> s.verbose_flag) && (st.double_verbose
            ==> s.double_verbose) && (s.trailing <==> (st.trailing || tok == "--"@)),
{
    let st0 = CliState { token_v: 0, ..st };
    if !st.trailing && tok != "--"@ && tok.len() >= 2 && tok[0] == '-' {
        if tok[1] == '-' {
            let (name, value) = split_at_equals(tok.skip(2));
            match long_switch(name) {
                Some(sw) => {
                    lemma_take_switch_keeps(st0, sw, None);
                    lemma_take_switch_keeps(st0, sw, value);
                },
                None => {},
            }
        } else {
            lemma_step_short_keeps(st0, tok.skip(1));
        }
    }
}

/// What a token made of `-` and `v`s alone sets: one `v`, the verbose flag;
/// more, the double one.
proof fn lemma_v_token(st: CliState, tok: Seq<char>)
    requires
        !st.trailing,
        tok == "-v"@ || tok == "-vv"@,
    ensures
        step(st, tok) matches Ok(s) ==> (tok == "-v"@ ==> s.verbose_flag) && (tok == "-vv"@
            ==> s.double_verbose),
{
    reveal_strlit("-v");
    reveal_strlit("-vv");
    reveal_strlit("--");
    let st0 = CliState { token_v: 0, ..st };
    let rest = tok.skip(1);
    assert(tok != "--"@) by {
        assert(tok[1] != "--"@[1]);
    }
    assert(rest[0] == 'v');
    assert(short_switch('v') == Some(Switch::Flag(FlagSwitch::Verbose)));
    assert(step_token(st0, tok) == step_short(st0, rest));
    match take_switch(st0, Switch::Flag(FlagSwitch::Verbose), None) {
        Ok(s1) => {
            assert(s1.token_v == 1);
            let rest1 = rest.drop_first();
            assert(step_short(st0, rest) == step_short(s1, rest1));
            if tok == "-v"@ {
                assert(rest1.len() == 0);
                assert(step_short(s1, rest1) == Ok::<CliState, CliError>(s1));
                assert(note_verbose(s1).verbose_flag);
            } else {
                assert(rest1[0] == 'v');
                let rest2 = rest1.drop_first();
                assert(rest2.len() == 0);
                match take_switch(s1, Switch::Flag(FlagSwitch::Verbose), None) {
                    Ok(s2) => {
                        assert(s2.token_v == 2);
                        assert(step_short(s1, rest1) == step_short(s2, rest2));
                        assert(step_short(s2, rest2) == Ok::<CliState, CliError>(s2));
                        assert(note_verbose(s2).double_verbose);
                    },
                    Err(_) => {},
                }
            }
        },
        Err(_) => {},
    }
}

proof fn lemma_run_sees_v_token(st: CliState, toks: Seq<Seq<char>>, k: int)
    requires
        !st.trailing,
        0 <= k < toks.len(),
        toks[k] == "-v"@ || toks[k] == "-vv"@,
        forall|j: int| 0 <= j < k ==> #[trigger] toks[j] != "--"@,
    ensures
        run(st, toks) matches Ok(s) ==> (toks[k] == "-v"@ ==> s.verbose_flag) && (toks[k] == "-vv"@
            ==> s.double_verbose),
    decreases k,
{
    let rest = toks.drop_first();
    match step(st, toks[0]) {
        Ok(s) => {
            lemma_step_keeps_flags(st, toks[0]);
            if k == 0 {
                lemma_v_token(st, toks[0]);
                // The flags stay set whatever follows, `--` included.
                lemma_run_keeps_set(s, rest);
            } else {
                assert forall|j: int| 0 <= j < k - 1 implies #[trigger] rest[j] != "--"@ by {
                    assert(rest[j] == toks[j + 1]);
                }
                assert(rest[k - 1] == toks[k]);
                lemma_run_sees_v_token(s, rest, k - 1);
            }
        },
        Err(_) => {},
    }
}

proof fn lemma_run_keeps_set(st: CliState, toks: Seq<Seq<char>>)
    ensures
        run(st, toks) matches Ok(s) ==> (st.verbose_flag ==> s.verbose_flag) && (st.double_verbose
            ==> s.double_verbose),
    decreases toks.len(),
{
    if toks.len() > 0 {
        lemma_step_keeps_flags(st, toks[0]);
        match step(st, toks[0]) {
            Ok(s) => lemma_run_keeps_set(s, toks.drop_first()),
            Err(_) => {},
        }
    }
}

/// A `-v` token before any `--` makes an accepted command line verbose, and
/// a `-vv` token makes it extra verbose, whatever else it holds.
pub proof fn lemma_verbose_tokens_are_seen(argv: Seq<Seq<char>>, k: int)
    requires
        1 <= k < argv.len(),
        argv[k] == "-v"@ || argv[k] == "-vv"@,
        forall|j: int| 1 <= j < k ==> #[trigger] argv[j] != "--"@,
    ensures
        parse_command_line(argv) matches Ok(a) ==> (argv[k] == "-v"@ ==> a.verbose_flag) && (argv[k]
            == "-vv"@ ==> a.double_verbose_flag),
{
    let toks = argv.drop_first();
    assert forall|j: int| 0 <= j < k - 1 implies #[trigger] toks[j] != "--"@ by {
        assert(toks[j] == argv[j + 1]);
    }
    assert(toks[k - 1] == argv[k]);
    lemma_run_sees_v_token(initial_state(), toks, k - 1);
}

/// `-f` followed by a format's extension selects that format: the values
/// `--format` takes are the extensions of the files written.
pub proof fn lemma_format_switch_takes_extension(prog: Seq<char>, f: Format, input: Seq<char>)
    requires
        is_plain(input),
    ensures
        parse_command_line(seq![prog, "-f"@, format_name(f), input]) matches Ok(a) && a.format == f
            && a.input == seq![input],
{
    reveal_strlit("-f");
    reveal_strlit("--");
    reveal_strlit("jpg");
    reveal_strlit("png");
    reveal_strlit("webp");
    reveal_strlit("gif");
    reveal_strlit("tiff");
    reveal_strlit("bmp");
    reveal_strlit("ico");
    lemma_format_name_roundtrip(f);
    let argv = seq![prog, "-f"@, format_name(f), input];
    let toks = argv.drop_first();
    assert(toks =~= seq!["-f"@, format_name(f), input]);
    let name = format_name(f);
    assert(name.len() >= 3 && name[0] != '-');
    let st0 = initial_state();
    let flag = "-f"@;
    assert(flag != "--"@) by {
        assert(flag[1] != "--"@[1]);
    }
    assert(flag.skip(1)[0] == 'f');
    assert(flag.skip(1).drop_first().len() == 0);
    let s1 = CliState { pending: Some((ValueSwitch::Format, None)), ..st0 };
    assert(step_short(st0, flag.skip(1)) == Ok::<CliState, CliError>(s1));
    assert(step(st0, flag) == Ok::<CliState, CliError>(s1));
    assert(name != "--"@) by {
        assert(name.len() != 2);
    }
    let s2 = CliState { pending: Some((ValueSwitch::Format, Some(name))), ..s1 };
    assert(step(s1, name) == Ok::<CliState, CliError>(s2));
    assert(input != "--"@) by {
        if input.len() == 2 {
            assert(input[0] != "--"@[0]);
        }
    }
    let s3 = CliState { pending: None, format: Some(f), input: s2.input.push(input), ..s2 };
    assert(step(s2, input) == Ok::<CliState, CliError>(s3));
    let rest = toks.drop_first();
    assert(rest.drop_first().drop_first().len() == 0);
    assert(run(s3, rest.drop_first().drop_first()) == Ok::<CliState, CliError>(s3));
    assert(run(s2, rest.drop_first()) == Ok::<CliState, CliError>(s3));
    assert(run(s1, rest) == Ok::<CliState, CliError>(s3));
    assert(run(st0, toks) == Ok::<CliState, CliError>(s3));
    assert(s3.input =~= seq![input]);
}

/// The arguments of a command line naming one input and nothing else.
pub open spec fn plain_args(input: Seq<char>) -> ArgsView {
    ArgsView {
        input: seq![input],
        output: "{name}"@,
        path: "{path}"@,
        format: Format::Jpg,
        quality: 90,
        exif: true,
        verbosity: 0,
        verbose_flag: false,
        double_verbose_flag: false,
        extra_verbose_flag: false,
    }
}

proof fn lemma_plain_token(st: CliState, f: Seq<char>)
    requires
        is_plain(f),
        !st.trailing,
    ensures
        step_token(st, f) == step_value(st, f),
{
    reveal_strlit("--");
    if f.len() == 2 {
        assert(f != "--"@) by {
            assert(f[0] != "--"@[0]);
        }
    }
}

/// A command line of one switch token and one input.
proof fn lemma_switch_then_input(prog: Seq<char>, tok: Seq<char>, f: Seq<char>, s1: CliState)
    requires
        is_plain(f),
        step(initial_state(), tok) == Ok::<CliState, CliError>(s1),
        s1.pending is None,
        !s1.trailing,
    ensures
        parse_command_line(seq![prog, tok, f]) == finish(
            CliState { input: s1.input.push(f), token_v: 0, ..s1 },
        ),
{
    let argv = seq![prog, tok, f];
    let toks = argv.drop_first();
    assert(toks =~= seq![tok, f]);
    let s1z = CliState { token_v: 0, ..s1 };
    lemma_plain_token(s1z, f);
    let s2 = CliState { input: s1.input.push(f), token_v: 0, ..s1 };
    assert(step_token(s1z, f) == Ok::<CliState, CliError>(s2));
    assert(note_verbose(s2) == s2);
    assert(step(s1, f) == Ok::<CliState, CliError>(s2));
    assert(toks.drop_first() =~= seq![f]);
    assert(seq![f].drop_first().len() == 0);
    assert(run(s2, seq![f].drop_first()) == Ok::<CliState, CliError>(s2));
    assert(run(s1, seq![f]) == Ok::<CliState, CliError>(s2));
    assert(run(initial_state(), toks) == Ok::<CliState, CliError>(s2));
}

/// A command line of a value-taking switch, its value and one input.
proof fn lemma_value_switch_then_input(
    prog: Seq<char>,
    tok: Seq<char>,
    v: Seq<char>,
    f: Seq<char>,
    sw: ValueSwitch,
)
    requires
        is_plain(v),
        is_plain(f),
        step(initial_state(), tok) == Ok::<CliState, CliError>(
            CliState { pending: Some((sw, None)), ..initial_state() },
        ),
    ensures
        parse_command_line(seq![prog, tok, v, f]) == match commit_value(initial_state(), sw, v) {
            Ok(c) => finish(CliState { input: seq![f], ..c }),
            Err(e) => Err(e),
        },
{
    let argv = seq![prog, tok, v, f];
    let toks = argv.drop_first();
    assert(toks =~= seq![tok, v, f]);
    let s1 = CliState { pending: Some((sw, None)), ..initial_state() };
    lemma_plain_token(s1, v);
    let s2 = CliState { pending: Some((sw, Some(v))), ..s1 };
    assert(step(s1, v) == Ok::<CliState, CliError>(s2));
    lemma_plain_token(s2, f);
    let rest = toks.drop_first();
    assert(rest =~= seq![v, f]);
    assert(rest.drop_first() =~= seq![f]);
    assert(seq![f].drop_first().len() == 0);
    assert(CliState { pending: None, ..s2 } == initial_state());
    match commit_value(initial_state(), sw, v) {
        Ok(c) => {
            let s3 = CliState { input: c.input.push(f), ..c };
            assert(c.input == Seq::<Seq<char>>::empty());
            assert(c.token_v == 0);
            assert(step(s2, f) == Ok::<CliState, CliError>(s3));
            assert(run(s3, seq![f].drop_first()) == Ok::<CliState, CliError>(s3));
            assert(run(s2, rest.drop_first()) == Ok::<CliState, CliError>(s3));
            assert(s3 == CliState { input: seq![f], ..c });
        },
        Err(e) => {
            assert(step(s2, f) == Err::<CliState, CliError>(e));
        },
    }
    assert(run(s1, rest) == run(s2, rest.drop_first()));
}

proof fn lemma_long_flag_token(st: CliState, name: Seq<char>)
    requires
        !st.trailing,
        name.len() > 0,
        forall|j: int| 0 <= j < name.len() ==> name[j] != '=',
    ensures
        step_token(st, "--"@ + name) == step_long(st, name),
        split_at_equals(name) == (name, None::<Seq<char>>),
{
    reveal_strlit("--");
    let tok = "--"@ + name;
    assert(tok != "--"@) by {
        assert(tok.len() != 2);
    }
    assert(tok.skip(2) =~= name);
    lemma_split_at_equals(name, name.len() as int);
    assert(name.take(name.len() as int) =~= name);
}

/// `--no-exif` is `-n`: a command line with either and one input keeps
/// every default but the EXIF metadata, which is dropped.
pub proof fn lemma_no_exif_switch(prog: Seq<char>, f: Seq<char>)
    requires
        is_plain(f),
    ensures
        parse_command_line(seq![prog, "--no-exif"@, f]) == Ok::<ArgsView, CliError>(
            ArgsView { exif: false, ..plain_args(f) },
        ),
        parse_command_line(seq![prog, "-n"@, f]) == Ok::<ArgsView, CliError>(
            ArgsView { exif: false, ..plain_args(f) },
        ),
{
    reveal_strlit("--no-exif");
    reveal_strlit("no-exif");
    reveal_strlit("-n");
    reveal_strlit("--");
    reveal_strlit("output");
    reveal_strlit("path");
    reveal_strlit("format");
    reveal_strlit("quality");
    let st0 = initial_state();
    let s1 = CliState { no_exif: true, ..st0 };
    let name = "no-exif"@;
    assert("--no-exif"@ =~= "--"@ + name);
    lemma_long_flag_token(st0, name);
    assert(long_switch(name) == Some(Switch::Flag(FlagSwitch::NoExif)));
    assert(step(st0, "--no-exif"@) == Ok::<CliState, CliError>(s1));
    lemma_switch_then_input(prog, "--no-exif"@, f, s1);
    let short = "-n"@;
    assert(short != "--"@) by {
        assert(short[1] != "--"@[1]);
    }
    assert(short.skip(1) =~= seq!['n']);
    assert(seq!['n'].drop_first().len() == 0);
    assert(step_short(s1, seq!['n'].drop_first()) == Ok::<CliState, CliError>(s1));
    assert(short_switch('n') is Some);
    assert(step_short(st0, seq!['n']) == Ok::<CliState, CliError>(s1));
    assert(step_short(st0, short.skip(1)) == Ok::<CliState, CliError>(s1));
    assert(step(st0, short) == Ok::<CliState, CliError>(s1));
    lemma_switch_then_input(prog, short, f, s1);
    assert(s1.input.push(f) =~= seq![f]);
}

/// `--verbose` is `-v`: a command line with either and one input is
/// verbose, and keeps every other default.
pub proof fn lemma_verbose_switch(prog: Seq<char>, f: Seq<char>)
    requires
        is_plain(f),
    ensures
        parse_command_line(seq![prog, "--verbose"@, f]) == Ok::<ArgsView, CliError>(
            ArgsView { verbosity: 1, verbose_flag: true, ..plain_args(f) },
        ),
        parse_command_line(seq![prog, "-v"@, f]) == Ok::<ArgsView, CliError>(
            ArgsView { verbosity: 1, verbose_flag: true, ..plain_args(f) },
        ),
{
    reveal_strlit("--verbose");
    reveal_strlit("verbose");
    reveal_strlit("-v");
    reveal_strlit("--");
    reveal_strlit("output");
    reveal_strlit("path");
    reveal_strlit("format");
    reveal_strlit("quality");
    reveal_strlit("no-exif");
    let st0 = initial_state();
    let s1 = CliState { verbosity: 1, token_v: 1, ..st0 };
    let s1n = CliState { verbose_flag: true, ..s1 };
    let name = "verbose"@;
    assert("--verbose"@ =~= "--"@ + name);
    lemma_long_flag_token(st0, name);
    assert(name != "no-exif"@) by {
        assert(name[0] != "no-exif"@[0]);
    }
    assert(long_switch(name) == Some(Switch::Flag(FlagSwitch::Verbose)));
    assert(step_token(st0, "--verbose"@) == Ok::<CliState, CliError>(s1));
    assert(step(st0, "--verbose"@) == Ok::<CliState, CliError>(s1n));
    lemma_switch_then_input(prog, "--verbose"@, f, s1n);
    let short = "-v"@;
    assert(short != "--"@) by {
        assert(short[1] != "--"@[1]);
    }
    assert(short.skip(1) =~= seq!['v']);
    assert(seq!['v'].drop_first().len() == 0);
    assert(step_short(s1, seq!['v'].drop_first()) == Ok::<CliState, CliError>(s1));
    assert(short_switch('v') is Some);
    assert(step_short(st0, seq!['v']) == Ok::<CliState, CliError>(s1));
    assert(step_short(st0, short.skip(1)) == Ok::<CliState, CliError>(s1));
    assert(step(st0, short) == Ok::<CliState, CliError>(s1n));
    lemma_switch_then_input(prog, short, f, s1n);
    assert(s1n.input.push(f) =~= seq![f]);
}

/// `--extra-verbose` with one input is extra verbose, and keeps every other
/// default.
pub proof fn lemma_extra_verbose_switch(prog: Seq<char>, f: Seq<char>)
    requires
        is_plain(f),
    ensures
        parse_command_line(seq![prog, "--extra-verbose"@, f]) == Ok::<ArgsView, CliError>(
            ArgsView { extra_verbose_flag: true, ..plain_args(f) },
        ),
{
    reveal_strlit("--extra-verbose");
    reveal_strlit("extra-verbose");
    reveal_strlit("--");
    reveal_strlit("output");
    reveal_strlit("path");
    reveal_strlit("format");
    reveal_strlit("quality");
    reveal_strlit("no-exif");
    reveal_strlit("verbose");
    let st0 = initial_state();
    let s1 = CliState { extra_verbose: true, ..st0 };
    let name = "extra-verbose"@;
    assert("--extra-verbose"@ =~= "--"@ + name);
    lemma_long_flag_token(st0, name);
    assert(long_switch(name) == Some(Switch::Flag(FlagSwitch::ExtraVerbose)));
    assert(step(st0, "--extra-verbose"@) == Ok::<CliState, CliError>(s1));
    lemma_switch_then_input(prog, "--extra-verbose"@, f, s1);
    assert(s1.input.push(f) =~= seq![f]);
}

/// The long and the short token of a value-taking switch each leave that
/// switch waiting for its value.
proof fn lemma_value_switch_tokens(name: Seq<char>, c: char, sw: ValueSwitch)
    requires
        name.len() > 2,
        forall|j: int| 0 <= j < name.len() ==> name[j] != '=',
        long_switch(name) == Some(Switch::Value(sw)),
        short_switch(c) == Some(Switch::Value(sw)),
        c != '-',
    ensures
        step(initial_state(), "--"@ + name) == Ok::<CliState, CliError>(
            CliState { pending: Some((sw, None)), ..initial_state() },
        ),
        step(initial_state(), seq!['-', c]) == Ok::<CliState, CliError>(
            CliState { pending: Some((sw, None)), ..initial_state() },
        ),
{
    reveal_strlit("--");
    let st0 = initial_state();
    lemma_long_flag_token(st0, name);
    let tok = seq!['-', c];
    assert(tok != "--"@) by {
        assert(tok[1] != "--"@[1]);
    }
    assert(tok.skip(1) =~= seq![c]);
    assert(seq![c].drop_first().len() == 0);
}

/// `--output` is `-o`: a command line with either, a name and one input
/// writes under that name and keeps every other default.
pub proof fn lemma_output_switch(prog: Seq<char>, v: Seq<char>, f: Seq<char>)
    requires
        is_plain(v),
        is_plain(f),
    ensures
        parse_command_line(seq![prog, "--output"@, v, f]) == parse_command_line(
            seq![prog, "-o"@, v, f],
        ),
        parse_command_line(seq![prog, "--output"@, v, f]) == Ok::<ArgsView, CliError>(
            ArgsView { output: v, ..plain_args(f) },
        ),
{
    reveal_strlit("output");
    reveal_strlit("path");
    reveal_strlit("format");
    reveal_strlit("quality");
    lemma_value_switch_tokens("output"@, 'o', ValueSwitch::Output);
    assert("--output"@ =~= "--"@ + "output"@) by {
        reveal_strlit("--output");
        reveal_strlit("output");
        reveal_strlit("--");
    }
    assert("-o"@ =~= seq!['-', 'o']) by {
        reveal_strlit("-o");
    }
    lemma_value_switch_then_input(prog, "--output"@, v, f, ValueSwitch::Output);
    lemma_value_switch_then_input(prog, "-o"@, v, f, ValueSwitch::Output);
    assert(seq![f] =~= seq![f]);
}

/// `--path` is `-p`: a command line with either, a directory and one input
/// writes into that directory and keeps every other default.
pub proof fn lemma_path_switch(prog: Seq<char>, v: Seq<char>, f: Seq<char>)
    requires
        is_plain(v),
        is_plain(f),
    ensures
        parse_command_line(seq![prog, "--path"@, v, f]) == parse_command_line(
            seq![prog, "-p"@, v, f],
        ),
        parse_command_line(seq![prog, "--path"@, v, f]) == Ok::<ArgsView, CliError>(
            ArgsView { path: v, ..plain_args(f) },
        ),
{
    reveal_strlit("output");
    reveal_strlit("path");
    reveal_strlit("format");
    reveal_strlit("quality");
    lemma_value_switch_tokens("path"@, 'p', ValueSwitch::Path);
    assert("--path"@ =~= "--"@ + "path"@) by {
        reveal_strlit("--path");
        reveal_strlit("path");
        reveal_strlit("--");
    }
    assert("-p"@ =~= seq!['-', 'p']) by {
        reveal_strlit("-p");
    }
    lemma_value_switch_then_input(prog, "--path"@, v, f, ValueSwitch::Path);
    lemma_value_switch_then_input(prog, "-p"@, v, f, ValueSwitch::Path);
    assert(seq![f] =~= seq![f]);
}

/// `--quality` is `-q`: both read the same value the same way.
pub proof fn lemma_quality_switch(prog: Seq<char>, v: Seq<char>, f: Seq<char>)
    requires
        is_plain(v),
        is_plain(f),
    ensures
        parse_command_line(seq![prog, "--quality"@, v, f]) == parse_command_line(
            seq![prog, "-q"@, v, f],
        ),
        parse_command_line(seq![prog, "--quality"@, v, f]) matches Ok(a) ==> a == (ArgsView {
            quality: a.quality,
            ..plain_args(f)
        }),
{
    reveal_strlit("output");
    reveal_strlit("path");
    reveal_strlit("format");
    reveal_strlit("quality");
    lemma_value_switch_tokens("quality"@, 'q', ValueSwitch::Quality);
    assert("--quality"@ =~= "--"@ + "quality"@) by {
        reveal_strlit("--quality");
        reveal_strlit("quality");
        reveal_strlit("--");
    }
    assert("-q"@ =~= seq!['-', 'q']) by {
        reveal_strlit("-q");
    }
    lemma_value_switch_then_input(prog, "--quality"@, v, f, ValueSwitch::Quality);
    lemma_value_switch_then_input(prog, "-q"@, v, f, ValueSwitch::Quality);
    assert(seq![f] =~= seq![f]);
}

/// `--format` is `-f`: both read the same value the same way.
pub proof fn lemma_format_switch(prog: Seq<char>, v: Seq<char>, f: Seq<char>)
    requires
        is_plain(v),
        is_plain(f),
    ensures
        parse_command_line(seq![prog, "--format"@, v, f]) == parse_command_line(
            seq![prog, "-f"@, v, f],
        ),
        parse_command_line(seq![prog, "--format"@, v, f]) matches Ok(a) ==> a == (ArgsView {
            format: a.format,
            ..plain_args(f)
        }),
{
    reveal_strlit("output");
    reveal_strlit("path");
    reveal_strlit("format");
    reveal_strlit("quality");
    assert("format"@ != "output"@) by {
        assert("format"@[0] != "output"@[0]);
    }
    assert("format"@ != "path"@) by {
        assert("format"@.len() != "path"@.len());
    }
    assert(long_switch("format"@) == Some(Switch::Value(ValueSwitch::Format)));
    assert(short_switch('f') == Some(Switch::Value(ValueSwitch::Format)));
    lemma_value_switch_tokens("format"@, 'f', ValueSwitch::Format);
    assert("--format"@ =~= "--"@ + "format"@) by {
        reveal_strlit("--format");
        reveal_strlit("format");
        reveal_strlit("--");
    }
    assert("-f"@ =~= seq!['-', 'f']) by {
        reveal_strlit("-f");
    }
    lemma_value_switch_then_input(prog, "--format"@, v, f, ValueSwitch::Format);
    lemma_value_switch_then_input(prog, "-f"@, v, f, ValueSwitch::Format);
    assert(seq![f] =~= seq![f]);
}

proof fn lemma_digit_char_value(k: nat)
    requires
        k < 10,
    ensures
        is_digit(digit_char(k)),
        (digit_char(k) as u32 - '0' as u32) as nat == k,
{
    if k == 0 {} else if k == 1 {} else if k == 2 {} else if k == 3 {} else if k == 4 {}
    else if k == 5 {} else if k == 6 {} else if k == 7 {} else if k == 8 {} else {}
}

proof fn lemma_decimal_is_digits(n: nat)
    ensures
        decimal(n).len() > 0,
        all_digits(decimal(n)),
        digits_value(decimal(n)) == n,
    decreases n,
{
    lemma_digit_char_value(n % 10);
    if n < 10 {
        assert(n % 10 == n);
        let d = decimal(n);
        assert(d.drop_last().len() == 0);
        assert(digits_value(d.drop_last()) == 0);
        assert(d.last() == digit_char(n));
        assert(digits_value(d) == digits_value(d.drop_last()) * 10 + ((d.last() as u32 - '0' as u32) as nat));
    } else {
        lemma_decimal_is_digits(n / 10);
        let d = decimal(n);
        let prev = decimal(n / 10);
        assert(d == prev.push(digit_char(n % 10)));
        assert(d.drop_last() =~= prev);
        assert forall|i: int| 0 <= i < d.len() implies is_digit(#[trigger] d[i]) by {
            if i < prev.len() {
                assert(d[i] == prev[i]);
            }
        }
        assert(d.last() == digit_char(n % 10));
        assert(digits_value(d) == digits_value(prev) * 10 + ((d.last() as u32 - '0' as u32) as nat));
        assert((n / 10) * 10 + n % 10 == n) by (nonlinear_arith);
    }
}

/// `--quality` and `-q` followed by a number from 0 to 255 written in
/// decimal, and one input, give that quality and every other default.
pub proof fn lemma_quality_switch_reads_number(prog: Seq<char>, q: u8, f: Seq<char>)
    requires
        is_plain(f),
    ensures
        parse_command_line(seq![prog, "--quality"@, decimal(q as nat), f]) == Ok::<ArgsView, CliError>(
            ArgsView { quality: q, ..plain_args(f) },
        ),
        parse_command_line(seq![prog, "-q"@, decimal(q as nat), f]) == Ok::<ArgsView, CliError>(
            ArgsView { quality: q, ..plain_args(f) },
        ),
{
    let v = decimal(q as nat);
    lemma_decimal_is_digits(q as nat);
    assert(is_digit(v[0]));
    assert(quality_from_text(v) == Some(q));
    reveal_strlit("output");
    reveal_strlit("path");
    reveal_strlit("format");
    reveal_strlit("quality");
    reveal_strlit("--quality");
    reveal_strlit("-q");
    reveal_strlit("--");
    assert("quality"@.len() != "output"@.len() && "quality"@.len() != "path"@.len()
        && "quality"@.len() != "format"@.len());
    assert(long_switch("quality"@) == Some(Switch::Value(ValueSwitch::Quality)));
    lemma_value_switch_tokens("quality"@, 'q', ValueSwitch::Quality);
    assert("--quality"@ =~= "--"@ + "quality"@);
    assert("-q"@ =~= seq!['-', 'q']);
    lemma_value_switch_then_input(prog, "--quality"@, v, f, ValueSwitch::Quality);
    lemma_value_switch_then_input(prog, "-q"@, v, f, ValueSwitch::Quality);
}

} // verus!
