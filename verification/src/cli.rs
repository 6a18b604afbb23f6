//! The command line: output formats, the parsed arguments and their
//! rendering in the debug log.
use vstd::prelude::*;
use crate::text::{decimal, decimal_string, has_char, opt_text, py_repr, py_repr_string};

verus! {

/// The image formats a HEIF file can be converted to.
#[derive(Clone, Copy, Debug, PartialEq, Eq, Structural)]
pub enum Format {
    Jpg,
    Png,
    Webp,
    Gif,
    Tiff,
    Bmp,
    Ico,
}

/// The name of a format on the command line, which is also the extension of
/// the files written in it.
pub open spec fn format_name(f: Format) -> Seq<char> {
    match f {
        Format::Jpg => "jpg"@,
        Format::Png => "png"@,
        Format::Webp => "webp"@,
        Format::Gif => "gif"@,
        Format::Tiff => "tiff"@,
        Format::Bmp => "bmp"@,
        Format::Ico => "ico"@,
    }
}

impl Format {
    /// The file extension of the format (`"jpg"` for `Format::Jpg`).
    pub fn extension(self) -> (ext: &'static str)
        ensures
            ext@ == format_name(self),
    {
        match self {
            Format::Jpg => "jpg",
            Format::Png => "png",
            Format::Webp => "webp",
            Format::Gif => "gif",
            Format::Tiff => "tiff",
            Format::Bmp => "bmp",
            Format::Ico => "ico",
        }
    }

    /// The text `Display` shows for a format: its extension.
    pub fn to_text(self) -> (s: String)
        ensures
            s@ == format_name(self),
    {
        String::from_str(self.extension())
    }
}


/// The parsed command line.
///
/// `verbosity` counts the `-v` flags (saturating at 255);
/// `verbose_flag` records a token that held one `v` (`-v`, `--verbose`),
/// `double_verbose_flag` a token that held more (`-vv`), and
/// `extra_verbose_flag` records `--extra-verbose`.
#[derive(Debug)]
pub struct Args {
    pub input: Vec<String>,
    pub output: String,
    pub path: String,
    pub format: Format,
    pub quality: u8,
    pub exif: bool,
    pub verbosity: u8,
    pub verbose_flag: bool,
    pub double_verbose_flag: bool,
    pub extra_verbose_flag: bool,
}

/// The text Python prints for a boolean.
pub open spec fn py_bool_text(value: bool) -> Seq<char> {
    if value { "True"@ } else { "False"@ }
}

/// The items, each as Python's `repr` writes it, separated by `", "`.
pub open spec fn quoted_list(items: Seq<Seq<char>>) -> Seq<char>
    decreases items.len(),
{
    if items.len() == 0 {
        Seq::empty()
    } else if items.len() == 1 {
        py_repr(items[0])
    } else {
        quoted_list(items.drop_last()) + ", "@ + py_repr(items.last())
    }
}

/// `--extra-verbose` or `-vv` was given.
pub open spec fn spec_extra_verbose(double_verbose_flag: bool, extra_verbose_flag: bool) -> bool {
    extra_verbose_flag || double_verbose_flag
}

/// The rendering of parsed arguments in the style of Python's
/// `argparse.Namespace`.
pub open spec fn namespace_text(
    input: Seq<Seq<char>>,
    output: Seq<char>,
    path: Seq<char>,
    format: Format,
    quality: u8,
    exif: bool,
    verbose_flag: bool,
    double_verbose_flag: bool,
    extra_verbose_flag: bool,
) -> Seq<char> {
    "Namespace(input=["@ + quoted_list(input) + "], output="@ + py_repr(output) + ", path="@
        + py_repr(path) + ", format="@ + py_repr(format_name(format)) + ", quality="@ + decimal(
        quality as nat,
    ) + ", exif="@ + py_bool_text(exif) + ", verbose="@ + py_bool_text(verbose_flag)
        + ", extra_verbose="@ + py_bool_text(spec_extra_verbose(double_verbose_flag, extra_verbose_flag))
        + ")"@
}

/// Python's spelling of a boolean.
pub fn py_bool(value: bool) -> (s: &'static str)
    ensures
        s@ == py_bool_text(value),
{
    if value {
        "True"
    } else {
        "False"
    }
}

fn quoted_items(items: &Vec<String>) -> (s: String)
    ensures
        s@ == quoted_list(items.deep_view()),
{
    let ghost view = items.deep_view();
    let mut s = String::new();
    let n = items.len();
    let mut i: usize = 0;
    while i < n
        invariant
            n == items.len(),
            view == items.deep_view(),
            view.len() == n,
            i <= n,
            s@ == quoted_list(view.take(i as int)),
        decreases n - i,
    {
        let ghost before = s@;
        if i > 0 {
            s.append(", ");
        }
        let item = py_repr_string(items[i].as_str());
        s.append(item.as_str());
        proof {
            assert(view[i as int] == items[i as int]@);
            assert(view.take(i + 1).drop_last() =~= view.take(i as int));
            assert(view.take(i + 1).last() == view[i as int]);
            if i == 0 {
                assert(quoted_list(view.take(0)) =~= Seq::<char>::empty());
                assert(s@ =~= py_repr(view[0]));
            } else {
                assert(s@ =~= before + ", "@ + py_repr(view[i as int]));
            }
        }
        i = i + 1;
    }
    assert(view.take(n as int) =~= view);
    s
}

impl Args {
    /// True when `-v` was given, matching argparse's `verbose` flag: a
    /// `-vv` alone is the extra verbose flag and leaves it unset.
    pub fn verbose(&self) -> (r: bool)
        ensures
            r == self.verbose_flag,
    {
        self.verbose_flag
    }

    /// True when `-vv` or `--extra-verbose` was given.
    pub fn extra_verbose(&self) -> (r: bool)
        ensures
            r == spec_extra_verbose(self.double_verbose_flag, self.extra_verbose_flag),
    {
        self.extra_verbose_flag || self.double_verbose_flag
    }

    /// Renders the arguments the way Python's `argparse.Namespace` does.
    pub fn namespace(&self) -> (s: String)
        ensures
            s@ == namespace_text(
                self.input.deep_view(),
                self.output@,
                self.path@,
                self.format,
                self.quality,
                self.exif,
                self.verbose_flag,
                self.double_verbose_flag,
                self.extra_verbose_flag,
            ),
    {
        let mut s = String::from_str("Namespace(input=[");
        let items = quoted_items(&self.input);
        s.append(items.as_str());
        s.append("], output=");
        let output = py_repr_string(self.output.as_str());
        s.append(output.as_str());
        s.append(", path=");
        let path = py_repr_string(self.path.as_str());
        s.append(path.as_str());
        s.append(", format=");
        let format = py_repr_string(self.format.extension());
        s.append(format.as_str());
        s.append(", quality=");
        let q = decimal_string(self.quality as u64);
        s.append(q.as_str());
        s.append(", exif=");
        s.append(py_bool(self.exif));
        s.append(", verbose=");
        s.append(py_bool(self.verbose()));
        s.append(", extra_verbose=");
        s.append(py_bool(self.extra_verbose()));
        s.append(")");
        proof {
            reveal_strlit("Namespace(input=[");
            reveal_strlit("], output=");
            reveal_strlit(", path=");
            reveal_strlit(", format=");
            reveal_strlit(", quality=");
            reveal_strlit(", exif=");
            reveal_strlit(", verbose=");
            reveal_strlit(", extra_verbose=");
            reveal_strlit(")");
        }
        assert(s@ =~= namespace_text(
            self.input.deep_view(),
            self.output@,
            self.path@,
            self.format,
            self.quality,
            self.exif,
            self.verbose_flag,
            self.double_verbose_flag,
            self.extra_verbose_flag,
        ));
        s
    }
}


/// Whether an input names a pattern rather than a file.
pub open spec fn has_wildcard(f: Seq<char>) -> bool {
    f.contains('*')
}

/// The refusal of an input that names no existing file.
pub open spec fn missing_file_message(f: Seq<char>) -> Seq<char> {
    "Input file '"@ + f + "' does not exist"@
}

/// The refusal of a pattern that matches nothing.
pub open spec fn no_match_message(f: Seq<char>) -> Seq<char> {
    "No matches found: "@ + f
}

/// The refusal of a malformed pattern, with the matcher's explanation.
pub open spec fn invalid_pattern_message(f: Seq<char>, detail: Seq<char>) -> Seq<char> {
    "Invalid pattern '"@ + f + "': "@ + detail
}

/// The entries of a listing that could be read, in order.
pub open spec fn readable_entries(entries: Seq<Option<Seq<char>>>) -> Seq<Seq<char>>
    decreases entries.len(),
{
    if entries.len() == 0 {
        Seq::empty()
    } else {
        readable_entries(entries.drop_last()) + match entries.last() {
            Some(p) => seq![p],
            None => Seq::empty(),
        }
    }
}

/// What a pattern expands to, given the matcher's listing of it (the
/// matcher's explanation when the pattern is malformed, else the matching
/// paths, `None` for a path that could not be read).
pub open spec fn pattern_outcome(
    f: Seq<char>,
    listing: Result<Seq<Option<Seq<char>>>, Seq<char>>,
) -> Result<Seq<Seq<char>>, Seq<char>> {
    match listing {
        Err(detail) => Err(invalid_pattern_message(f, detail)),
        Ok(entries) => {
            let found = readable_entries(entries);
            if found.len() == 0 {
                Err(no_match_message(f))
            } else {
                Ok(found)
            }
        },
    }
}

/// What a plain input expands to, given whether it names an existing file.
pub open spec fn file_outcome(f: Seq<char>, exists: bool) -> Result<Seq<Seq<char>>, Seq<char>> {
    if exists {
        Ok(seq![f])
    } else {
        Err(missing_file_message(f))
    }
}

/// Whether `glob::glob` accepts a pattern: `glob::Pattern::new` accepts
/// the whole pattern and each of its components between separators.
pub uninterp spec fn glob_accepts(pattern: Seq<char>) -> bool;

/// Whether `o` is an outcome that input `f` can have, whatever the file
/// system holds: a pattern is refused exactly when `glob` refuses it, and
/// else expands to the readable paths of some listing.
pub open spec fn possible_outcome(f: Seq<char>, o: Result<Seq<Seq<char>>, Seq<char>>) -> bool {
    if has_wildcard(f) {
        exists|listing: Result<Seq<Option<Seq<char>>>, Seq<char>>|
            (listing is Ok <==> glob_accepts(f)) && o == #[trigger] pattern_outcome(f, listing)
    } else {
        exists|present: bool| o == #[trigger] file_outcome(f, present)
    }
}

/// The outcomes of the first inputs, each one possible for its input.
pub open spec fn possible_outcomes(
    inputs: Seq<Seq<char>>,
    outs: Seq<Result<Seq<Seq<char>>, Seq<char>>>,
) -> bool {
    &&& outs.len() <= inputs.len()
    &&& forall|i: int| 0 <= i < outs.len() ==> possible_outcome(inputs[i], #[trigger] outs[i])
}

/// Every outcome is a success.
pub open spec fn all_expanded(outs: Seq<Result<Seq<Seq<char>>, Seq<char>>>) -> bool {
    forall|i: int| 0 <= i < outs.len() ==> (#[trigger] outs[i]) is Ok
}

/// The successful outcomes, concatenated in order.
pub open spec fn expanded_files(outs: Seq<Result<Seq<Seq<char>>, Seq<char>>>) -> Seq<Seq<char>>
    decreases outs.len(),
{
    if outs.len() == 0 {
        Seq::empty()
    } else {
        expanded_files(outs.drop_last()) + match outs.last() {
            Ok(files) => files,
            Err(_) => Seq::empty(),
        }
    }
}

/// The view of a pattern listing.
pub open spec fn listing_view(listing: Result<Vec<Option<String>>, String>) -> Result<
    Seq<Option<Seq<char>>>,
    Seq<char>,
> {
    match listing {
        Ok(entries) => Ok(entries@.map_values(|e: Option<String>| opt_text(e))),
        Err(detail) => Err(detail@),
    }
}

/// The view of an expansion result.
pub open spec fn expansion_view(r: Result<Vec<String>, String>) -> Result<Seq<Seq<char>>, Seq<char>> {
    match r {
        Ok(files) => Ok(files.deep_view()),
        Err(m) => Err(m@),
    }
}

/// Lists the paths that match a shell pattern, through `glob::glob` and the
/// iterator it returns.
///
/// `Err` carries the text of the `glob::PatternError`, and comes exactly
/// when `glob` refuses the pattern; `Ok` carries one entry per path the
/// iterator yields, `None` for a path that could not be read (a
/// `glob::GlobError`), else the path made into text with
/// `to_string_lossy`.  The paths are not claimed: they depend on what the
/// file system holds, and `glob` matches them component by component (a
/// pattern `./x*` yields `xa`), so not even that each matches the whole
/// pattern holds; the pattern error's text is the crate's own wording.
#[verifier::external_body]
fn glob_listing(pattern: &str) -> (listing: Result<Vec<Option<String>>, String>)
    ensures
        listing is Ok <==> glob_accepts(pattern@),
{
    match glob::glob(pattern) {
        Ok(paths) => Ok(
            paths.map(|entry| entry.ok().map(|p| p.to_string_lossy().into_owned())).collect(),
        ),
        Err(err) => Err(err.to_string()),
    }
}

/// Asks `std::path::Path::is_file` whether `path` names an existing regular
/// file (following symbolic links).  Nothing is claimed of the answer: it
/// depends on what the file system holds.
#[verifier::external_body]
fn is_existing_file(path: &str) -> (present: bool) {
    std::path::Path::new(path).is_file()
}

/// Expands one plain input, given whether it names an existing file.
pub fn expand_file(input_file: &str, present: bool) -> (r: Result<Vec<String>, String>)
    ensures
        expansion_view(r) == file_outcome(input_file@, present),
{
    if present {
        let mut files: Vec<String> = Vec::new();
        files.push(String::from_str(input_file));
        assert(files.deep_view() =~= seq![input_file@]);
        Ok(files)
    } else {
        let mut m = String::from_str("Input file '");
        m.append(input_file);
        m.append("' does not exist");
        proof {
            reveal_strlit("Input file '");
            reveal_strlit("' does not exist");
        }
        assert(m@ =~= missing_file_message(input_file@));
        Err(m)
    }
}

/// Expands one pattern, given the matcher's listing of it.
pub fn expand_pattern(input_file: &str, listing: Result<Vec<Option<String>>, String>) -> (r: Result<
    Vec<String>,
    String,
>)
    ensures
        expansion_view(r) == pattern_outcome(input_file@, listing_view(listing)),
{
    match listing {
        Err(detail) => {
            let mut m = String::from_str("Invalid pattern '");
            m.append(input_file);
            m.append("': ");
            m.append(detail.as_str());
            assert(m@ =~= invalid_pattern_message(input_file@, detail@));
            Err(m)
        },
        Ok(entries) => {
            let ghost ev = entries@.map_values(|e: Option<String>| opt_text(e));
            let mut found: Vec<String> = Vec::new();
            let n = entries.len();
            let mut i: usize = 0;
            while i < n
                invariant
                    n == entries@.len(),
                    ev == entries@.map_values(|e: Option<String>| opt_text(e)),
                    i <= n,
                    found.deep_view() == readable_entries(ev.take(i as int)),
                decreases n - i,
            {
                let ghost before = found.deep_view();
                assert(ev.take(i + 1).drop_last() =~= ev.take(i as int));
                assert(ev.take(i + 1).last() == opt_text(entries@[i as int]));
                match &entries[i] {
                    Some(p) => {
                        found.push(p.clone());
                        assert(found.deep_view() =~= before + seq![p@]);
                    },
                    None => {
                        assert(before + Seq::<Seq<char>>::empty() =~= before);
                    },
                }
                i = i + 1;
            }
            assert(ev.take(n as int) =~= ev);
            if found.len() == 0 {
                let mut m = String::from_str("No matches found: ");
                m.append(input_file);
                Err(m)
            } else {
                Ok(found)
            }
        },
    }
}

/// Expands the wildcards of the inputs and checks that every other input
/// names an existing file; the first refused input ends the expansion.
///
/// Which paths a pattern matches, and which files exist, depend on the
/// file system, so the contract states what holds of every outcome: on
/// success each plain input stands for itself and each pattern for at
/// least one path, in order; on failure the message is the refusal of one
/// input, all inputs before it having been expanded.
pub fn expand_input(input: &[String]) -> (r: Result<Vec<String>, String>)
    ensures
        r matches Ok(files) ==> exists|outs: Seq<Result<Seq<Seq<char>>, Seq<char>>>|
            outs.len() == input@.len() && possible_outcomes(input.deep_view(), outs)
                && all_expanded(outs) && files.deep_view() == expanded_files(outs),
        r matches Err(m) ==> exists|outs: Seq<Result<Seq<Seq<char>>, Seq<char>>>|
            outs.len() >= 1 && possible_outcomes(input.deep_view(), outs) && all_expanded(
                outs.drop_last(),
            ) && outs.last() == Err::<Seq<Seq<char>>, Seq<char>>(m@),
{
    let ghost inputs = input.deep_view();
    let ghost mut outs: Seq<Result<Seq<Seq<char>>, Seq<char>>> = Seq::empty();
    let mut expanded: Vec<String> = Vec::new();
    let n = input.len();
    let mut i: usize = 0;
    while i < n
        invariant
            n == input@.len(),
            inputs == input.deep_view(),
            i <= n,
            outs.len() == i,
            possible_outcomes(inputs, outs),
            all_expanded(outs),
            expanded.deep_view() == expanded_files(outs),
        decreases n - i,
    {
        let input_file = input[i].as_str();
        assert(inputs[i as int] == input_file@);
        let ghost old_outs = outs;
        let ghost before = expanded.deep_view();
        if has_char(input_file, '*') {
            let listing = glob_listing(input_file);
            let ghost lv = listing_view(listing);
            let r = expand_pattern(input_file, listing);
            let ghost o = pattern_outcome(input_file@, lv);
            assert(lv is Ok <==> glob_accepts(input_file@));
            assert(possible_outcome(inputs[i as int], o));
            proof {
                outs = outs.push(o);
            }
            assert(outs.drop_last() =~= old_outs);
            assert forall|k: int| 0 <= k < outs.len() implies possible_outcome(
                inputs[k],
                #[trigger] outs[k],
            ) by {
                if k < i {
                    assert(outs[k] == old_outs[k]);
                }
            }
            match r {
                Err(m) => {
                    assert(outs.last() == Err::<Seq<Seq<char>>, Seq<char>>(m@));
                    assert(all_expanded(outs.drop_last()));
                    return Err(m);
                },
                Ok(files) => {
                    let mut files = files;
                    let ghost fv = files.deep_view();
                    expanded.append(&mut files);
                    assert(expanded.deep_view() =~= before + fv);
                },
            }
        } else {
            let present = is_existing_file(input_file);
            let r = expand_file(input_file, present);
            let ghost o = file_outcome(input_file@, present);
            assert(possible_outcome(inputs[i as int], o));
            proof {
                outs = outs.push(o);
            }
            assert(outs.drop_last() =~= old_outs);
            assert forall|k: int| 0 <= k < outs.len() implies possible_outcome(
                inputs[k],
                #[trigger] outs[k],
            ) by {
                if k < i {
                    assert(outs[k] == old_outs[k]);
                }
            }
            match r {
                Err(m) => {
                    assert(outs.last() == Err::<Seq<Seq<char>>, Seq<char>>(m@));
                    assert(all_expanded(outs.drop_last()));
                    return Err(m);
                },
                Ok(files) => {
                    let mut files = files;
                    let ghost fv = files.deep_view();
                    expanded.append(&mut files);
                    assert(expanded.deep_view() =~= before + fv);
                },
            }
        }
        assert forall|k: int| 0 <= k < outs.len() implies (#[trigger] outs[k]) is Ok by {
            if k < i {
                assert(outs[k] == old_outs[k]);
            }
        }
        i = i + 1;
    }
    Ok(expanded)
}

proof fn lemma_readable_entries_all(entries: Seq<Option<Seq<char>>>)
    requires
        forall|i: int| 0 <= i < entries.len() ==> (#[trigger] entries[i]) is Some,
    ensures
        readable_entries(entries) == entries.map_values(|e: Option<Seq<char>>| e->0),
    decreases entries.len(),
{
    if entries.len() > 0 {
        let d = entries.drop_last();
        assert forall|i: int| 0 <= i < d.len() implies (#[trigger] d[i]) is Some by {
            assert(d[i] == entries[i]);
        }
        lemma_readable_entries_all(d);
        assert(entries[entries.len() - 1] is Some);
        assert(entries.map_values(|e: Option<Seq<char>>| e->0) =~= d.map_values(
            |e: Option<Seq<char>>| e->0,
        ).push(entries.last()->0));
    }
}

proof fn lemma_readable_entries_none(entries: Seq<Option<Seq<char>>>)
    requires
        forall|i: int| 0 <= i < entries.len() ==> (#[trigger] entries[i]) is None,
    ensures
        readable_entries(entries).len() == 0,
    decreases entries.len(),
{
    if entries.len() > 0 {
        let d = entries.drop_last();
        assert forall|i: int| 0 <= i < d.len() implies (#[trigger] d[i]) is None by {
            assert(d[i] == entries[i]);
        }
        lemma_readable_entries_none(d);
        assert(entries[entries.len() - 1] is None);
    }
}

/// A pattern expands to every path the matcher lists, all of them and in
/// their order, when all could be read; a malformed pattern is refused
/// with the matcher's explanation, and a listing with no readable path is
/// refused as matching nothing.
pub proof fn lemma_pattern_expands_to_every_match(
    f: Seq<char>,
    entries: Seq<Option<Seq<char>>>,
    detail: Seq<char>,
)
    ensures
        entries.len() > 0 && (forall|i: int| 0 <= i < entries.len() ==> (#[trigger] entries[i]) is Some)
            ==> pattern_outcome(f, Ok(entries)) == Ok::<Seq<Seq<char>>, Seq<char>>(
            entries.map_values(|e: Option<Seq<char>>| e->0),
        ),
        (forall|i: int| 0 <= i < entries.len() ==> (#[trigger] entries[i]) is None) ==> pattern_outcome(
            f,
            Ok(entries),
        ) == Err::<Seq<Seq<char>>, Seq<char>>("No matches found: "@ + f),
        pattern_outcome(f, Err(detail)) == Err::<Seq<Seq<char>>, Seq<char>>(
            "Invalid pattern '"@ + f + "': "@ + detail,
        ),
{
    if entries.len() > 0 && (forall|i: int| 0 <= i < entries.len() ==> (#[trigger] entries[i]) is Some) {
        lemma_readable_entries_all(entries);
    }
    if forall|i: int| 0 <= i < entries.len() ==> (#[trigger] entries[i]) is None {
        lemma_readable_entries_none(entries);
    }
}

} // verus!
