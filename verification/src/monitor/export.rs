//! Export formats, export file names, and the checks made on an export destination.
use vstd::prelude::*;
use crate::text::{
    chars_eq, chars_of, contains, has_prefix, has_sub, lower_text, pieces, push_chars, split_char,
    starts_with, to_lower, views_of,
};

verus! {

/// The formats metrics can be exported in.
#[derive(Debug, Clone, Copy, PartialEq, Eq, Structural)]
pub enum ExportFormat {
    Json,
    Csv,
    Toml,
}

/// Why an export was refused; each variant carries the text it is about.
#[derive(Debug, Clone)]
pub enum ExportError {
    /// The format name given.
    UnsupportedFormat(String),
    /// The path as given.
    PathTraversal(String),
    /// The path as given.
    EscapesCurrentDirectory(String),
    /// The absolute path.
    OutsideCurrentDirectory(String),
    /// The absolute path.
    SystemDirectory(String),
}

/// Host facts written into an export.
#[derive(Debug, Clone)]
pub struct SystemInfo {
    pub hostname: String,
    pub kernel_version: String,
    pub os_version: String,
    pub architecture: String,
    pub seer_version: String,
}

/// The export operations.
pub struct Exporter;

/// The format a lower-case name stands for.
pub open spec fn format_named(name: Seq<char>) -> Option<ExportFormat> {
    if name == seq!['j', 's', 'o', 'n'] {
        Some(ExportFormat::Json)
    } else if name == seq!['c', 's', 'v'] {
        Some(ExportFormat::Csv)
    } else if name == seq!['t', 'o', 'm', 'l'] {
        Some(ExportFormat::Toml)
    } else {
        None
    }
}

/// The file extension of a format.
pub open spec fn extension_of(f: ExportFormat) -> Seq<char> {
    match f {
        ExportFormat::Json => seq!['j', 's', 'o', 'n'],
        ExportFormat::Csv => seq!['c', 's', 'v'],
        ExportFormat::Toml => seq!['t', 'o', 'm', 'l'],
    }
}

/// The text of an export error.
pub open spec fn error_text(e: ExportError) -> Seq<char> {
    match e {
        ExportError::UnsupportedFormat(s) => "Unsupported export format: "@ + s@,
        ExportError::PathTraversal(s) => "Path traversal detected: "@ + s@,
        ExportError::EscapesCurrentDirectory(s) => "Export path escapes current directory: "@ + s@,
        ExportError::OutsideCurrentDirectory(s) => "Export path must be within current directory: "@
            + s@,
        ExportError::SystemDirectory(s) => "Cannot export to system directory: "@ + s@,
    }
}

impl ExportError {
    /// The message shown for the error.
    pub fn message(&self) -> (r: String)
        ensures
            r@ == error_text(*self),
    {
        let (prefix, payload) = match self {
            ExportError::UnsupportedFormat(s) => ("Unsupported export format: ", s),
            ExportError::PathTraversal(s) => ("Path traversal detected: ", s),
            ExportError::EscapesCurrentDirectory(s) => ("Export path escapes current directory: ", s),
            ExportError::OutsideCurrentDirectory(s) => (
                "Export path must be within current directory: ",
                s,
            ),
            ExportError::SystemDirectory(s) => ("Cannot export to system directory: ", s),
        };
        let mut r = prefix.to_owned();
        push_chars(&mut r, payload.as_str());
        r
    }
}

impl ExportFormat {
    /// The format named by `name`, which is taken as already lower-case.
    pub fn from_lowercase(name: &str) -> (r: Option<ExportFormat>)
        ensures
            r == format_named(name@),
    {
        let v = chars_of(name);
        if chars_eq(&v, &['j', 's', 'o', 'n']) {
            Some(ExportFormat::Json)
        } else if chars_eq(&v, &['c', 's', 'v']) {
            Some(ExportFormat::Csv)
        } else if chars_eq(&v, &['t', 'o', 'm', 'l']) {
            Some(ExportFormat::Toml)
        } else {
            None
        }
    }

    /// The format named by `s`, in any letter case.
    pub fn from_str(s: &str) -> (r: Result<ExportFormat, ExportError>)
        ensures
            match format_named(lower_text(s@)) {
                Some(f) => r == Ok::<ExportFormat, ExportError>(f),
                None => r matches Err(ExportError::UnsupportedFormat(t)) && t@ == s@,
            },
    {
        let lower = to_lower(s);
        match ExportFormat::from_lowercase(lower.as_str()) {
            Some(f) => Ok(f),
            None => Err(ExportError::UnsupportedFormat(s.to_owned())),
        }
    }

    /// The file extension of the format.
    pub fn extension(&self) -> (r: &'static str)
        ensures
            r@ == extension_of(*self),
    {
        match self {
            ExportFormat::Json => {
                proof {
                    reveal_strlit("json");
                }
                "json"
            },
            ExportFormat::Csv => {
                proof {
                    reveal_strlit("csv");
                }
                "csv"
            },
            ExportFormat::Toml => {
                proof {
                    reveal_strlit("toml");
                }
                "toml"
            },
        }
    }
}

/// The export file name for a time stamp.
pub open spec fn export_file_name(stamp: Seq<char>, f: ExportFormat) -> Seq<char> {
    "seer_export_"@ + stamp + seq!['.'] + extension_of(f)
}

/// Every character of `s` is a decimal digit.
pub open spec fn all_decimal(s: Seq<char>) -> bool {
    forall|i: int| 0 <= i < s.len() ==> '0' <= #[trigger] s[i] && s[i] <= '9'
}

/// A time stamp as chrono writes the format `%Y%m%d_%H%M%S`: the year as four digits
/// (or, outside the years 0 to 9999, a sign `+` or `-` and at least four digits), then
/// two digits each of month and day, `_`, and two digits each of hour, minute and second.
pub open spec fn stamp_shape(s: Seq<char>) -> bool {
    let n = s.len();
    let y = s.take(n - 11);
    &&& n >= 15
    &&& (y.len() == 4 && all_decimal(y) || y.len() >= 5 && (y[0] == '+' || y[0] == '-') && all_decimal(y.drop_first()))
    &&& all_decimal(s.subrange(n - 11, n - 7))
    &&& s[n - 7] == '_'
    &&& all_decimal(s.skip(n - 6))
}

/// The current UTC time written with the chrono format `format` (chrono
/// `Utc::now().format(..)`). Claimed: the text has the shape chrono writes for that
/// format (`stamp_shape`); which time it shows is the clock's and is left unstated.
/// Writing a format that chrono cannot read panics, so only the stamp format of export
/// file names, which chrono reads, is admitted.
#[verifier::external_body]
fn utc_now_formatted(format: &str) -> (r: String)
    requires
        format@ == "%Y%m%d_%H%M%S"@,
    ensures
        stamp_shape(r@),
{
    chrono::Utc::now().format(format).to_string()
}

/// The path parts that name something: neither empty nor `.`.
pub open spec fn named_parts(parts: Seq<Seq<char>>) -> Seq<Seq<char>>
    decreases parts.len(),
{
    if parts.len() == 0 {
        Seq::empty()
    } else {
        let init = named_parts(parts.drop_last());
        let p = parts.last();
        if p.len() == 0 || p == seq!['.'] {
            init
        } else {
            init.push(p)
        }
    }
}

/// The components of a Unix path (as `Path::components` lists them): `/` for the root,
/// `.` for a leading current-directory mark, then the named parts between slashes.
pub open spec fn path_components(s: Seq<char>) -> Seq<Seq<char>> {
    if s.len() > 0 && s[0] == '/' {
        seq![seq!['/']] + named_parts(pieces(s.drop_first(), '/'))
    } else if pieces(s, '/')[0] == seq!['.'] {
        seq![seq!['.']] + named_parts(pieces(s, '/').drop_first())
    } else {
        named_parts(pieces(s, '/'))
    }
}

/// `base`'s components begin the components of `s` (as `Path::starts_with`).
pub open spec fn path_starts_with(s: Seq<char>, base: Seq<char>) -> bool {
    let a = path_components(s);
    let b = path_components(base);
    b.len() <= a.len() && a.take(b.len() as int) == b
}

/// `path` joined onto `dir` (as `Path::join` with a relative path).
pub open spec fn path_join(dir: Seq<char>, path: Seq<char>) -> Seq<char> {
    if dir.len() == 0 || dir.last() == '/' {
        dir + path
    } else {
        dir + seq!['/'] + path
    }
}

/// The absolute form of `path` seen from `cwd`.
pub open spec fn absolute_of(path: Seq<char>, cwd: Seq<char>) -> Seq<char> {
    if is_absolute(path) {
        path
    } else {
        path_join(cwd, path)
    }
}

/// The system directories no export may be written under (a plain text prefix,
/// compared after lower-casing).
pub open spec fn under_system_dir(p: Seq<char>) -> bool {
    ||| starts_with(p, "/etc"@)
    ||| starts_with(p, "/proc"@)
    ||| starts_with(p, "/sys"@)
    ||| starts_with(p, "/dev"@)
    ||| starts_with(p, "/root"@)
    ||| starts_with(p, "/boot"@)
}

/// `path` is absolute.
pub open spec fn is_absolute(path: Seq<char>) -> bool {
    path.len() > 0 && path[0] == '/'
}

/// What checking the export destination `path` gives, with `cwd` the current
/// directory: refused for a `..` anywhere in it, for leaving the current directory
/// tree, or (an absolute destination) for lying under a system directory; the error
/// carries the path as given for the first two, the absolute path for the others. A
/// relative destination that stays in the current directory is accepted wherever that
/// directory is.
pub open spec fn export_path_outcome(
    r: Result<(), ExportError>,
    path: Seq<char>,
    cwd: Seq<char>,
) -> bool {
    let abs = absolute_of(path, cwd);
    if contains(path, seq!['.', '.']) {
        r matches Err(ExportError::PathTraversal(t)) && t@ == path
    } else if !is_absolute(path) && !path_starts_with(abs, cwd) {
        r matches Err(ExportError::EscapesCurrentDirectory(t)) && t@ == path
    } else if is_absolute(path) && !path_starts_with(abs, cwd) {
        r matches Err(ExportError::OutsideCurrentDirectory(t)) && t@ == abs
    } else if is_absolute(path) && under_system_dir(lower_text(abs)) {
        r matches Err(ExportError::SystemDirectory(t)) && t@ == abs
    } else {
        r is Ok
    }
}

/// A copy of the character vector `p`.
fn copy_chars(p: &Vec<char>) -> (r: Vec<char>)
    ensures
        r@ == p@,
{
    let r = crate::text::slice_chars(p, 0, p.len());
    assert(p@.subrange(0, p@.len() as int) == p@);
    r
}

/// Keeps the parts of `parts` that name something.
fn keep_named(parts: &Vec<Vec<char>>, from: usize) -> (r: Vec<Vec<char>>)
    requires
        from <= parts@.len(),
    ensures
        views_of(r@) == named_parts(views_of(parts@).skip(from as int)),
{
    let ghost src = views_of(parts@).skip(from as int);
    let mut r: Vec<Vec<char>> = Vec::new();
    let mut i: usize = from;
    while i < parts.len()
        invariant
            from <= i <= parts@.len(),
            src == views_of(parts@).skip(from as int),
            views_of(r@) == named_parts(src.take(i - from)),
        decreases parts.len() - i,
    {
        let p = &parts[i];
        let ghost k = i - from;
        assert(src.take(k + 1).drop_last() == src.take(k));
        assert(src.take(k + 1).last() == p@);
        let ghost before = views_of(r@);
        let dot_mark: Vec<char> = vec!['.'];
        assert(dot_mark@ =~= seq!['.']);
        let dot = chars_eq(p.as_slice(), dot_mark.as_slice());
        assert(dot == (p@ == seq!['.']));
        if p.len() == 0 || dot {
            assert(named_parts(src.take(k + 1)) == before);
        } else {
            r.push(copy_chars(p));
            assert(views_of(r@) =~= before.push(p@));
            assert(named_parts(src.take(k + 1)) == before.push(p@));
        }
        i = i + 1;
    }
    assert(src.take(i - from) == src);
    r
}

/// `named` with the one-character component `first` put in front.
fn prepend_component(first: char, named: &Vec<Vec<char>>) -> (r: Vec<Vec<char>>)
    ensures
        views_of(r@) == seq![seq![first]] + views_of(named@),
{
    let mut r: Vec<Vec<char>> = Vec::new();
    let mut head: Vec<char> = Vec::new();
    head.push(first);
    r.push(head);
    assert(views_of(r@) =~= seq![seq![first]] + views_of(named@).take(0));
    let mut i: usize = 0;
    while i < named.len()
        invariant
            i <= named@.len(),
            views_of(r@) == seq![seq![first]] + views_of(named@).take(i as int),
        decreases named.len() - i,
    {
        let ghost before = views_of(r@);
        r.push(copy_chars(&named[i]));
        assert(views_of(r@) =~= before.push(views_of(named@)[i as int]));
        assert(views_of(named@).take(i + 1) =~= views_of(named@).take(i as int).push(
            views_of(named@)[i as int],
        ));
        i = i + 1;
    }
    assert(views_of(named@).take(i as int) == views_of(named@));
    r
}

/// The components of the path `s` (see `path_components`).
pub(crate) fn components_of(s: &[char]) -> (r: Vec<Vec<char>>)
    ensures
        views_of(r@) == path_components(s@),
{
    if s.len() > 0 && s[0] == '/' {
        let rest = crate::text::slice_chars(s, 1, s.len());
        assert(rest@ == s@.drop_first());
        let parts = split_char(&rest, '/');
        let named = keep_named(&parts, 0);
        assert(views_of(parts@).skip(0) == views_of(parts@));
        prepend_component('/', &named)
    } else {
        let parts = split_char(s, '/');
        let dot_mark: Vec<char> = vec!['.'];
        assert(dot_mark@ =~= seq!['.']);
        let dot = chars_eq(parts[0].as_slice(), dot_mark.as_slice());
        assert(views_of(parts@)[0] == parts@[0]@);
        if dot {
            let named = keep_named(&parts, 1);
            assert(views_of(parts@).skip(1) == views_of(parts@).drop_first());
            prepend_component('.', &named)
        } else {
            let named = keep_named(&parts, 0);
            assert(views_of(parts@).skip(0) == views_of(parts@));
            named
        }
    }
}

/// Whether the components of `base` begin those of `s`.
pub(crate) fn components_start_with(s: &[char], base: &[char]) -> (b: bool)
    ensures
        b == path_starts_with(s@, base@),
{
    let a = components_of(s);
    let c = components_of(base);
    if c.len() > a.len() {
        return false;
    }
    let mut i: usize = 0;
    while i < c.len()
        invariant
            c@.len() <= a@.len(),
            i <= c@.len(),
            views_of(a@) == path_components(s@),
            views_of(c@) == path_components(base@),
            forall|j: int| 0 <= j < i ==> a@[j]@ == c@[j]@,
        decreases c.len() - i,
    {
        if !chars_eq(&a[i], &c[i]) {
            assert(views_of(a@)[i as int] != views_of(c@)[i as int]);
            return false;
        }
        i = i + 1;
    }
    assert(views_of(a@).take(c@.len() as int) =~= views_of(c@));
    true
}

/// `path` joined onto `dir`.
fn join_path(dir: &[char], path: &[char]) -> (r: Vec<char>)
    ensures
        r@ == path_join(dir@, path@),
{
    let mut r: Vec<char> = Vec::new();
    let mut i: usize = 0;
    while i < dir.len()
        invariant
            i <= dir@.len(),
            r@ == dir@.take(i as int),
        decreases dir.len() - i,
    {
        r.push(dir[i]);
        assert(dir@.take(i + 1) == dir@.take(i as int).push(dir@[i as int]));
        i = i + 1;
    }
    assert(dir@.take(dir@.len() as int) == dir@);
    if !(dir.len() == 0 || dir[dir.len() - 1] == '/') {
        r.push('/');
    }
    let ghost head = r@;
    let mut j: usize = 0;
    while j < path.len()
        invariant
            j <= path@.len(),
            r@ == head + path@.take(j as int),
        decreases path.len() - j,
    {
        r.push(path[j]);
        assert(path@.take(j + 1) == path@.take(j as int).push(path@[j as int]));
        j = j + 1;
    }
    assert(path@.take(path@.len() as int) == path@);
    r
}

/// A `String` of the characters `v`.
fn string_from(v: &Vec<char>) -> (s: String)
    ensures
        s@ == v@,
{
    crate::text::string_of_all(v.as_slice())
}

impl Exporter {
    /// The default export file name for a time stamp.
    pub fn default_filename(stamp: &str, format: &ExportFormat) -> (r: String)
        ensures
            r@ == export_file_name(stamp@, *format),
    {
        let mut r = "seer_export_".to_owned();
        push_chars(&mut r, stamp);
        crate::text::push_char(&mut r, '.');
        push_chars(&mut r, format.extension());
        r
    }

    /// A file name for an export made now: `seer_export_`, the UTC time stamp (see
    /// `stamp_shape`), a dot and the format's extension.
    pub fn generate_default_filename(format: &ExportFormat) -> (r: String)
        ensures
            exists|stamp: Seq<char>| stamp_shape(stamp) && r@ == #[trigger] export_file_name(stamp, *format),
    {
        let stamp = utc_now_formatted("%Y%m%d_%H%M%S");
        let r = Exporter::default_filename(stamp.as_str(), format);
        assert(stamp_shape(stamp@) && r@ == export_file_name(stamp@, *format));
        r
    }

    /// Checks an export destination: no `..` in it, within the current directory
    /// `cwd`, and, for an absolute destination, not under a system directory.
    pub fn validate_export_path(path: &str, cwd: &str) -> (r: Result<(), ExportError>)
        ensures
            export_path_outcome(r, path@, cwd@),
    {
        let p = chars_of(path);
        let c = chars_of(cwd);
        let is_abs = p.len() > 0 && p[0] == '/';
        let abs: Vec<char> = if is_abs {
            p.clone()
        } else {
            join_path(&c, &p)
        };
        assert(abs@ == absolute_of(path@, cwd@));
        if has_sub(&p, &['.', '.']) {
            return Err(ExportError::PathTraversal(path.to_owned()));
        }
        if !is_abs {
            if !components_start_with(&abs, &c) {
                return Err(ExportError::EscapesCurrentDirectory(path.to_owned()));
            }
        } else {
            if !components_start_with(&abs, &c) {
                return Err(ExportError::OutsideCurrentDirectory(string_from(&abs)));
            }
        }
        if !is_abs {
            return Ok(());
        }
        let abs_text = string_from(&abs);
        let lower = chars_of(to_lower(abs_text.as_str()).as_str());
        proof {
            reveal_strlit("/etc");
            reveal_strlit("/proc");
            reveal_strlit("/sys");
            reveal_strlit("/dev");
            reveal_strlit("/root");
            reveal_strlit("/boot");
            assert("/etc"@ == seq!['/', 'e', 't', 'c']);
            assert("/proc"@ == seq!['/', 'p', 'r', 'o', 'c']);
            assert("/sys"@ == seq!['/', 's', 'y', 's']);
            assert("/dev"@ == seq!['/', 'd', 'e', 'v']);
            assert("/root"@ == seq!['/', 'r', 'o', 'o', 't']);
            assert("/boot"@ == seq!['/', 'b', 'o', 'o', 't']);
        }
        assert(lower@ == lower_text(abs@));
        if has_prefix(&lower, &['/', 'e', 't', 'c']) || has_prefix(&lower, &['/', 'p', 'r', 'o', 'c'])
            || has_prefix(&lower, &['/', 's', 'y', 's']) || has_prefix(&lower, &['/', 'd', 'e', 'v'])
            || has_prefix(&lower, &['/', 'r', 'o', 'o', 't']) || has_prefix(
            &lower,
            &['/', 'b', 'o', 'o', 't'],
        ) {
            return Err(ExportError::SystemDirectory(abs_text));
        }
        Ok(())
    }
}

/// Each format's extension is a name that stands for that format again.
pub proof fn lemma_extension_names_its_format(f: ExportFormat)
    ensures
        format_named(extension_of(f)) == Some(f),
{
}

/// An accepted export destination has no `..` in it, lies in the current directory
/// tree, and, given as an absolute path, is not under a system directory.
pub proof fn lemma_accepted_export_path_is_safe(path: Seq<char>, cwd: Seq<char>)
    requires
        export_path_outcome(Ok(()), path, cwd),
    ensures
        !contains(path, seq!['.', '.']),
        path_starts_with(absolute_of(path, cwd), cwd),
        is_absolute(path) ==> !under_system_dir(lower_text(absolute_of(path, cwd))),
{
}

} // verus!
