use vstd::prelude::*;
use crate::parser::{parts_upto, path_parts};
use crate::text::{concat_text, has_prefix, texts};

verus! {

/// The kind of a failed file-system operation, as far as the frontends tell them apart.
#[derive(Debug, Clone, Copy, PartialEq, Eq, Structural)]
pub enum IoFailure {
    NotFound,
    PermissionDenied,
    Other,
}

/// The message the command line prints for a failure: friendly wording for
/// a missing path or a denied permission, else the failure's own message.
pub fn format_user_friendly_error(io: Option<IoFailure>, message: &str) -> (r: String)
    ensures
        r@ == match io {
            Some(IoFailure::NotFound) => "File or directory not found. Check the --root and output paths."@,
            Some(IoFailure::PermissionDenied) => "Permission denied when accessing files. Check your file permissions."@,
            _ => message@,
        },
{
    match io {
        Some(IoFailure::NotFound) => String::from_str("File or directory not found. Check the --root and output paths."),
        Some(IoFailure::PermissionDenied) => String::from_str("Permission denied when accessing files. Check your file permissions."),
        _ => message.to_owned(),
    }
}

/// Why the desktop shell could not analyze a directory.
#[derive(Debug, Clone)]
pub enum AnalyzeErrorPayload {
    InvalidPath { message: String },
    NotDirectory { message: String },
    IoError { message: String },
    AnalysisFailed { message: String },
}

/// Why the desktop shell could not read a file.
#[derive(Debug, Clone)]
pub enum ReadFileErrorPayload {
    FileNotFound { message: String },
    IoError { message: String },
    InvalidPath { message: String },
}

/// Why the desktop shell could not open a file.
#[derive(Debug, Clone)]
pub enum OpenFileErrorPayload {
    FileNotFound { message: String },
    IoError { message: String },
    InvalidPath { message: String },
}

/// The failure for a directory to analyze that is missing or is not a
/// directory; `None` when it can be analyzed.
pub fn check_analysis_dir(exists: bool, is_dir: bool) -> (r: Option<AnalyzeErrorPayload>)
    ensures
        !exists ==> (r matches Some(AnalyzeErrorPayload::InvalidPath { message }) && message@ == "Selected path does not exist."@),
        exists && !is_dir ==> (r matches Some(AnalyzeErrorPayload::NotDirectory { message }) && message@ == "Please select a directory, not a file."@),
        exists && is_dir ==> r is None,
{
    if !exists {
        return Some(AnalyzeErrorPayload::InvalidPath { message: String::from_str("Selected path does not exist.") });
    }
    if !is_dir {
        return Some(AnalyzeErrorPayload::NotDirectory { message: String::from_str("Please select a directory, not a file.") });
    }
    None
}

/// The failure reported when an analysis fails: a permission problem, or
/// any other failure.
pub fn analysis_failure(permission_denied: bool) -> (r: AnalyzeErrorPayload)
    ensures
        permission_denied ==> (r matches AnalyzeErrorPayload::IoError { message } && message@ == "Could not read files from the selected directory. Check permissions."@),
        !permission_denied ==> (r matches AnalyzeErrorPayload::AnalysisFailed { message } && message@ == "Analysis failed unexpectedly. See logs for details."@),
{
    if permission_denied {
        AnalyzeErrorPayload::IoError { message: String::from_str("Could not read files from the selected directory. Check permissions.") }
    } else {
        AnalyzeErrorPayload::AnalysisFailed { message: String::from_str("Analysis failed unexpectedly. See logs for details.") }
    }
}

/// The path parts after resolving each of `rel` in turn from `base`: "."
/// stays, ".." goes up one part (not above the top), any other part goes down.
pub open spec fn resolve_parts(base: Seq<Seq<char>>, rel: Seq<Seq<char>>) -> Seq<Seq<char>>
    decreases rel.len(),
{
    if rel.len() == 0 {
        base
    } else {
        let b = resolve_parts(base, rel.drop_last());
        let p = rel.last();
        if p == "."@ {
            b
        } else if p == ".."@ {
            if b.len() > 0 {
                b.drop_last()
            } else {
                b
            }
        } else {
            b.push(p)
        }
    }
}

/// Whether `relative`, joined to `root` and resolved, stays inside `root`:
/// the root's resolved parts are a prefix of the result's. A relative path
/// that starts with '/' stands for itself.
pub open spec fn stays_within(root: Seq<char>, relative: Seq<char>) -> bool {
    let r = resolve_parts(Seq::empty(), path_parts(root));
    let start = if has_prefix(relative, "/"@) {
        Seq::empty()
    } else {
        r
    };
    let c = resolve_parts(start, path_parts(relative));
    r.len() <= c.len() && c.subrange(0, r.len() as int) == r
}

fn split_parts(s: &str) -> (r: Vec<String>)
    ensures
        texts(r@) == path_parts(s@),
{
    let n = s.unicode_len();
    let mut parts: Vec<String> = Vec::new();
    let mut cur = String::new();
    let mut i: usize = 0;
    while i < n
        invariant
            n == s@.len(),
            i <= n,
            (texts(parts@), cur@) == parts_upto(s@, i as int),
        decreases n - i,
    {
        let c = s.get_char(i);
        if c == '/' {
            if cur.unicode_len() > 0 {
                let ghost before = parts@;
                parts.push(cur);
                assert(texts(parts@) =~= texts(before).push(cur@));
            }
            cur = String::new();
        } else {
            crate::text::push_char(&mut cur, c);
        }
        i = i + 1;
    }
    if cur.unicode_len() > 0 {
        let ghost before = parts@;
        parts.push(cur);
        assert(texts(parts@) =~= texts(before).push(cur@));
    }
    parts
}

fn resolve_into(base: &mut Vec<String>, rel: &Vec<String>)
    ensures
        texts(final(base)@) == resolve_parts(texts(old(base)@), texts(rel@)),
{
    let ghost b0 = texts(base@);
    let mut i: usize = 0;
    while i < rel.len()
        invariant
            i <= rel@.len(),
            texts(base@) == resolve_parts(b0, texts(rel@).subrange(0, i as int)),
        decreases rel.len() - i,
    {
        let ghost sub = texts(rel@).subrange(0, i + 1);
        assert(sub.drop_last() =~= texts(rel@).subrange(0, i as int));
        assert(sub.last() == rel@[i as int]@);
        let ghost before = base@;
        let p = rel[i].as_str();
        if crate::text::text_eq(p, ".") {
        } else if crate::text::text_eq(p, "..") {
            if base.len() > 0 {
                base.pop();
                assert(texts(base@) =~= texts(before).drop_last());
            }
        } else {
            base.push(rel[i].clone());
            assert(texts(base@) =~= texts(before).push(rel@[i as int]@));
        }
        i = i + 1;
    }
    assert(texts(rel@).subrange(0, rel@.len() as int) =~= texts(rel@));
}

/// Whether `relative`, joined to `root` and resolved, stays inside `root`.
pub fn is_within_root(root: &str, relative: &str) -> (r: bool)
    ensures
        r == stays_within(root@, relative@),
{
    let mut r: Vec<String> = Vec::new();
    resolve_into(&mut r, &split_parts(root));
    assert(texts(Seq::<String>::empty()) =~= Seq::<Seq<char>>::empty());
    let mut c: Vec<String> = Vec::new();
    if !crate::text::starts_with_text(relative, "/") {
        let mut k: usize = 0;
        while k < r.len()
            invariant
                k <= r@.len(),
                texts(c@) == texts(r@).subrange(0, k as int),
            decreases r.len() - k,
        {
            let ghost before = c@;
            c.push(r[k].clone());
            assert(texts(c@) =~= texts(before).push(r@[k as int]@));
            assert(texts(r@).subrange(0, k + 1) =~= texts(r@).subrange(0, k as int).push(r@[k as int]@));
            k = k + 1;
        }
        assert(texts(r@).subrange(0, r@.len() as int) =~= texts(r@));
    }
    resolve_into(&mut c, &split_parts(relative));
    assert(stays_within(root@, relative@) == (texts(r@).len() <= texts(c@).len() && texts(c@).subrange(0, texts(r@).len() as int) == texts(r@)));
    if r.len() > c.len() {
        return false;
    }
    let mut k: usize = 0;
    while k < r.len()
        invariant
            k <= r@.len(),
            r@.len() <= c@.len(),
            stays_within(root@, relative@) == (texts(c@).subrange(0, texts(r@).len() as int) == texts(r@)),
            texts(c@).subrange(0, k as int) == texts(r@).subrange(0, k as int),
        decreases r.len() - k,
    {
        if r[k] != c[k] {
            assert(texts(c@).subrange(0, r@.len() as int)[k as int] != texts(r@)[k as int]);
            return false;
        }
        assert(texts(c@).subrange(0, k + 1) =~= texts(c@).subrange(0, k as int).push(c@[k as int]@));
        assert(texts(r@).subrange(0, k + 1) =~= texts(r@).subrange(0, k as int).push(r@[k as int]@));
        k = k + 1;
    }
    assert(texts(r@).subrange(0, r@.len() as int) =~= texts(r@));
    true
}

/// The failure for a file request under `root` — the root missing, the path
/// leaving the root, the file missing, or not a regular file — checked in
/// that order; `None` when the file can be read.
pub fn check_read_request(
    root_exists: bool,
    root: &str,
    file_path: &str,
    file_exists: bool,
    is_file: bool,
) -> (r: Option<ReadFileErrorPayload>)
    ensures
        !root_exists ==> (r matches Some(ReadFileErrorPayload::InvalidPath { message }) && message@ == "Root path does not exist."@),
        root_exists && !stays_within(root@, file_path@) ==> (r matches Some(ReadFileErrorPayload::InvalidPath { message }) && message@ == "File path is outside the project root."@),
        root_exists && stays_within(root@, file_path@) && !file_exists ==> (r matches Some(ReadFileErrorPayload::FileNotFound { message }) && message@ == "File not found: "@ + file_path@),
        root_exists && stays_within(root@, file_path@) && file_exists && !is_file ==> (r matches Some(ReadFileErrorPayload::InvalidPath { message }) && message@ == "Path is not a file: "@ + file_path@),
        root_exists && stays_within(root@, file_path@) && file_exists && is_file ==> r is None,
{
    if !root_exists {
        return Some(ReadFileErrorPayload::InvalidPath { message: String::from_str("Root path does not exist.") });
    }
    if !is_within_root(root, file_path) {
        return Some(ReadFileErrorPayload::InvalidPath { message: String::from_str("File path is outside the project root.") });
    }
    if !file_exists {
        return Some(ReadFileErrorPayload::FileNotFound { message: concat_text("File not found: ", file_path) });
    }
    if !is_file {
        return Some(ReadFileErrorPayload::InvalidPath { message: concat_text("Path is not a file: ", file_path) });
    }
    None
}

/// The failure for a file that could not be read: missing, permission
/// denied, or another error with its description.
pub fn read_failure(io: IoFailure, file_path: &str, description: &str) -> (r: ReadFileErrorPayload)
    ensures
        io == IoFailure::NotFound ==> (r matches ReadFileErrorPayload::FileNotFound { message } && message@ == "File not found: "@ + file_path@),
        io == IoFailure::PermissionDenied ==> (r matches ReadFileErrorPayload::IoError { message } && message@ == "Permission denied reading file: "@ + file_path@),
        io == IoFailure::Other ==> (r matches ReadFileErrorPayload::IoError { message } && message@ == "Error reading file: "@ + description@),
{
    match io {
        IoFailure::NotFound => ReadFileErrorPayload::FileNotFound { message: concat_text("File not found: ", file_path) },
        IoFailure::PermissionDenied => ReadFileErrorPayload::IoError { message: concat_text("Permission denied reading file: ", file_path) },
        IoFailure::Other => ReadFileErrorPayload::IoError { message: concat_text("Error reading file: ", description) },
    }
}

/// The failure for a request to open a file under `root`, checked as for
/// reading; `None` when the file can be opened.
pub fn check_open_request(
    root_exists: bool,
    root: &str,
    file_path: &str,
    file_exists: bool,
    is_file: bool,
) -> (r: Option<OpenFileErrorPayload>)
    ensures
        !root_exists ==> (r matches Some(OpenFileErrorPayload::InvalidPath { message }) && message@ == "Root path does not exist."@),
        root_exists && !stays_within(root@, file_path@) ==> (r matches Some(OpenFileErrorPayload::InvalidPath { message }) && message@ == "File path is outside the project root."@),
        root_exists && stays_within(root@, file_path@) && !file_exists ==> (r matches Some(OpenFileErrorPayload::FileNotFound { message }) && message@ == "File not found: "@ + file_path@),
        root_exists && stays_within(root@, file_path@) && file_exists && !is_file ==> (r matches Some(OpenFileErrorPayload::InvalidPath { message }) && message@ == "Path is not a file: "@ + file_path@),
        root_exists && stays_within(root@, file_path@) && file_exists && is_file ==> r is None,
{
    if !root_exists {
        return Some(OpenFileErrorPayload::InvalidPath { message: String::from_str("Root path does not exist.") });
    }
    if !is_within_root(root, file_path) {
        return Some(OpenFileErrorPayload::InvalidPath { message: String::from_str("File path is outside the project root.") });
    }
    if !file_exists {
        return Some(OpenFileErrorPayload::FileNotFound { message: concat_text("File not found: ", file_path) });
    }
    if !is_file {
        return Some(OpenFileErrorPayload::InvalidPath { message: concat_text("Path is not a file: ", file_path) });
    }
    None
}

/// The failure for a file that the system could not open, with its description.
pub fn open_failure(description: &str) -> (r: OpenFileErrorPayload)
    ensures
        r matches OpenFileErrorPayload::IoError { message } && message@ == "Failed to open file: "@ + description@,
{
    OpenFileErrorPayload::IoError { message: concat_text("Failed to open file: ", description) }
}

} // verus!
