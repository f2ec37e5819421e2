//! Version-control text: the rendering of diff lines, the branch diff and its
//! checks, the date-range commit log, and the failures of these operations.
use vstd::prelude::*;

use crate::dates::{
    commit_date, commit_ymd, format_utc, parse_date_range, range_outcome, utc_text_of, ymd_before,
    CalendarDate, DateRange,
};
use crate::text::{chars_of, push_char};

verus! {

/// Why a diff or a log could not be produced.
pub enum GitError {
    /// The path does not hold a repository.
    RepositoryNotFound(String),
    /// No local branch has this name.
    BranchNotFound(String),
    /// The date range is not two parts joined by `..`.
    MalformedDateRange(String),
    /// The start of the range is not a `YYYY-MM-DD` date.
    UnparseableStartDate(String),
    /// The end of the range is not a `YYYY-MM-DD` date.
    UnparseableEndDate(String),
    /// A commit's time lies outside the calendar's range.
    CommitTimeOutOfRange(i64),
    /// Any other failure of the version-control backend.
    Backend(String),
}

/// One line of a patch, as the version-control backend hands it over.
pub struct DiffLine {
    /// `'F'` for a file header, `'+'`, `'-'` or `' '` for content, others for
    /// hunk headers and markers.
    pub origin: char,
    /// The file's path before the change.
    pub old_path: Option<String>,
    /// The file's path after the change.
    pub new_path: Option<String>,
    /// The line's text; `None` when it is not valid UTF-8.
    pub content: Option<String>,
}

/// The last component of a slash-separated path.
pub open spec fn base_name(p: Seq<char>) -> Seq<char>
    decreases p.len(),
{
    if p.len() == 0 {
        p
    } else if p.last() == '/' {
        Seq::empty()
    } else {
        base_name(p.drop_last()).push(p.last())
    }
}

/// Whether `a` equals the lower-case ASCII text `lower` when ASCII case is ignored.
pub open spec fn same_ignoring_ascii_case(a: Seq<char>, lower: Seq<char>) -> bool {
    &&& a.len() == lower.len()
    &&& forall|i: int|
        0 <= i < a.len() ==> (#[trigger] a[i] == lower[i] || ('A' <= a[i] <= 'Z' && a[i] as u32 + 32
            == lower[i] as u32))
}

/// `readme.md`.
pub open spec fn readme_name() -> Seq<char> {
    seq!['r', 'e', 'a', 'd', 'm', 'e', '.', 'm', 'd']
}

/// `changelog.md`.
pub open spec fn changelog_name() -> Seq<char> {
    seq!['c', 'h', 'a', 'n', 'g', 'e', 'l', 'o', 'g', '.', 'm', 'd']
}

/// A prose file whose churn is left out of a diff: `README.md` or
/// `CHANGELOG.md`, in any ASCII case.
pub open spec fn is_doc_file(name: Seq<char>) -> bool {
    same_ignoring_ascii_case(name, readme_name()) || same_ignoring_ascii_case(name, changelog_name())
}

/// The text of an optional string, empty when there is none.
pub open spec fn opt_text(o: Option<String>) -> Seq<char> {
    match o {
        Some(s) => s@,
        None => Seq::empty(),
    }
}

/// Whether the line is added, removed or context.
pub open spec fn is_content_origin(c: char) -> bool {
    c == '+' || c == '-' || c == ' '
}

/// What one diff line contributes to the rendered text. A file header always
/// shows (when both paths are known); content lines show unless they belong
/// to a prose file and `suppress_doc_churn` is set; other lines never show.
pub open spec fn line_output(l: DiffLine, suppress_doc_churn: bool) -> Seq<char> {
    if l.origin == 'F' {
        match (l.old_path, l.new_path) {
            (Some(o), Some(n)) => "diff --git a/"@ + o@ + " b/"@ + n@ + "\n"@,
            _ => Seq::empty(),
        }
    } else if is_content_origin(l.origin) && !(suppress_doc_churn && is_doc_file(
        base_name(opt_text(l.new_path)),
    )) {
        match l.content {
            Some(c) => seq![l.origin] + c@,
            None => seq![l.origin] + "無法解碼的內容"@,
        }
    } else {
        Seq::empty()
    }
}

/// The rendered text of a sequence of diff lines.
pub open spec fn render_lines(lines: Seq<DiffLine>, suppress_doc_churn: bool) -> Seq<char>
    decreases lines.len(),
{
    if lines.len() == 0 {
        Seq::empty()
    } else {
        render_lines(lines.drop_last(), suppress_doc_churn) + line_output(lines.last(), suppress_doc_churn)
    }
}

/// The characters after the last `/` of `p`.
fn base_name_of(p: &str) -> (r: Vec<char>)
    ensures
        r@ == base_name(p@),
{
    let cs = chars_of(p);
    let mut start: usize = cs.len();
    proof {
        assert(cs@.take(start as int) =~= p@);
        assert(cs@.subrange(start as int, start as int) =~= Seq::<char>::empty());
        assert(p@ + Seq::<char>::empty() =~= p@);
    }
    while start > 0 && cs[start - 1] != '/'
        invariant
            start <= cs@.len(),
            cs@ == p@,
            forall|k: int| start <= k < cs@.len() ==> cs@[k] != '/',
            base_name(p@) == base_name(cs@.take(start as int)) + cs@.subrange(start as int, cs@.len() as int),
        decreases start,
    {
        proof {
            let t = cs@.take(start as int);
            assert(t.drop_last() =~= cs@.take(start - 1));
            assert(cs@.subrange(start - 1, cs@.len() as int) =~= seq![cs@[start - 1]] + cs@.subrange(
                start as int,
                cs@.len() as int,
            ));
        }
        start -= 1;
    }
    let mut out: Vec<char> = Vec::new();
    let mut i: usize = start;
    while i < cs.len()
        invariant
            start <= i <= cs@.len(),
            out@ == cs@.subrange(start as int, i as int),
        decreases cs.len() - i,
    {
        out.push(cs[i]);
        proof {
            assert(out@ =~= cs@.subrange(start as int, i + 1));
        }
        i += 1;
    }
    proof {
        assert(cs@.take(cs@.len() as int) =~= cs@);
        if start > 0 {
            assert(cs@.take(start as int).drop_last() =~= cs@.take(start - 1));
        }
        assert(base_name(cs@.take(start as int)) =~= Seq::<char>::empty());
    }
    out
}

/// Whether `a` equals the lower-case text `lower` when ASCII case is ignored.
fn eq_ignore_ascii_case(a: &Vec<char>, lower: &Vec<char>) -> (r: bool)
    ensures
        r == same_ignoring_ascii_case(a@, lower@),
{
    if a.len() != lower.len() {
        return false;
    }
    let mut i: usize = 0;
    while i < a.len()
        invariant
            i <= a@.len(),
            a@.len() == lower@.len(),
            forall|j: int|
                0 <= j < i ==> (#[trigger] a@[j] == lower@[j] || ('A' <= a@[j] <= 'Z' && a@[j] as u32
                    + 32 == lower@[j] as u32)),
        decreases a.len() - i,
    {
        let c = a[i];
        let l = lower[i];
        if !(c == l || ('A' <= c && c <= 'Z' && (c as u32) + 32 == l as u32)) {
            return false;
        }
        i += 1;
    }
    true
}

/// Whether the characters spell `README.md` or `CHANGELOG.md`, in any ASCII case.
fn is_doc_chars(cs: &Vec<char>) -> (r: bool)
    ensures
        r == is_doc_file(cs@),
{
    let readme = vec!['r', 'e', 'a', 'd', 'm', 'e', '.', 'm', 'd'];
    let changelog = vec!['c', 'h', 'a', 'n', 'g', 'e', 'l', 'o', 'g', '.', 'm', 'd'];
    eq_ignore_ascii_case(cs, &readme) || eq_ignore_ascii_case(cs, &changelog)
}

/// Whether the file name is `README.md` or `CHANGELOG.md`, in any ASCII case.
pub fn is_doc_file_name(name: &str) -> (r: bool)
    ensures
        r == is_doc_file(name@),
{
    is_doc_chars(&chars_of(name))
}

/// Appends the rendering of one diff line to `out`.
fn render_line(out: &mut String, line: &DiffLine, suppress_doc_churn: bool)
    ensures
        final(out)@ == old(out)@ + line_output(*line, suppress_doc_churn),
{
    if line.origin == 'F' {
        match (&line.old_path, &line.new_path) {
            (Some(o), Some(n)) => {
                out.append("diff --git a/");
                out.append(o.as_str());
                out.append(" b/");
                out.append(n.as_str());
                out.append("\n");
                assert(out@ =~= old(out)@ + line_output(*line, suppress_doc_churn));
            },
            _ => {
                assert(out@ =~= old(out)@ + line_output(*line, suppress_doc_churn));
            },
        }
    } else if line.origin == '+' || line.origin == '-' || line.origin == ' ' {
        let doc = match &line.new_path {
            Some(n) => is_doc_chars(&base_name_of(n.as_str())),
            None => false,
        };
        if !(suppress_doc_churn && doc) {
            push_char(out, line.origin);
            match &line.content {
                Some(c) => out.append(c.as_str()),
                None => out.append("無法解碼的內容"),
            }
        }
        assert(out@ =~= old(out)@ + line_output(*line, suppress_doc_churn));
    } else {
        assert(out@ =~= old(out)@ + line_output(*line, suppress_doc_churn));
    }
}

/// Renders diff lines as patch text: every file header, and the content lines
/// of each file, those of `README.md` and `CHANGELOG.md` left out when
/// `suppress_doc_churn` is set.
pub fn filter_diff(lines: &[DiffLine], suppress_doc_churn: bool) -> (r: String)
    ensures
        r@ == render_lines(lines@, suppress_doc_churn),
{
    let mut out = String::new();
    let mut i: usize = 0;
    while i < lines.len()
        invariant
            i <= lines@.len(),
            out@ == render_lines(lines@.take(i as int), suppress_doc_churn),
        decreases lines.len() - i,
    {
        render_line(&mut out, &lines[i], suppress_doc_churn);
        proof {
            assert(lines@.take(i + 1).drop_last() =~= lines@.take(i as int));
        }
        i += 1;
    }
    proof {
        assert(lines@.take(lines@.len() as int) =~= lines@);
    }
    out
}

/// Renders the working-tree diff: the lines of the patch between `HEAD` and
/// the working directory, prose-file churn left out when `suppress_doc_churn`
/// is set.
pub fn get_git_diff(lines: &[DiffLine], suppress_doc_churn: bool) -> (r: String)
    ensures
        r@ == render_lines(lines@, suppress_doc_churn),
{
    filter_diff(lines, suppress_doc_churn)
}

/// The outcome of a branch-to-branch diff: the first branch that does not
/// exist is named in the error; with both present, the rendered patch between
/// their trees.
pub open spec fn branch_diff_outcome(
    branch1: Seq<char>,
    branch1_found: bool,
    branch2: Seq<char>,
    branch2_found: bool,
    lines: Seq<DiffLine>,
    suppress_doc_churn: bool,
    r: Result<String, GitError>,
) -> bool {
    if !branch1_found {
        r matches Err(GitError::BranchNotFound(b)) && b@ == branch1
    } else if !branch2_found {
        r matches Err(GitError::BranchNotFound(b)) && b@ == branch2
    } else {
        r matches Ok(t) && t@ == render_lines(lines, suppress_doc_churn)
    }
}

/// Renders the diff between two branches, once their lookup is known: a
/// branch that does not exist fails with `BranchNotFound` naming it.
pub fn get_git_diff_between_branches(
    branch1: &str,
    branch1_found: bool,
    branch2: &str,
    branch2_found: bool,
    lines: &[DiffLine],
    suppress_doc_churn: bool,
) -> (r: Result<String, GitError>)
    ensures
        branch_diff_outcome(
            branch1@,
            branch1_found,
            branch2@,
            branch2_found,
            lines@,
            suppress_doc_churn,
            r,
        ),
{
    if !branch1_found {
        return Err(GitError::BranchNotFound(branch1.to_owned()));
    }
    if !branch2_found {
        return Err(GitError::BranchNotFound(branch2.to_owned()));
    }
    Ok(filter_diff(lines, suppress_doc_churn))
}

/// A patch with no lines renders as the empty text, whatever the setting.
pub proof fn lemma_no_changes_render_empty(suppress_doc_churn: bool)
    ensures
        render_lines(Seq::empty(), suppress_doc_churn) == Seq::<char>::empty(),
{
}

/// Rendering goes line by line: two patches one after the other render as
/// the first's text followed by the second's.
proof fn lemma_render_concat(a: Seq<DiffLine>, b: Seq<DiffLine>, suppress_doc_churn: bool)
    ensures
        render_lines(a + b, suppress_doc_churn) == render_lines(a, suppress_doc_churn) + render_lines(
            b,
            suppress_doc_churn,
        ),
    decreases b.len(),
{
    if b.len() == 0 {
        assert(a + b =~= a);
        assert(render_lines(a, suppress_doc_churn) + Seq::empty() =~= render_lines(a, suppress_doc_churn));
    } else {
        lemma_render_concat(a, b.drop_last(), suppress_doc_churn);
        assert((a + b).drop_last() =~= a + b.drop_last());
        assert((a + b).last() == b.last());
        assert(render_lines(a, suppress_doc_churn) + render_lines(b, suppress_doc_churn) =~= render_lines(
            a,
            suppress_doc_churn,
        ) + render_lines(b.drop_last(), suppress_doc_churn) + line_output(b.last(), suppress_doc_churn));
    }
}

/// The text of a patch is the text before line `k`, then what line `k` gives,
/// then the text after it.
proof fn lemma_render_at(lines: Seq<DiffLine>, k: int, suppress_doc_churn: bool)
    requires
        0 <= k < lines.len(),
    ensures
        render_lines(lines, suppress_doc_churn) == render_lines(lines.take(k), suppress_doc_churn)
            + line_output(lines[k], suppress_doc_churn) + render_lines(lines.skip(k + 1), suppress_doc_churn),
{
    let one = seq![lines[k]];
    assert(lines =~= lines.take(k) + one + lines.skip(k + 1));
    lemma_render_concat(lines.take(k) + one, lines.skip(k + 1), suppress_doc_churn);
    lemma_render_concat(lines.take(k), one, suppress_doc_churn);
    assert(one.drop_last() =~= Seq::<DiffLine>::empty());
    assert(one.last() == lines[k]);
    assert(render_lines(Seq::<DiffLine>::empty(), suppress_doc_churn) == Seq::<char>::empty());
    assert(render_lines(one, suppress_doc_churn) =~= line_output(lines[k], suppress_doc_churn));
}

/// In a whole patch, every file header stands in the text at its place,
/// prose file or not, whatever the setting.
pub proof fn lemma_header_in_patch(lines: Seq<DiffLine>, k: int, suppress_doc_churn: bool)
    requires
        0 <= k < lines.len(),
        lines[k].origin == 'F',
        lines[k].old_path is Some,
        lines[k].new_path is Some,
    ensures
        render_lines(lines, suppress_doc_churn) == render_lines(lines.take(k), suppress_doc_churn) + (
        "diff --git a/"@ + lines[k].old_path->0@ + " b/"@ + lines[k].new_path->0@ + "\n"@)
            + render_lines(lines.skip(k + 1), suppress_doc_churn),
{
    lemma_render_at(lines, k, suppress_doc_churn);
}

/// In a whole patch with suppression on, a content line of `README.md` or
/// `CHANGELOG.md` leaves nothing between the text before it and after it.
pub proof fn lemma_doc_churn_absent_from_patch(lines: Seq<DiffLine>, k: int)
    requires
        0 <= k < lines.len(),
        is_doc_churn(lines[k]),
    ensures
        render_lines(lines, true) == render_lines(lines.take(k), true) + render_lines(
            lines.skip(k + 1),
            true,
        ),
{
    lemma_render_at(lines, k, true);
    assert(render_lines(lines.take(k), true) + Seq::<char>::empty() =~= render_lines(lines.take(k), true));
}

/// In a whole patch, a content line of any other file stands in the text at
/// its place, as its marker followed by its text.
pub proof fn lemma_other_content_in_patch(lines: Seq<DiffLine>, k: int, suppress_doc_churn: bool)
    requires
        0 <= k < lines.len(),
        is_content_origin(lines[k].origin),
        !is_doc_file(base_name(opt_text(lines[k].new_path))),
        lines[k].content is Some,
    ensures
        render_lines(lines, suppress_doc_churn) == render_lines(lines.take(k), suppress_doc_churn) + (
        seq![lines[k].origin] + lines[k].content->0@) + render_lines(lines.skip(k + 1), suppress_doc_churn),
{
    lemma_render_at(lines, k, suppress_doc_churn);
}

/// Whether a line is content of `README.md` or `CHANGELOG.md`.
pub open spec fn is_doc_churn(l: DiffLine) -> bool {
    is_content_origin(l.origin) && is_doc_file(base_name(opt_text(l.new_path)))
}

/// `lines` without the content lines of prose files, in order.
pub open spec fn without_doc_churn(lines: Seq<DiffLine>) -> Seq<DiffLine>
    decreases lines.len(),
{
    if lines.len() == 0 {
        Seq::empty()
    } else if is_doc_churn(lines.last()) {
        without_doc_churn(lines.drop_last())
    } else {
        without_doc_churn(lines.drop_last()).push(lines.last())
    }
}

/// Suppressing prose churn is the same as rendering the patch in full after
/// taking out the content lines of `README.md` and `CHANGELOG.md`: headers and
/// the lines of every other file stay as they are.
pub proof fn lemma_suppression_drops_only_doc_churn(lines: Seq<DiffLine>)
    ensures
        render_lines(lines, true) == render_lines(without_doc_churn(lines), false),
    decreases lines.len(),
{
    if lines.len() > 0 {
        lemma_suppression_drops_only_doc_churn(lines.drop_last());
        let rest = without_doc_churn(lines.drop_last());
        if is_doc_churn(lines.last()) {
            assert(render_lines(lines, true) =~= render_lines(lines.drop_last(), true));
        } else {
            let kept = rest.push(lines.last());
            assert(kept.drop_last() =~= rest);
            assert(line_output(lines.last(), true) == line_output(lines.last(), false));
        }
    }
}

/// What the date-range walk does with one commit.
#[derive(Clone, Copy, Debug, PartialEq, Eq, Structural)]
pub enum CommitStep {
    /// The commit's date lies in the range: its entry is written.
    Include,
    /// The commit is newer than the range: it is passed over.
    Skip,
    /// The commit is older than the range: the walk ends here.
    Stop,
}

/// The step for a commit dated `d`.
pub open spec fn step_for(d: (int, int, int), range: DateRange) -> CommitStep {
    if ymd_before(d, range.start.ymd()) {
        CommitStep::Stop
    } else if ymd_before(range.end.ymd(), d) {
        CommitStep::Skip
    } else {
        CommitStep::Include
    }
}

/// Decides what the walk does with a commit made at `secs`, by its UTC date.
pub fn classify_commit(secs: i64, range: &DateRange) -> (r: CommitStep)
    ensures
        r == step_for(commit_ymd(secs as int), *range),
{
    classify_date(&commit_date(secs), range)
}

/// Decides what the walk does with a commit dated `date`.
pub fn classify_date(date: &CalendarDate, range: &DateRange) -> (r: CommitStep)
    ensures
        r == step_for(date.ymd(), *range),
{
    if date.is_before(&range.start) {
        CommitStep::Stop
    } else if range.end.is_before(date) {
        CommitStep::Skip
    } else {
        CommitStep::Include
    }
}

/// A commit as the log needs it.
pub struct CommitInfo {
    /// The commit's identifier in hexadecimal.
    pub id: String,
    /// The author as `name <email>`.
    pub author: String,
    /// Seconds since the Unix epoch.
    pub time: i64,
    /// The commit message, if it is valid UTF-8.
    pub message: Option<String>,
    /// The patch against the first parent, or against the empty tree for a
    /// root commit.
    pub lines: Vec<DiffLine>,
}

/// The message of a commit, with a stand-in when there is none.
pub open spec fn message_text(m: Option<String>) -> Seq<char> {
    match m {
        Some(t) => t@,
        None => "無提交信息"@,
    }
}

/// The format of a commit's time in its log entry.
pub open spec fn commit_time_format() -> Seq<char> {
    "%Y-%m-%d %H:%M:%S %z"@
}

/// The log entry of a commit whose time reads `date`: its header, its patch
/// (prose churn left out when `suppress_doc_churn` is set) and a blank line.
pub open spec fn entry_text(c: CommitInfo, date: Seq<char>, suppress_doc_churn: bool) -> Seq<char> {
    "commit "@ + c.id@ + "\nAuthor: "@ + c.author@ + "\nDate:   "@ + date + "\n\n    "@
        + message_text(c.message) + "\n\n"@ + render_lines(c.lines@, suppress_doc_churn) + "\n"@
}

/// Writes the log entry of a commit whose time reads `date`.
pub fn commit_entry(commit: &CommitInfo, date: &str, suppress_doc_churn: bool) -> (r: String)
    ensures
        r@ == entry_text(*commit, date@, suppress_doc_churn),
{
    let mut out = String::new();
    out.append("commit ");
    out.append(commit.id.as_str());
    out.append("\nAuthor: ");
    out.append(commit.author.as_str());
    out.append("\nDate:   ");
    out.append(date);
    out.append("\n\n    ");
    match &commit.message {
        Some(m) => out.append(m.as_str()),
        None => out.append("無提交信息"),
    }
    out.append("\n\n");
    let diff = filter_diff(commit.lines.as_slice(), suppress_doc_churn);
    out.append(diff.as_str());
    out.append("\n");
    assert(out@ =~= entry_text(*commit, date@, suppress_doc_churn));
    out
}

/// What formatting the log entry of `c` gives: its entry, or the time that
/// could not be written as a UTC date.
pub open spec fn commit_outcome(c: CommitInfo, suppress_doc_churn: bool) -> Result<Seq<char>, i64> {
    match utc_text_of(c.time as int, commit_time_format()) {
        Some(d) => Ok(entry_text(c, d, suppress_doc_churn)),
        None => Err(c.time),
    }
}

/// Formats the log entry of one commit, its time written in UTC; fails when
/// that time cannot be written.
pub fn format_commit_with_diff(commit: &CommitInfo, suppress_doc_churn: bool) -> (r: Result<
    String,
    GitError,
>)
    ensures
        match commit_outcome(*commit, suppress_doc_churn) {
            Ok(t) => r matches Ok(s) && s@ == t,
            Err(secs) => r matches Err(GitError::CommitTimeOutOfRange(x)) && x == secs,
        },
{
    let date = match format_utc(commit.time, "%Y-%m-%d %H:%M:%S %z") {
        Some(d) => d,
        None => {
            return Err(GitError::CommitTimeOutOfRange(commit.time));
        },
    };
    Ok(commit_entry(commit, date.as_str(), suppress_doc_churn))
}

/// The log written by a walk that starts at commit `i`: the entries of the
/// commits in range, up to the first commit older than the range. `Err`
/// carries the time of the first included commit whose time cannot be written.
pub open spec fn log_from(
    commits: Seq<CommitInfo>,
    range: DateRange,
    suppress_doc_churn: bool,
    i: int,
) -> Result<Seq<char>, i64>
    decreases commits.len() - i,
{
    if i < 0 || i >= commits.len() {
        Ok(Seq::empty())
    } else {
        let c = commits[i];
        match step_for(commit_ymd(c.time as int), range) {
            CommitStep::Stop => Ok(Seq::empty()),
            CommitStep::Skip => log_from(commits, range, suppress_doc_churn, i + 1),
            CommitStep::Include => match commit_outcome(c, suppress_doc_churn) {
                Err(t) => Err(t),
                Ok(entry) => prefixed(entry, log_from(commits, range, suppress_doc_churn, i + 1)),
            },
        }
    }
}

/// `r` with `p` written in front of its text.
pub open spec fn prefixed(p: Seq<char>, r: Result<Seq<char>, i64>) -> Result<Seq<char>, i64> {
    match r {
        Ok(t) => Ok(p + t),
        Err(e) => Err(e),
    }
}

/// What the date-range log gives for `date_range` over `commits`, listed from
/// the newest.
pub open spec fn log_outcome(
    date_range: Seq<char>,
    commits: Seq<CommitInfo>,
    suppress_doc_churn: bool,
    r: Result<String, GitError>,
) -> bool {
    exists|parsed: Result<DateRange, GitError>|
        #![trigger range_outcome(date_range, parsed)]
        range_outcome(date_range, parsed) && match parsed {
            Err(e) => r == Err::<String, GitError>(e),
            Ok(range) => match log_from(commits, range, suppress_doc_churn, 0) {
                Ok(t) => r matches Ok(s) && s@ == t,
                Err(secs) => r matches Err(GitError::CommitTimeOutOfRange(x)) && x == secs,
            },
        }
}

/// Writes the log of the commits whose UTC date lies in `date_range`
/// (`YYYY-MM-DD..YYYY-MM-DD`, both ends included). `commits` come newest
/// first; the walk ends at the first commit older than the range. Prose churn
/// is left out of the patches when `suppress_doc_churn` is set.
pub fn get_git_log_by_date_range(
    date_range: &str,
    commits: &[CommitInfo],
    suppress_doc_churn: bool,
) -> (r: Result<String, GitError>)
    ensures
        log_outcome(date_range@, commits@, suppress_doc_churn, r),
{
    let parsed = parse_date_range(date_range);
    let ghost parsed_ghost = parsed;
    let range = match parsed {
        Err(e) => {
            let r = Err(e);
            assert(range_outcome(date_range@, parsed));
            return r;
        },
        Ok(range) => range,
    };
    let mut out = String::new();
    let mut i: usize = 0;
    let mut stopped = false;
    while i < commits.len() && !stopped
        invariant
            i <= commits@.len(),
            stopped ==> log_from(commits@, range, suppress_doc_churn, i as int) == Ok::<Seq<char>, i64>(Seq::empty()),
            log_from(commits@, range, suppress_doc_churn, 0) == prefixed(out@, log_from(commits@, range, suppress_doc_churn, i as int)),
            range_outcome(date_range@, parsed_ghost),
            parsed_ghost == Ok::<DateRange, GitError>(range),
        decreases commits.len() - i + (if stopped { 0int } else { 1int }),
    {
        let c = &commits[i];
        match classify_commit(c.time, &range) {
            CommitStep::Stop => {
                stopped = true;
            },
            CommitStep::Skip => {
                i += 1;
            },
            CommitStep::Include => {
                match format_commit_with_diff(c, suppress_doc_churn) {
                    Err(e) => {
                        assert(range_outcome(date_range@, parsed_ghost));
                        return Err(e);
                    },
                    Ok(entry) => {
                        let ghost before = out@;
                        out.append(entry.as_str());
                        proof {
                            match log_from(commits@, range, suppress_doc_churn, i + 1) {
                                Ok(rest) => {
                                    assert(before + (entry@ + rest) =~= out@ + rest);
                                },
                                Err(_) => {},
                            }
                        }
                        i += 1;
                    },
                }
            },
        }
    }
    assert(range_outcome(date_range@, parsed_ghost));
    assert(log_from(commits@, range, suppress_doc_churn, i as int) == Ok::<Seq<char>, i64>(Seq::empty()));
    assert(out@ + Seq::<char>::empty() =~= out@);
    Ok(out)
}

/// Once the walk meets a commit older than the range, the history after it
/// changes nothing: `older` ends with such a commit, and whatever follows it
/// leaves the log as it is.
pub proof fn lemma_walk_stops_at_older_commit(
    older: Seq<CommitInfo>,
    more: Seq<CommitInfo>,
    range: DateRange,
    suppress_doc_churn: bool,
    i: int,
)
    requires
        older.len() > 0,
        step_for(commit_ymd(older.last().time as int), range) == CommitStep::Stop,
        0 <= i < older.len(),
    ensures
        log_from(older + more, range, suppress_doc_churn, i) == log_from(
            older,
            range,
            suppress_doc_churn,
            i,
        ),
    decreases older.len() - i,
{
    let all = older + more;
    assert(all[i] == older[i]);
    if i + 1 < older.len() {
        lemma_walk_stops_at_older_commit(older, more, range, suppress_doc_churn, i + 1);
    }
}

/// A commit newer than the range contributes nothing to the log.
pub proof fn lemma_newer_commit_skipped(
    commits: Seq<CommitInfo>,
    range: DateRange,
    suppress_doc_churn: bool,
    i: int,
)
    requires
        0 <= i < commits.len(),
        step_for(commit_ymd(commits[i].time as int), range) == CommitStep::Skip,
    ensures
        log_from(commits, range, suppress_doc_churn, i) == log_from(
            commits,
            range,
            suppress_doc_churn,
            i + 1,
        ),
{
}

/// A commit dated inside the range has its entry written, its time in UTC,
/// ahead of the rest of the log.
pub proof fn lemma_commit_in_range_written(
    commits: Seq<CommitInfo>,
    range: DateRange,
    suppress_doc_churn: bool,
    i: int,
)
    requires
        0 <= i < commits.len(),
        step_for(commit_ymd(commits[i].time as int), range) == CommitStep::Include,
        utc_text_of(commits[i].time as int, commit_time_format()) is Some,
    ensures
        log_from(commits, range, suppress_doc_churn, i) == prefixed(
            entry_text(
                commits[i],
                utc_text_of(commits[i].time as int, commit_time_format())->0,
                suppress_doc_churn,
            ),
            log_from(commits, range, suppress_doc_churn, i + 1),
        ),
{
}

} // verus!
