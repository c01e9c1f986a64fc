use vstd::prelude::*;

verus! {

/// What `str::to_lowercase` makes of a text.
pub uninterp spec fn lower_of(s: Seq<char>) -> Seq<char>;

/// Characters with the Unicode White_Space property, which
/// `char::is_whitespace` recognises.
pub open spec fn is_white_space(c: char) -> bool {
    ('\u{9}' <= c && c <= '\u{D}') || c == ' ' || c == '\u{85}' || c == '\u{A0}' || c == '\u{1680}' || (
    '\u{2000}' <= c && c <= '\u{200A}') || c == '\u{2028}' || c == '\u{2029}' || c == '\u{202F}' || c
        == '\u{205F}' || c == '\u{3000}'
}

/// `s` without its leading whitespace.
pub open spec fn trim_start_of(s: Seq<char>) -> Seq<char>
    decreases s.len(),
{
    if s.len() > 0 && is_white_space(s[0]) {
        trim_start_of(s.drop_first())
    } else {
        s
    }
}

/// `s` without its trailing whitespace.
pub open spec fn trim_end_of(s: Seq<char>) -> Seq<char>
    decreases s.len(),
{
    if s.len() > 0 && is_white_space(s.last()) {
        trim_end_of(s.drop_last())
    } else {
        s
    }
}

/// `s` without leading and trailing whitespace, as `str::trim` gives it.
pub open spec fn trim_of(s: Seq<char>) -> Seq<char> {
    trim_end_of(trim_start_of(s))
}

/// Relies on str::to_lowercase: the lowercase form of the text, which
/// depends on its characters alone.
#[verifier::external_body]
pub(crate) fn lowercase(s: &str) -> (r: String)
    ensures
        r@ == lower_of(s@),
{
    s.to_lowercase()
}

/// Relies on str::trim: the text without leading and trailing characters
/// that have the Unicode White_Space property.
#[verifier::external_body]
pub(crate) fn trimmed(s: &str) -> (r: &str)
    ensures
        r@ == trim_of(s@),
{
    s.trim()
}

/// Relies on str::chars: the characters of the text, in order.
#[verifier::external_body]
fn chars_of(s: &str) -> (r: Vec<char>)
    ensures
        r@ == s@,
{
    s.chars().collect()
}

/// Relies on String's FromIterator<char>: the text made of those characters.
#[verifier::external_body]
fn text_from(v: &Vec<char>) -> (r: String)
    ensures
        r@ == v@,
{
    v.iter().collect()
}

/// How many times `c` occurs in `s`.
fn count_char(s: &str, c: char) -> (r: usize)
    ensures
        r == occurrences(s@, c),
{
    let v = chars_of(s);
    let mut n: usize = 0;
    let mut i: usize = 0;
    while i < v.len()
        invariant
            i <= v@.len(),
            v@ == s@,
            n == v@.take(i as int).filter(is_char(c)).len(),
            n <= i,
        decreases v@.len() - i,
    {
        proof {
            reveal(Seq::filter);
            assert(v@.take(i + 1).drop_last() =~= v@.take(i as int));
            assert(v@.take(i + 1).last() == v@[i as int]);
        }
        if v[i] == c {
            n += 1;
        }
        i += 1;
    }
    proof {
        assert(v@.take(v@.len() as int) =~= v@);
    }
    n
}

/// `s` without spaces, hyphens and underscores.
fn without_separators(s: &str) -> (r: String)
    ensures
        r@ == s@.filter(header_char()),
{
    let v = chars_of(s);
    let mut kept: Vec<char> = Vec::new();
    let mut i: usize = 0;
    while i < v.len()
        invariant
            i <= v@.len(),
            v@ == s@,
            kept@ == v@.take(i as int).filter(header_char()),
        decreases v@.len() - i,
    {
        proof {
            reveal(Seq::filter);
            assert(v@.take(i + 1).drop_last() =~= v@.take(i as int));
            assert(v@.take(i + 1).last() == v@[i as int]);
        }
        let ch = v[i];
        if !(ch == ' ' || ch == '-' || ch == '_') {
            kept.push(ch);
        }
        i += 1;
    }
    proof {
        assert(v@.take(v@.len() as int) =~= v@);
    }
    text_from(&kept)
}

/// Characters that do not count in a column header.
pub open spec fn is_separator(c: char) -> bool {
    c == ' ' || c == '-' || c == '_'
}

/// Keeps the characters that count in a column header.
pub open spec fn header_char() -> spec_fn(char) -> bool {
    |c: char| !is_separator(c)
}

pub open spec fn is_char(c: char) -> spec_fn(char) -> bool {
    |x: char| x == c
}

/// How many times `c` occurs in `s`.
pub open spec fn occurrences(s: Seq<char>, c: char) -> nat {
    s.filter(is_char(c)).len()
}

/// The field separator that a header line suggests, as a byte: semicolon
/// (59) unless commas or tabs are more frequent; tab (9) over comma (44)
/// unless commas are more frequent.
pub open spec fn delimiter_for(semicolons: nat, commas: nat, tabs: nat) -> u8 {
    if semicolons >= commas && semicolons >= tabs {
        59u8
    } else if tabs >= commas {
        9u8
    } else {
        44u8
    }
}

/// Picks the field separator of a CSV text from its first line.
pub fn detect_delimiter(first_line: &str) -> (r: u8)
    ensures
        r == delimiter_for(
            occurrences(first_line@, ';'),
            occurrences(first_line@, ','),
            occurrences(first_line@, '\t'),
        ),
{
    let semicolons = count_char(first_line, ';');
    let commas = count_char(first_line, ',');
    let tabs = count_char(first_line, '\t');
    if semicolons >= commas && semicolons >= tabs {
        59u8
    } else if tabs >= commas {
        9u8
    } else {
        44u8
    }
}

/// A header in canonical form: trimmed, lowercase, and without spaces,
/// hyphens and underscores.
pub open spec fn normalized_spec(h: Seq<char>) -> Seq<char> {
    lower_of(trim_of(h)).filter(header_char())
}

/// Brings a column header to its canonical form.
pub fn normalize_header(h: &str) -> (r: String)
    ensures
        r@ == normalized_spec(h@),
{
    let t = trimmed(h);
    let lower = lowercase(t);
    without_separators(lower.as_str())
}

fn text_is(a: &str, b: &str) -> (r: bool)
    ensures
        r == (a@ == b@),
{
    a.to_owned() == b.to_owned()
}

/// The column that a normalized header names: 0 name, 1 start, 2 end,
/// 3 status, 4 priority, 5 description, 6 parent, 7 milestone.
pub open spec fn header_col_spec(n: Seq<char>) -> Option<usize> {
    if n == "name"@ || n == "task"@ || n == "tasklabel"@ || n == "taskname"@ || n == "label"@ || n == "title"@
        || n == "activity"@ {
        Some(0)
    } else if n == "start"@ || n == "startdate"@ || n == "from"@ || n == "begin"@ || n == "begindate"@ {
        Some(1)
    } else if n == "end"@ || n == "enddate"@ || n == "to"@ || n == "finish"@ || n == "finishdate"@ || n == "due"@
        || n == "duedate"@ {
        Some(2)
    } else if n == "status"@ || n == "state"@ || n == "progress"@ || n == "stage"@ {
        Some(3)
    } else if n == "priority"@ || n == "pri"@ || n == "importance"@ {
        Some(4)
    } else if n == "description"@ || n == "notes"@ || n == "note"@ || n == "details"@ || n == "comment"@
        || n == "comments"@ {
        Some(5)
    } else if n == "parent"@ || n == "parenttask"@ || n == "parentname"@ || n == "parent_task"@ || n
        == "subtaskof"@ {
        Some(6)
    } else if n == "milestone"@ || n == "ismilestone"@ || n == "type"@ {
        Some(7)
    } else {
        None
    }
}

/// Maps a normalized header to the column it names.
pub fn header_to_col(n: &str) -> (r: Option<usize>)
    ensures
        r == header_col_spec(n@),
{
    if text_is(n, "name") || text_is(n, "task") || text_is(n, "tasklabel") || text_is(n, "taskname") || text_is(
        n,
        "label",
    ) || text_is(n, "title") || text_is(n, "activity") {
        Some(0)
    } else if text_is(n, "start") || text_is(n, "startdate") || text_is(n, "from") || text_is(n, "begin")
        || text_is(n, "begindate") {
        Some(1)
    } else if text_is(n, "end") || text_is(n, "enddate") || text_is(n, "to") || text_is(n, "finish") || text_is(
        n,
        "finishdate",
    ) || text_is(n, "due") || text_is(n, "duedate") {
        Some(2)
    } else if text_is(n, "status") || text_is(n, "state") || text_is(n, "progress") || text_is(n, "stage") {
        Some(3)
    } else if text_is(n, "priority") || text_is(n, "pri") || text_is(n, "importance") {
        Some(4)
    } else if text_is(n, "description") || text_is(n, "notes") || text_is(n, "note") || text_is(n, "details")
        || text_is(n, "comment") || text_is(n, "comments") {
        Some(5)
    } else if text_is(n, "parent") || text_is(n, "parenttask") || text_is(n, "parentname") || text_is(
        n,
        "parent_task",
    ) || text_is(n, "subtaskof") {
        Some(6)
    } else if text_is(n, "milestone") || text_is(n, "ismilestone") || text_is(n, "type") {
        Some(7)
    } else {
        None
    }
}

/// Progress, in thousandths, that a trimmed, lowercase status word stands
/// for; unknown words mean not started.
pub open spec fn word_progress_spec(w: Seq<char>) -> u32 {
    if w == "finished"@ || w == "done"@ || w == "complete"@ || w == "completed"@ {
        1000
    } else if w == "in progress"@ || w == "in-progress"@ || w == "active"@ || w == "started"@ {
        500
    } else if w == "released"@ || w == "planned"@ {
        250
    } else {
        0
    }
}

/// Maps a trimmed, lowercase status word to a progress value in thousandths.
pub fn progress_of_status_word(w: &str) -> (r: u32)
    ensures
        r == word_progress_spec(w@),
{
    if text_is(w, "finished") || text_is(w, "done") || text_is(w, "complete") || text_is(w, "completed") {
        1000
    } else if text_is(w, "in progress") || text_is(w, "in-progress") || text_is(w, "active") || text_is(
        w,
        "started",
    ) {
        500
    } else if text_is(w, "released") || text_is(w, "planned") {
        250
    } else {
        0
    }
}

/// Maps a status text to a progress value in thousandths, ignoring case and
/// surrounding whitespace.
pub fn status_to_progress(status: &str) -> (r: u32)
    ensures
        r == word_progress_spec(lower_of(trim_of(status@))),
{
    let t = trimmed(status);
    let lower = lowercase(t);
    progress_of_status_word(lower.as_str())
}

/// The status word written for a progress value in thousandths.
pub fn progress_to_status(progress: u32) -> (r: &'static str)
    ensures
        progress >= 1000 ==> r@ == "Finished"@,
        500 <= progress < 1000 ==> r@ == "In Progress"@,
        250 <= progress < 500 ==> r@ == "Released"@,
        progress < 250 ==> r@ == "Not Started"@,
{
    if progress >= 1000 {
        "Finished"
    } else if progress >= 500 {
        "In Progress"
    } else if progress >= 250 {
        "Released"
    } else {
        "Not Started"
    }
}

} // verus!
