use vstd::prelude::*;

use crate::columns::{
    header_col_spec, header_to_col, lower_of, lowercase, normalize_header, normalized_spec, status_to_progress,
    trim_of, trimmed, word_progress_spec,
};
use crate::project::tasks_wf;
use crate::task::{task_color, task_color_spec, Task, TaskColor, TaskPriority};

verus! {

/// Why a table of records gives no tasks.
#[derive(Debug, Clone, Copy, PartialEq, Eq, Structural)]
pub enum ImportError {
    /// No header names the task name, the start date or the end date.
    MissingColumns,
    /// Every row was skipped.
    NoValidRows { skipped: usize },
    /// The table has no data rows.
    NoRows,
}

/// Number of columns that a header can name.
pub const COLUMN_KINDS: usize = 8;

/// The column each header names.
pub open spec fn column_map_spec(headers: Seq<String>) -> Seq<Option<usize>> {
    Seq::new(headers.len(), |i: int| header_col_spec(normalized_spec(headers[i]@)))
}

pub open spec fn names_column(map: Seq<Option<usize>>, c: usize) -> bool {
    exists|i: int| 0 <= i < map.len() && map[i] == Some(c)
}

/// The table names the task name, start and end columns.
pub open spec fn has_required_columns(map: Seq<Option<usize>>) -> bool {
    names_column(map, 0) && names_column(map, 1) && names_column(map, 2)
}

/// The trimmed cell of column kind `c` among the first `n` cells of a
/// record; when several cells map to `c`, the last one counts.
pub open spec fn cell_upto(map: Seq<Option<usize>>, rec: Seq<String>, c: usize, n: int) -> Option<Seq<char>>
    decreases n,
{
    if n <= 0 {
        None
    } else if n - 1 < map.len() && map[n - 1] == Some(c) {
        Some(trim_of(rec[n - 1]@))
    } else {
        cell_upto(map, rec, c, n - 1)
    }
}

pub open spec fn cell(map: Seq<Option<usize>>, rec: Seq<String>, c: usize) -> Option<Seq<char>> {
    cell_upto(map, rec, c, rec.len() as int)
}

pub open spec fn opt_view(o: Option<String>) -> Option<Seq<char>> {
    match o {
        Some(s) => Some(s@),
        None => None,
    }
}

/// A row gives a task when it has a name and both dates.
pub open spec fn row_valid(map: Seq<Option<usize>>, rec: Seq<String>, days: (Option<i32>, Option<i32>)) -> bool {
    &&& cell(map, rec, 0) matches Some(n) && n.len() > 0
    &&& days.0 is Some
    &&& days.1 is Some
}

/// How many of the first `n` rows give a task.
pub open spec fn valid_count(
    map: Seq<Option<usize>>,
    records: Seq<Vec<String>>,
    days: Seq<(Option<i32>, Option<i32>)>,
    n: int,
) -> int
    decreases n,
{
    if n <= 0 {
        0
    } else {
        valid_count(map, records, days, n - 1) + if row_valid(map, records[n - 1]@, days[n - 1]) {
            1int
        } else {
            0
        }
    }
}

/// Whether a milestone cell marks the row as a milestone, after trimming
/// and lowercasing.
pub open spec fn flag_word(w: Seq<char>) -> bool {
    w == "true"@ || w == "yes"@ || w == "1"@ || w == "milestone"@
}

pub open spec fn flagged(map: Seq<Option<usize>>, rec: Seq<String>) -> bool {
    cell(map, rec, 7) matches Some(m) && flag_word(lower_of(trim_of(m)))
}

/// The priority a trimmed, lowercase word names.
pub open spec fn priority_word_spec(w: Seq<char>) -> TaskPriority {
    if w == "critical"@ {
        TaskPriority::Critical
    } else if w == "high"@ {
        TaskPriority::High
    } else if w == "medium"@ || w == "med"@ || w == "normal"@ {
        TaskPriority::Medium
    } else if w == "low"@ {
        TaskPriority::Low
    } else {
        TaskPriority::Unset
    }
}

pub open spec fn row_priority(map: Seq<Option<usize>>, rec: Seq<String>) -> TaskPriority {
    match cell(map, rec, 4) {
        Some(p) => priority_word_spec(lower_of(trim_of(p))),
        None => TaskPriority::Unset,
    }
}

pub open spec fn row_progress(map: Seq<Option<usize>>, rec: Seq<String>) -> u32 {
    match cell(map, rec, 3) {
        Some(s) => word_progress_spec(lower_of(trim_of(s))),
        None => 0,
    }
}

/// The parent name of a row, when its cell is there and not empty.
pub open spec fn parent_name(map: Seq<Option<usize>>, rec: Seq<String>) -> Option<Seq<char>> {
    match cell(map, rec, 6) {
        Some(p) => if p.len() > 0 { Some(p) } else { None },
        None => None,
    }
}

/// The last of the first `n` tasks whose lowercased name is `key`.
pub open spec fn last_named(ts: Seq<Task>, key: Seq<char>, n: int) -> Option<int>
    decreases n,
{
    if n <= 0 {
        None
    } else if lower_of(ts[n - 1].name@) == key {
        Some(n - 1)
    } else {
        last_named(ts, key, n - 1)
    }
}

/// The parent that a task gets from its parent name: the last imported
/// task with that name, ignoring case, unless that is the task itself.
pub open spec fn resolved_parent(ts: Seq<Task>, k: int, name: Option<Seq<char>>) -> Option<u128> {
    match name {
        None => None,
        Some(p) => match last_named(ts, lower_of(p), ts.len() as int) {
            Some(j) => if ts[j].id != ts[k].id { Some(ts[j].id) } else { None },
            None => None,
        },
    }
}

/// Task `t`, imported at position `k`, is what row `rec` describes.
pub open spec fn imported_from(
    t: Task,
    k: int,
    id: u128,
    map: Seq<Option<usize>>,
    rec: Seq<String>,
    days: (Option<i32>, Option<i32>),
    palette: Seq<TaskColor>,
) -> bool {
    let s = days.0->0 as int;
    let e = days.1->0 as int;
    let ms = flagged(map, rec) || s == e;
    &&& t.id == id
    &&& Some(t.name@) == cell(map, rec, 0)
    &&& t.start == s
    &&& t.is_milestone == ms
    &&& t.end == if ms { s } else if e < s { s } else { e }
    &&& t.progress == row_progress(map, rec)
    &&& t.priority == row_priority(map, rec)
    &&& t.description@ == match cell(map, rec, 5) {
        Some(d) => d,
        None => Seq::<char>::empty(),
    }
    &&& t.color == task_color_spec(palette, k)
    &&& !t.collapsed
}

/// The column that each header names.
pub fn column_map(headers: &Vec<String>) -> (r: Vec<Option<usize>>)
    ensures
        r@ == column_map_spec(headers@),
{
    let mut out: Vec<Option<usize>> = Vec::new();
    let mut i: usize = 0;
    while i < headers.len()
        invariant
            i <= headers@.len(),
            out@.len() == i,
            forall|k: int| 0 <= k < i ==> out@[k] == header_col_spec(normalized_spec(#[trigger] headers@[k]@)),
        decreases headers@.len() - i,
    {
        let n = normalize_header(headers[i].as_str());
        out.push(header_to_col(n.as_str()));
        i += 1;
    }
    proof {
        assert(out@ =~= column_map_spec(headers@));
    }
    out
}

fn names_column_exec(map: &Vec<Option<usize>>, c: usize) -> (r: bool)
    ensures
        r == names_column(map@, c),
{
    let mut i: usize = 0;
    while i < map.len()
        invariant
            i <= map@.len(),
            forall|k: int| 0 <= k < i ==> map@[k] != Some(c),
        decreases map@.len() - i,
    {
        if map[i] == Some(c) {
            return true;
        }
        i += 1;
    }
    false
}

/// The trimmed cells of a record by column kind; the last cell of a kind counts.
pub fn row_fields(map: &Vec<Option<usize>>, record: &Vec<String>) -> (r: Vec<Option<String>>)
    ensures
        r@.len() == COLUMN_KINDS,
        forall|c: int| 0 <= c < COLUMN_KINDS ==> opt_view(#[trigger] r@[c]) == cell(map@, record@, c as usize),
{
    let mut out: Vec<Option<String>> = Vec::new();
    let mut c: usize = 0;
    while c < COLUMN_KINDS
        invariant
            c <= COLUMN_KINDS,
            out@.len() == c,
            forall|j: int| 0 <= j < c ==> (#[trigger] out@[j]) is None,
        decreases COLUMN_KINDS - c,
    {
        out.push(None);
        c += 1;
    }
    let mut k: usize = 0;
    while k < record.len()
        invariant
            k <= record@.len(),
            out@.len() == COLUMN_KINDS,
            forall|c: int| 0 <= c < COLUMN_KINDS ==> opt_view(#[trigger] out@[c]) == cell_upto(map@, record@, c as usize, k as int),
        decreases record@.len() - k,
    {
        if k < map.len() {
            if let Some(c) = map[k] {
                if c < COLUMN_KINDS {
                    let v = trimmed(record[k].as_str()).to_owned();
                    out.set(c, Some(v));
                }
            }
        }
        k += 1;
    }
    out
}

fn text_is(a: &str, b: &str) -> (r: bool)
    ensures
        r == (a@ == b@),
{
    a.to_owned() == b.to_owned()
}

/// The priority a trimmed, lowercase word names.
pub fn priority_of_word(w: &str) -> (r: TaskPriority)
    ensures
        r == priority_word_spec(w@),
{
    if text_is(w, "critical") {
        TaskPriority::Critical
    } else if text_is(w, "high") {
        TaskPriority::High
    } else if text_is(w, "medium") || text_is(w, "med") || text_is(w, "normal") {
        TaskPriority::Medium
    } else if text_is(w, "low") {
        TaskPriority::Low
    } else {
        TaskPriority::Unset
    }
}

/// Whether a trimmed, lowercase word marks a milestone.
pub fn is_flag_word(w: &str) -> (r: bool)
    ensures
        r == flag_word(w@),
{
    text_is(w, "true") || text_is(w, "yes") || text_is(w, "1") || text_is(w, "milestone")
}

fn normalized_word(s: &str) -> (r: String)
    ensures
        r@ == lower_of(trim_of(s@)),
{
    lowercase(trimmed(s))
}

proof fn lemma_valid_count_mono(
    map: Seq<Option<usize>>,
    records: Seq<Vec<String>>,
    days: Seq<(Option<i32>, Option<i32>)>,
    a: int,
    b: int,
)
    requires
        0 <= a <= b,
    ensures
        valid_count(map, records, days, a) <= valid_count(map, records, days, b),
        valid_count(map, records, days, b) <= valid_count(map, records, days, a) + (b - a),
    decreases b - a,
{
    if a < b {
        lemma_valid_count_mono(map, records, days, a, b - 1);
    }
}

/// Builds tasks from the rows of a table. `headers` name the columns,
/// `days` holds each row's start and end day (none where its date did not
/// parse), `ids` a fresh id per row and `palette` the colors given by
/// position. Rows without a name or a date are skipped. A row is a milestone
/// when its milestone cell says so or its dates are equal; a parent cell
/// names the last imported task of that name, ignoring case.
#[verifier::rlimit(100)]
pub fn tasks_from_records(
    headers: &Vec<String>,
    records: &Vec<Vec<String>>,
    days: &Vec<(Option<i32>, Option<i32>)>,
    ids: &Vec<u128>,
    palette: &Vec<TaskColor>,
) -> (r: Result<(Vec<Task>, usize), ImportError>)
    requires
        days@.len() == records@.len(),
        ids@.len() == records@.len(),
        forall|i: int, j: int| 0 <= i < j < ids@.len() ==> #[trigger] ids@[i] != #[trigger] ids@[j],
    ensures
        !has_required_columns(column_map_spec(headers@)) ==> r == Err::<(Vec<Task>, usize), ImportError>(
            ImportError::MissingColumns,
        ),
        has_required_columns(column_map_spec(headers@)) && records@.len() == 0 ==> r == Err::<
            (Vec<Task>, usize),
            ImportError,
        >(ImportError::NoRows),
        has_required_columns(column_map_spec(headers@)) && records@.len() > 0 && valid_count(
            column_map_spec(headers@),
            records@,
            days@,
            records@.len() as int,
        ) == 0 ==> r == Err::<(Vec<Task>, usize), ImportError>(ImportError::NoValidRows { skipped: records@.len() as usize }),
        has_required_columns(column_map_spec(headers@)) && valid_count(
            column_map_spec(headers@),
            records@,
            days@,
            records@.len() as int,
        ) > 0 ==> r is Ok,
        r matches Ok((ts, skipped)) ==> {
            let map = column_map_spec(headers@);
            let n = records@.len() as int;
            &&& ts@.len() == valid_count(map, records@, days@, n)
            &&& ts@.len() + skipped == n
            &&& ts@.len() >= 1
            &&& tasks_wf(ts@)
            &&& forall|i: int|
                0 <= i < n && row_valid(map, #[trigger] records@[i]@, days@[i]) ==> {
                    let k = valid_count(map, records@, days@, i);
                    &&& imported_from(ts@[k], k, ids@[i], map, records@[i]@, days@[i], palette@)
                    &&& ts@[k].parent_id == resolved_parent(ts@, k, parent_name(map, records@[i]@))
                }
        },
{
    let map = column_map(headers);
    let ghost mv = map@;
    proof {
        assert(mv == column_map_spec(headers@));
    }
    if !(names_column_exec(&map, 0) && names_column_exec(&map, 1) && names_column_exec(&map, 2)) {
        return Err(ImportError::MissingColumns);
    }
    let ghost recs = records@;
    let ghost dv = days@;
    let mut tasks: Vec<Task> = Vec::new();
    let mut parents: Vec<Option<String>> = Vec::new();
    let mut skipped: usize = 0;
    let ghost mut rows: Seq<int> = Seq::empty();
    let mut i: usize = 0;
    while i < records.len()
        invariant
            i <= recs.len(),
            recs == records@,
            dv == days@,
            mv == map@,
            dv.len() == recs.len(),
            ids@.len() == recs.len(),
            tasks@.len() == valid_count(mv, recs, dv, i as int),
            parents@.len() == tasks@.len(),
            rows.len() == tasks@.len(),
            tasks@.len() + skipped == i,
            tasks_wf(tasks@),
            forall|k: int| 0 <= k < tasks@.len() ==> (#[trigger] tasks@[k]).parent_id is None,
            forall|k: int| 0 <= k < rows.len() ==> 0 <= #[trigger] rows[k] < i && tasks@[k].id == ids@[rows[k]],
            forall|x: int, y: int| 0 <= x < y < rows.len() ==> #[trigger] rows[x] < #[trigger] rows[y],
            forall|a: int|
                0 <= a < i && row_valid(mv, #[trigger] recs[a]@, dv[a]) ==> {
                    let k = valid_count(mv, recs, dv, a);
                    &&& imported_from(tasks@[k], k, ids@[a], mv, recs[a]@, dv[a], palette@)
                    &&& opt_view(parents@[k]) == parent_name(mv, recs[a]@)
                },
        decreases recs.len() - i,
    {
        let fields = row_fields(&map, &records[i]);
        let name_ok = match &fields[0] {
            Some(n) => !n.as_str().is_empty(),
            None => false,
        };
        let (ds, de) = days[i];
        proof {
            assert(opt_view(fields@[0]) == cell(mv, recs[i as int]@, 0));
        }
        if !name_ok || ds.is_none() || de.is_none() {
            skipped = skipped + 1;
        } else {
            proof {
                lemma_valid_count_mono(mv, recs, dv, 0, i as int);
            }
            let ghost k = tasks@.len() as int;
            let t = task_from_row(&fields, ds.unwrap(), de.unwrap(), ids[i], palette, tasks.len());
            let pname = match &fields[6] {
                Some(p) => if p.as_str().is_empty() { None } else { Some(p.clone()) },
                None => None,
            };
            proof {
                assert(opt_view(fields@[6]) == cell(mv, recs[i as int]@, 6));
                assert(dv[i as int] == (ds, de));
                assert(imported_from(t, k, ids@[i as int], mv, recs[i as int]@, dv[i as int], palette@));
            }
            tasks.push(t);
            parents.push(pname);
            proof {
                rows = rows.push(i as int);
                assert(row_valid(mv, recs[i as int]@, dv[i as int]));
                assert(valid_count(mv, recs, dv, i + 1) == k + 1);
                assert(tasks@[k] == t);
                assert forall|a: int|
                    0 <= a < i + 1 && row_valid(mv, #[trigger] recs[a]@, dv[a]) implies {
                        let k2 = valid_count(mv, recs, dv, a);
                        &&& imported_from(tasks@[k2], k2, ids@[a], mv, recs[a]@, dv[a], palette@)
                        &&& opt_view(parents@[k2]) == parent_name(mv, recs[a]@)
                    } by {
                    lemma_valid_count_mono(mv, recs, dv, 0, a);
                    if a < i {
                        lemma_valid_count_mono(mv, recs, dv, a + 1, i as int);
                        assert(valid_count(mv, recs, dv, a) < k);
                    } else {
                        assert(a == i);
                        assert(valid_count(mv, recs, dv, a) == k);
                        assert(parents@[k] == pname);
                        assert(opt_view(pname) == parent_name(mv, recs[a]@));
                    }
                }
            }
        }
        i += 1;
    }
    if tasks.len() == 0 {
        if skipped > 0 {
            return Err(ImportError::NoValidRows { skipped });
        }
        return Err(ImportError::NoRows);
    }
    let ghost before = tasks@;
    proof {
        assert forall|x: int, y: int| 0 <= x < y < before.len() implies before[x].id != before[y].id by {
            assert(rows[x] < rows[y]);
        }
    }
    resolve_parents(&mut tasks, &parents);
    proof {
        let ts = tasks@;
        lemma_resolved_parent_same(ts, before);
        assert forall|a: int|
            0 <= a < recs.len() && row_valid(mv, #[trigger] recs[a]@, dv[a]) implies {
                let k = valid_count(mv, recs, dv, a);
                &&& imported_from(ts[k], k, ids@[a], mv, recs[a]@, dv[a], palette@)
                &&& ts[k].parent_id == resolved_parent(ts, k, parent_name(mv, recs[a]@))
            } by {
            let k = valid_count(mv, recs, dv, a);
            lemma_valid_count_mono(mv, recs, dv, 0, a);
            lemma_valid_count_mono(mv, recs, dv, a + 1, recs.len() as int);
            assert(valid_count(mv, recs, dv, a + 1) == k + 1);
            assert(before.len() == valid_count(mv, recs, dv, recs.len() as int));
            assert(k < before.len());
            assert(ts[k] == (Task { parent_id: resolved_parent(before, k, opt_view(parents@[k])), ..before[k] }));
            assert(imported_from(before[k], k, ids@[a], mv, recs[a]@, dv[a], palette@));
            assert(opt_view(parents@[k]) == parent_name(mv, recs[a]@));
        }
    }
    Ok((tasks, skipped))
}

/// The task that a valid row, given by its cells, describes, before its
/// parent is resolved; `k` is its position among the imported tasks.
fn task_from_row(fields: &Vec<Option<String>>, s: i32, e: i32, id: u128, palette: &Vec<TaskColor>, k: usize) -> (r: Task)
    requires
        fields@.len() == COLUMN_KINDS,
        fields@[0] is Some,
    ensures
        r.wf(),
        r.parent_id is None,
        forall|map: Seq<Option<usize>>, rec: Seq<String>|
            (forall|c: int| 0 <= c < COLUMN_KINDS ==> opt_view(#[trigger] fields@[c]) == cell(map, rec, c as usize))
                ==> #[trigger] imported_from(r, k as int, id, map, rec, (Some(s), Some(e)), palette@),
{
    let name = match &fields[0] {
        Some(n) => n.clone(),
        None => String::new(),
    };
    let mut t = Task::new_with_id(id, name, s, e);
    t.progress = match &fields[3] {
        Some(st) => status_to_progress(st.as_str()),
        None => 0,
    };
    t.priority = match &fields[4] {
        Some(p) => {
            let w = normalized_word(p.as_str());
            priority_of_word(w.as_str())
        },
        None => TaskPriority::Unset,
    };
    t.description = match &fields[5] {
        Some(d) => d.clone(),
        None => String::new(),
    };
    t.color = task_color(palette, k);
    let flag = match &fields[7] {
        Some(m) => {
            let w = normalized_word(m.as_str());
            is_flag_word(w.as_str())
        },
        None => false,
    };
    if flag || s == e {
        t.set_milestone(true);
    }
    proof {
        assert forall|map: Seq<Option<usize>>, rec: Seq<String>|
            (forall|c: int| 0 <= c < COLUMN_KINDS ==> opt_view(#[trigger] fields@[c]) == cell(map, rec, c as usize))
                implies #[trigger] imported_from(t, k as int, id, map, rec, (Some(s), Some(e)), palette@) by {
            assert(opt_view(fields@[0]) == cell(map, rec, 0));
            assert(opt_view(fields@[3]) == cell(map, rec, 3));
            assert(opt_view(fields@[4]) == cell(map, rec, 4));
            assert(opt_view(fields@[5]) == cell(map, rec, 5));
            assert(opt_view(fields@[7]) == cell(map, rec, 7));
        }
    }
    t
}

proof fn lemma_last_named_same(a: Seq<Task>, b: Seq<Task>, key: Seq<char>, n: int)
    requires
        a.len() == b.len(),
        n <= a.len(),
        forall|m: int| 0 <= m < a.len() ==> (#[trigger] a[m]).name == b[m].name,
    ensures
        last_named(a, key, n) == last_named(b, key, n),
    decreases n,
{
    if n > 0 {
        assert(a[n - 1].name == b[n - 1].name);
        lemma_last_named_same(a, b, key, n - 1);
    }
}

proof fn lemma_resolved_parent_same(a: Seq<Task>, b: Seq<Task>)
    requires
        a.len() == b.len(),
        forall|m: int| 0 <= m < a.len() ==> (#[trigger] a[m]).name == b[m].name && a[m].id == b[m].id,
    ensures
        forall|k: int, p: Option<Seq<char>>| 0 <= k < a.len() ==> #[trigger] resolved_parent(a, k, p) == resolved_parent(b, k, p),
{
    assert forall|k: int, p: Option<Seq<char>>| 0 <= k < a.len() implies #[trigger] resolved_parent(a, k, p) == resolved_parent(b, k, p) by {
        if let Some(q) = p {
            lemma_last_named_same(a, b, lower_of(q), a.len() as int);
            if let Some(j) = last_named(a, lower_of(q), a.len() as int) {
                lemma_last_named_in_range(a, lower_of(q), a.len() as int);
            }
        }
    }
}

proof fn lemma_last_named_in_range(ts: Seq<Task>, key: Seq<char>, n: int)
    ensures
        last_named(ts, key, n) matches Some(j) ==> 0 <= j < n,
    decreases n,
{
    if n > 0 {
        lemma_last_named_in_range(ts, key, n - 1);
    }
}

/// Sets each task's parent to the last task named by its parent name,
/// ignoring case, unless that is the task itself.
fn resolve_parents(tasks: &mut Vec<Task>, parents: &Vec<Option<String>>)
    requires
        parents@.len() == old(tasks)@.len(),
        tasks_wf(old(tasks)@),
        forall|x: int, y: int| 0 <= x < y < old(tasks)@.len() ==> old(tasks)@[x].id != old(tasks)@[y].id,
    ensures
        final(tasks)@.len() == old(tasks)@.len(),
        tasks_wf(final(tasks)@),
        forall|k: int| 0 <= k < final(tasks)@.len() ==> #[trigger] final(tasks)@[k] == (Task {
            parent_id: resolved_parent(old(tasks)@, k, opt_view(parents@[k])),
            ..old(tasks)@[k]
        }),
{
    let ghost ts = tasks@;
    let n = tasks.len();
    let mut keys: Vec<String> = Vec::new();
    let mut j: usize = 0;
    while j < n
        invariant
            n == ts.len(),
            ts == tasks@,
            j <= n,
            keys@.len() == j,
            forall|m: int| 0 <= m < j ==> (#[trigger] keys@[m])@ == lower_of(ts[m].name@),
        decreases n - j,
    {
        keys.push(lowercase(tasks[j].name.as_str()));
        j += 1;
    }
    let mut k: usize = 0;
    while k < n
        invariant
            n == ts.len(),
            tasks@.len() == n,
            k <= n,
            parents@.len() == n,
            keys@.len() == n,
            forall|m: int| 0 <= m < n ==> (#[trigger] keys@[m])@ == lower_of(ts[m].name@),
            forall|x: int, y: int| 0 <= x < y < ts.len() ==> ts[x].id != ts[y].id,
            tasks_wf(ts),
            forall|m: int| k <= m < n ==> #[trigger] tasks@[m] == ts[m],
            forall|m: int| 0 <= m < k ==> #[trigger] tasks@[m] == (Task {
                parent_id: resolved_parent(ts, m, opt_view(parents@[m])),
                ..ts[m]
            }),
            tasks_wf(tasks@),
        decreases n - k,
    {
        let found: Option<usize> = match &parents[k] {
            None => None,
            Some(p) => {
                let key = lowercase(p.as_str());
                let mut hit: Option<usize> = None;
                let mut j: usize = n;
                while j > 0
                    invariant
                        j <= n,
                        n == ts.len(),
                        keys@.len() == n,
                        forall|m: int| 0 <= m < n ==> (#[trigger] keys@[m])@ == lower_of(ts[m].name@),
                        hit is None ==> last_named(ts, key@, n as int) == last_named(ts, key@, j as int),
                        hit matches Some(h) ==> last_named(ts, key@, n as int) == Some(h as int) && h < n,
                    decreases j,
                {
                    if hit.is_none() && keys[j - 1] == key {
                        hit = Some(j - 1);
                    }
                    j -= 1;
                }
                hit
            },
        };
        let t_id = tasks[k].id;
        let new_parent = match found {
            Some(h) => if tasks[h].id != t_id { Some(tasks[h].id) } else { None },
            None => None,
        };
        let mut t = tasks[k].duplicate();
        t.parent_id = new_parent;
        tasks.set(k, t);
        k += 1;
    }
}

} // verus!
