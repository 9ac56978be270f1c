//! The logic of the schedule bot: reading course rows out of a timetable
//! page, grouping lines by course, the records kept in the store, and the
//! bot's replies.
use vstd::prelude::*;
use vstd::string::*;
use crate::text::{joined, join_strings, strip_char, without_char};
use crate::json::{encode_list, json_string_array};
use scraper::{Html, Selector};

verus! {

/// The key under which the list of courses is stored.
pub const COURSES_KEY: &'static str = "COURSES_KEY";

/// Text fragments of a row's cells, cleaned: a fragment that is empty or a
/// lone line break is dropped, every other loses its line breaks.
pub open spec fn cleaned(fragments: Seq<Seq<char>>) -> Seq<Seq<char>>
    decreases fragments.len(),
{
    if fragments.len() == 0 {
        Seq::empty()
    } else {
        let f = fragments.last();
        let rest = cleaned(fragments.drop_last());
        if f == seq!['\n'] || f.len() == 0 {
            rest
        } else {
            rest.push(without_char(f, '\n'))
        }
    }
}

/// Whether a cleaned row names, in its third cell, a course that starts
/// with `pattern`.
pub open spec fn is_course_row(cells: Seq<Seq<char>>, pattern: Seq<char>) -> bool {
    cells.len() > 2 && pattern.is_prefix_of(cells[2])
}

/// The schedule line of a course row: with exactly seven cells, cells 0, 1
/// and 4; otherwise cells 0, 1, 5 and 6.
pub open spec fn line_of(cells: Seq<Seq<char>>) -> Seq<char> {
    if cells.len() == 7 {
        "\u{1f516} "@ + cells[0] + " "@ + cells[1] + ": "@ + cells[4] + " "@
    } else {
        "\u{1f516} "@ + cells[0] + " "@ + cells[1] + ": "@ + cells[5] + " ("@ + cells[6] + ")"@
    }
}

/// Whether the course rows among `rows` all have the seven cells that a
/// schedule line reads.
pub open spec fn rows_complete(rows: Seq<Seq<Seq<char>>>, pattern: Seq<char>) -> bool {
    forall|i: int|
        0 <= i < rows.len() && is_course_row(#[trigger] cleaned(rows[i]), pattern) ==> cleaned(
            rows[i],
        ).len() >= 7
}

/// Whether no course occurs twice among the groups.
pub open spec fn distinct_courses(groups: Seq<(Seq<char>, Seq<Seq<char>>)>) -> bool {
    forall|i: int, j: int|
        0 <= i < groups.len() && 0 <= j < groups.len() && i != j ==> groups[i].0 != groups[j].0
}

/// `groups` with `line` added to the lines of `course`, or with a new group
/// for `course` at the end when there is none yet.
pub open spec fn add_line(
    groups: Seq<(Seq<char>, Seq<Seq<char>>)>,
    course: Seq<char>,
    line: Seq<char>,
) -> Seq<(Seq<char>, Seq<Seq<char>>)> {
    if exists|k: int| 0 <= k < groups.len() && #[trigger] groups[k].0 == course {
        let k = choose|k: int| 0 <= k < groups.len() && #[trigger] groups[k].0 == course;
        groups.update(k, (course, groups[k].1.push(line)))
    } else {
        groups.push((course, seq![line]))
    }
}

/// The course rows of `rows`, grouped by course in order of first
/// appearance, each course with its lines in row order.
pub open spec fn grouped(rows: Seq<Seq<Seq<char>>>, pattern: Seq<char>) -> Seq<
    (Seq<char>, Seq<Seq<char>>),
>
    decreases rows.len(),
{
    if rows.len() == 0 {
        Seq::empty()
    } else {
        let groups = grouped(rows.drop_last(), pattern);
        let cells = cleaned(rows.last());
        if is_course_row(cells, pattern) {
            add_line(groups, cells[2], line_of(cells))
        } else {
            groups
        }
    }
}

/// Every row is read, the last one included: grouping the rows followed by
/// one more row gives the grouping of the rows with that row's line added
/// to its course when it is a course row, and the grouping of the rows
/// alone otherwise. So a single course row gives one course with its line.
pub proof fn lemma_grouped_reads_each_row(
    rows: Seq<Seq<Seq<char>>>,
    row: Seq<Seq<char>>,
    pattern: Seq<char>,
)
    ensures
        grouped(rows.push(row), pattern) == if is_course_row(cleaned(row), pattern) {
            add_line(grouped(rows, pattern), cleaned(row)[2], line_of(cleaned(row)))
        } else {
            grouped(rows, pattern)
        },
        grouped(Seq::empty(), pattern) == Seq::<(Seq<char>, Seq<Seq<char>>)>::empty(),
        is_course_row(cleaned(row), pattern) ==> grouped(seq![row], pattern) == seq![
            (cleaned(row)[2], seq![line_of(cleaned(row))]),
        ],
{
    assert(rows.push(row).drop_last() =~= rows);
    assert(seq![row].drop_last() =~= Seq::<Seq<Seq<char>>>::empty());
    let empty = Seq::<(Seq<char>, Seq<Seq<char>>)>::empty();
    assert(!(exists|k: int| 0 <= k < empty.len() && #[trigger] empty[k].0 == cleaned(row)[2]));
    assert(empty.push((cleaned(row)[2], seq![line_of(cleaned(row))])) =~= seq![
        (cleaned(row)[2], seq![line_of(cleaned(row))]),
    ]);
}

/// Adding a line to a course that has a group appends it to that group's
/// lines and leaves every other group as it was; adding one to a course
/// without a group opens a group for it at the end, holding just that line.
pub proof fn lemma_add_line_places_line(
    groups: Seq<(Seq<char>, Seq<Seq<char>>)>,
    course: Seq<char>,
    line: Seq<char>,
    k: int,
)
    requires
        distinct_courses(groups),
    ensures
        0 <= k < groups.len() && groups[k].0 == course ==> add_line(groups, course, line) == groups.update(
            k,
            (course, groups[k].1.push(line)),
        ),
        (forall|j: int| 0 <= j < groups.len() ==> #[trigger] groups[j].0 != course) ==> add_line(
            groups,
            course,
            line,
        ) == groups.push((course, seq![line])),
{
}

/// Adding a line keeps the courses distinct.
pub proof fn lemma_add_line_distinct(
    groups: Seq<(Seq<char>, Seq<Seq<char>>)>,
    course: Seq<char>,
    line: Seq<char>,
)
    requires
        distinct_courses(groups),
    ensures
        distinct_courses(add_line(groups, course, line)),
{
}

/// The groups never repeat a course.
pub proof fn lemma_grouped_distinct(rows: Seq<Seq<Seq<char>>>, pattern: Seq<char>)
    ensures
        distinct_courses(grouped(rows, pattern)),
    decreases rows.len(),
{
    if rows.len() > 0 {
        lemma_grouped_distinct(rows.drop_last(), pattern);
        let groups = grouped(rows.drop_last(), pattern);
        let cells = cleaned(rows.last());
        if is_course_row(cells, pattern) {
            lemma_add_line_distinct(groups, cells[2], line_of(cells));
        }
    }
}

/// Course lines grouped by course.
pub struct Schedule {
    groups: Vec<(String, Vec<String>)>,
}

/// The text of a group.
pub open spec fn group_view(g: (String, Vec<String>)) -> (Seq<char>, Seq<Seq<char>>) {
    (g.0@, g.1@.map_values(|s: String| s@))
}

impl View for Schedule {
    type V = Seq<(Seq<char>, Seq<Seq<char>>)>;

    closed spec fn view(&self) -> Seq<(Seq<char>, Seq<Seq<char>>)> {
        self.groups@.map_values(|g: (String, Vec<String>)| group_view(g))
    }
}

/// The fragments cleaned as `cleaned` says.
pub fn clean_fragments(fragments: &Vec<String>) -> (cells: Vec<String>)
    ensures
        cells@.map_values(|c: String| c@) == cleaned(fragments@.map_values(|f: String| f@)),
{
    let ghost views = fragments@.map_values(|f: String| f@);
    let mut cells: Vec<String> = Vec::new();
    let mut i: usize = 0;
    while i < fragments.len()
        invariant
            0 <= i <= fragments@.len(),
            views == fragments@.map_values(|f: String| f@),
            cells@.map_values(|c: String| c@) == cleaned(views.take(i as int)),
        decreases fragments@.len() - i,
    {
        assert(views.take(i + 1).drop_last() =~= views.take(i as int));
        assert(views.take(i + 1).last() == fragments@[i as int]@);
        let f = fragments[i].as_str();
        let lone_break = f.unicode_len() == 1 && f.get_char(0) == '\n';
        assert(lone_break == (f@ == seq!['\n'])) by {
            if f@.len() == 1 && f@[0] == '\n' {
                assert(f@ =~= seq!['\n']);
            }
        }
        if !lone_break && f.unicode_len() != 0 {
            let cell = strip_char(f, '\n');
            let ghost before = cells@;
            cells.push(cell);
            assert(cells@.map_values(|c: String| c@) =~= before.map_values(|c: String| c@).push(
                cell@,
            ));
        }
        i = i + 1;
    }
    assert(views.take(fragments@.len() as int) =~= views);
    cells
}

/// Whether `prefix` starts `s`.
fn starts_with(s: &str, prefix: &str) -> (b: bool)
    ensures
        b == prefix@.is_prefix_of(s@),
{
    let n = prefix.unicode_len();
    let m = s.unicode_len();
    if n > m {
        return false;
    }
    let mut i: usize = 0;
    while i < n
        invariant
            n == prefix@.len(),
            m == s@.len(),
            n <= m,
            0 <= i <= n,
            forall|j: int| 0 <= j < i ==> prefix@[j] == s@[j],
        decreases n - i,
    {
        if prefix.get_char(i) != s.get_char(i) {
            return false;
        }
        i = i + 1;
    }
    true
}

/// Whether the cleaned row is a course row for `pattern`.
pub fn course_row(cells: &Vec<String>, pattern: &str) -> (b: bool)
    ensures
        b == is_course_row(cells@.map_values(|c: String| c@), pattern@),
{
    cells.len() > 2 && starts_with(cells[2].as_str(), pattern)
}

/// The schedule line of a course row.
pub fn schedule_line(cells: &Vec<String>) -> (line: String)
    requires
        cells@.len() >= 7,
    ensures
        line@ == line_of(cells@.map_values(|c: String| c@)),
{
    let mut line = String::from_str("\u{1f516} ");
    line.append(cells[0].as_str());
    line.append(" ");
    line.append(cells[1].as_str());
    line.append(": ");
    if cells.len() == 7 {
        line.append(cells[4].as_str());
        line.append(" ");
    } else {
        line.append(cells[5].as_str());
        line.append(" (");
        line.append(cells[6].as_str());
        line.append(")");
    }
    line
}

impl Schedule {
    /// No courses yet.
    pub fn new() -> (s: Self)
        ensures
            s@ == Seq::<(Seq<char>, Seq<Seq<char>>)>::empty(),
    {
        Schedule { groups: Vec::new() }
    }

    /// The courses, in order of first appearance.
    pub fn courses(&self) -> (courses: Vec<String>)
        ensures
            courses@.map_values(|c: String| c@) == self@.map_values(
                |g: (Seq<char>, Seq<Seq<char>>)| g.0,
            ),
    {
        let mut courses: Vec<String> = Vec::new();
        let mut i: usize = 0;
        while i < self.groups.len()
            invariant
                0 <= i <= self.groups@.len(),
                self@ == self.groups@.map_values(|g: (String, Vec<String>)| group_view(g)),
                courses@.len() == i,
                forall|j: int| 0 <= j < i ==> #[trigger] courses@[j]@ == self@[j].0,
            decreases self.groups@.len() - i,
        {
            assert(self@[i as int].0 == self.groups@[i as int].0@);
            courses.push(self.groups[i].0.clone());
            i = i + 1;
        }
        assert(courses@.map_values(|c: String| c@) =~= self@.map_values(
            |g: (Seq<char>, Seq<Seq<char>>)| g.0,
        ));
        courses
    }

    /// The position of the group of `course`, if there is one.
    fn find_course(&self, course: &str) -> (k: Option<usize>)
        requires
            distinct_courses(self@),
        ensures
            k matches Some(i) ==> i < self@.len() && self@[i as int].0 == course@ && i == choose|
                j: int,
            | 0 <= j < self@.len() && #[trigger] self@[j].0 == course@,
            k is None ==> !(exists|j: int| 0 <= j < self@.len() && #[trigger] self@[j].0 == course@),
    {
        let mut i: usize = 0;
        while i < self.groups.len()
            invariant
                0 <= i <= self.groups@.len(),
                self@ == self.groups@.map_values(|g: (String, Vec<String>)| group_view(g)),
                distinct_courses(self@),
                forall|j: int| 0 <= j < i ==> #[trigger] self@[j].0 != course@,
            decreases self.groups@.len() - i,
        {
            assert(self@[i as int].0 == self.groups@[i as int].0@);
            if self.groups[i].0.as_str().unicode_len() == course.unicode_len() && starts_with(
                self.groups[i].0.as_str(),
                course,
            ) {
                assert(self@[i as int].0 =~= course@);
                let ghost k = choose|k: int| 0 <= k < self@.len() && #[trigger] self@[k].0 == course@;
                assert(k == i);
                return Some(i);
            }
            i = i + 1;
        }
        None
    }

    /// The lines of `course`; none when the course is unknown.
    pub fn lines_of(&self, course: &str) -> (lines: Vec<String>)
        requires
            distinct_courses(self@),
        ensures
            (exists|k: int| 0 <= k < self@.len() && #[trigger] self@[k].0 == course@) ==> {
                let k = choose|k: int| 0 <= k < self@.len() && #[trigger] self@[k].0 == course@;
                lines@.map_values(|s: String| s@) == self@[k].1
            },
            !(exists|k: int| 0 <= k < self@.len() && #[trigger] self@[k].0 == course@) ==> lines@.len()
                == 0,
    {
        match self.find_course(course) {
            Some(i) => {
                assert(self@[i as int] == group_view(self.groups@[i as int]));
                self.groups[i].1.clone()
            },
            None => Vec::new(),
        }
    }

    /// Adds `line` to the lines of `course`, opening a group for a new one.
    pub fn add_line(&mut self, course: String, line: String)
        requires
            distinct_courses(old(self)@),
        ensures
            final(self)@ == add_line(old(self)@, course@, line@),
            distinct_courses(final(self)@),
    {
        proof {
            lemma_add_line_distinct(self@, course@, line@);
        }
        let ghost start = self@;
        let ghost course_view = course@;
        let ghost line_view = line@;
        match self.find_course(course.as_str()) {
            Some(i) => {
                let ghost old_groups = self.groups@;
                let ghost old_lines = start[i as int].1;
                assert(old_lines == old_groups[i as int].1@.map_values(|s: String| s@));
                self.groups[i].1.push(line);
                assert(self.groups@[i as int].0 == old_groups[i as int].0);
                assert(self.groups@[i as int].1@.map_values(|s: String| s@) =~= old_lines.push(
                    line_view,
                ));
                assert(self@ =~= start.update(i as int, (course_view, old_lines.push(line_view))));
            },
            None => {
                let mut lines = Vec::new();
                lines.push(line);
                assert(lines@.map_values(|s: String| s@) =~= seq![line_view]);
                self.groups.push((course, lines));
                assert(self@ =~= start.push((course_view, seq![line_view])));
            },
        }
    }
}

/// The schedule of the course rows among `rows` (each row given by the text
/// fragments of its cells) whose course starts with `pattern`.
pub fn collect_schedule(rows: &Vec<Vec<String>>, pattern: &str) -> (schedule: Schedule)
    requires
        rows_complete(rows@.map_values(|r: Vec<String>| r@.map_values(|f: String| f@)), pattern@),
    ensures
        schedule@ == grouped(rows@.map_values(|r: Vec<String>| r@.map_values(|f: String| f@)), pattern@),
{
    let ghost views = rows@.map_values(|r: Vec<String>| r@.map_values(|f: String| f@));
    let mut schedule = Schedule::new();
    let mut i: usize = 0;
    while i < rows.len()
        invariant
            0 <= i <= rows@.len(),
            views == rows@.map_values(|r: Vec<String>| r@.map_values(|f: String| f@)),
            rows_complete(views, pattern@),
            schedule@ == grouped(views.take(i as int), pattern@),
            distinct_courses(schedule@),
        decreases rows@.len() - i,
    {
        assert(views.take(i + 1).drop_last() =~= views.take(i as int));
        assert(views.take(i + 1).last() == views[i as int]);
        let cells = clean_fragments(&rows[i]);
        if course_row(&cells, pattern) {
            assert(is_course_row(cleaned(views[i as int]), pattern@));
            let line = schedule_line(&cells);
            let course = cells[2].clone();
            schedule.add_line(course, line);
        }
        i = i + 1;
    }
    assert(views.take(rows@.len() as int) =~= views);
    schedule
}

/// What `scraper` finds in the document `html`: for each element matching
/// the selector `table` and, inside it, each element matching `row`, the
/// text pieces of the elements matching `cell` inside that row, in
/// document order; `None` when a selector does not parse.
pub uninterp spec fn scraped_rows(
    html: Seq<char>,
    table: Seq<char>,
    row: Seq<char>,
    cell: Seq<char>,
) -> Option<Seq<Seq<Seq<char>>>>;

/// `scraper`: parses the selectors and the document and gathers, row by
/// row, the text pieces of the cells. The contract names the result only.
#[verifier::external_body]
fn scrape_rows(html: &str, table: &str, row: &str, cell: &str) -> (rows: Option<Vec<Vec<String>>>)
    ensures
        rows.deep_view() == scraped_rows(html@, table@, row@, cell@),
{
    let (Ok(t), Ok(r), Ok(c)) = (Selector::parse(table), Selector::parse(row), Selector::parse(cell))
    else {
        return None;
    };
    let document = Html::parse_document(html);
    let mut rows = Vec::new();
    for node in document.select(&t) {
        for tr in node.select(&r) {
            rows.push(tr.select(&c).flat_map(|el| el.text()).map(|s| s.to_string()).collect());
        }
    }
    Some(rows)
}

/// The rows of the timetable in a schedule page, as `scraped_rows` reads
/// them with the page's selectors.
pub open spec fn timetable_rows(html: Seq<char>) -> Option<Seq<Seq<Seq<char>>>> {
    scraped_rows(html, "table.table_full"@, "tr.table__row"@, "td.table__col"@)
}

/// Reads the course rows out of a schedule page and groups their lines by
/// course. `None` when the page's selectors do not parse or a course row
/// lacks a cell that its schedule line reads.
pub fn read_schedule(html: &str, pattern: &str) -> (schedule: Option<Schedule>)
    ensures
        match timetable_rows(html@) {
            None => schedule is None,
            Some(rows) => if rows_complete(rows, pattern@) {
                schedule matches Some(s) && s@ == grouped(rows, pattern@) && distinct_courses(s@)
            } else {
                schedule is None
            },
        },
{
    let scraped = scrape_rows(html, "table.table_full", "tr.table__row", "td.table__col");
    let rows = match scraped {
        None => {
            return None;
        },
        Some(rows) => rows,
    };
    let ghost views = rows@.map_values(|r: Vec<String>| r@.map_values(|f: String| f@));
    assert(views =~= rows.deep_view()) by {
        assert forall|i: int| 0 <= i < views.len() implies views[i] =~= rows.deep_view()[i] by {}
    }
    let mut i: usize = 0;
    while i < rows.len()
        invariant
            0 <= i <= rows@.len(),
            views == rows@.map_values(|r: Vec<String>| r@.map_values(|f: String| f@)),
            timetable_rows(html@) == Some(views),
            forall|j: int|
                0 <= j < i && is_course_row(#[trigger] cleaned(views[j]), pattern@) ==> cleaned(
                    views[j],
                ).len() >= 7,
        decreases rows@.len() - i,
    {
        let cells = clean_fragments(&rows[i]);
        assert(views[i as int] == rows@[i as int]@.map_values(|f: String| f@));
        if course_row(&cells, pattern) && cells.len() < 7 {
            assert(!rows_complete(views, pattern@));
            return None;
        }
        i = i + 1;
    }
    let schedule = collect_schedule(&rows, pattern);
    proof {
        lemma_grouped_distinct(views, pattern@);
    }
    Some(schedule)
}

/// The records kept for a schedule: the list of courses under
/// `COURSES_KEY`, then each course with its list of lines, as JSON text.
pub open spec fn store_records(groups: Seq<(Seq<char>, Seq<Seq<char>>)>) -> Seq<
    (Seq<char>, Seq<char>),
> {
    seq![("COURSES_KEY"@, json_string_array(groups.map_values(|g: (Seq<char>, Seq<Seq<char>>)| g.0)))]
        + groups.map_values(|g: (Seq<char>, Seq<Seq<char>>)| (g.0, json_string_array(g.1)))
}

/// The text view of a list of records.
pub open spec fn records_view(records: Seq<(String, String)>) -> Seq<(Seq<char>, Seq<char>)> {
    records.map_values(|r: (String, String)| (r.0@, r.1@))
}

impl Schedule {
    /// The key and JSON text of every record to keep for this schedule.
    pub fn store_entries(&self) -> (records: Vec<(String, String)>)
        ensures
            records_view(records@) == store_records(self@),
    {
        let mut records: Vec<(String, String)> = Vec::new();
        let courses = self.courses();
        let list = encode_list(&courses);
        proof {
            reveal_strlit("COURSES_KEY");
        }
        let key = String::from_str(COURSES_KEY);
        records.push((key, list));
        let ghost head = records_view(records@);
        assert(head =~= seq![("COURSES_KEY"@, json_string_array(self@.map_values(|g: (Seq<char>, Seq<Seq<char>>)| g.0)))]);
        let mut i: usize = 0;
        while i < self.groups.len()
            invariant
                0 <= i <= self.groups@.len(),
                self@ == self.groups@.map_values(|g: (String, Vec<String>)| group_view(g)),
                records@.len() == i + 1,
                records_view(records@) == head + self@.take(i as int).map_values(
                    |g: (Seq<char>, Seq<Seq<char>>)| (g.0, json_string_array(g.1)),
                ),
            decreases self.groups@.len() - i,
        {
            let text = encode_list(&self.groups[i].1);
            let course = self.groups[i].0.clone();
            let ghost before = records_view(records@);
            records.push((course, text));
            assert(self@[i as int] == group_view(self.groups@[i as int]));
            assert(records_view(records@) =~= before.push((self@[i as int].0, json_string_array(self@[i as int].1))));
            assert(self@.take(i + 1).map_values(|g: (Seq<char>, Seq<Seq<char>>)| (g.0, json_string_array(g.1)))
                =~= self@.take(i as int).map_values(|g: (Seq<char>, Seq<Seq<char>>)| (g.0, json_string_array(g.1))).push(
                (self@[i as int].0, json_string_array(self@[i as int].1))));
            i = i + 1;
        }
        assert(self@.take(self@.len() as int) =~= self@);
        records
    }
}

/// One keyboard row per group, each with a single button whose label and
/// answer are the group's name.
pub fn keyboard_rows(groups: &Vec<String>) -> (rows: Vec<Vec<(String, String)>>)
    ensures
        rows@.len() == groups@.len(),
        forall|i: int|
            0 <= i < groups@.len() ==> {
                &&& #[trigger] rows@[i]@.len() == 1
                &&& rows@[i]@[0].0@ == groups@[i]@
                &&& rows@[i]@[0].1@ == groups@[i]@
            },
{
    let mut rows: Vec<Vec<(String, String)>> = Vec::new();
    let mut i: usize = 0;
    while i < groups.len()
        invariant
            0 <= i <= groups@.len(),
            rows@.len() == i,
            forall|j: int|
                0 <= j < i ==> {
                    &&& #[trigger] rows@[j]@.len() == 1
                    &&& rows@[j]@[0].0@ == groups@[j]@
                    &&& rows@[j]@[0].1@ == groups@[j]@
                },
        decreases groups@.len() - i,
    {
        let mut row: Vec<(String, String)> = Vec::new();
        let label = groups[i].clone();
        let answer = groups[i].clone();
        row.push((label, answer));
        assert(row@.len() == 1 && row@[0].0@ == groups@[i as int]@ && row@[0].1@ == groups@[i as int]@);
        let ghost before = rows@;
        rows.push(row);
        assert(forall|j: int| 0 <= j < i ==> rows@[j] == before[j]);
        i = i + 1;
    }
    rows
}

/// The message for a chosen course: its first five lines (or all, when
/// fewer), one per line.
pub fn course_message(lines: &Vec<String>) -> (text: String)
    ensures
        text@ == joined(
            lines@.take(if lines@.len() < 5 {
                lines@.len() as int
            } else {
                5
            }).map_values(|s: String| s@),
            "\n"@,
        ),
{
    let mut first: Vec<String> = Vec::new();
    let mut i: usize = 0;
    while i < lines.len() && i < 5
        invariant
            0 <= i <= lines@.len(),
            i <= 5,
            first@ == lines@.take(i as int),
        decreases lines@.len() - i,
    {
        first.push(lines[i].clone());
        assert(first@ =~= lines@.take(i + 1));
        i = i + 1;
    }
    join_strings(&first, "\n")
}

/// The settings of the bot.
pub struct AppConfig {
    pub course_pattern: String,
    pub source_file: String,
    pub redis_url: String,
}

/// The value found, or else the default.
pub open spec fn or_default(found: Option<String>, default: Seq<char>) -> Seq<char> {
    match found {
        Some(v) => v@,
        None => default,
    }
}

impl AppConfig {
    /// The settings from the values found, each missing one replaced by its
    /// default: the course pattern `Rust`, the source file `/tmp/ttt.html`
    /// and the store at `redis://127.0.0.1:6379`.
    pub fn from_settings(
        course_pattern: Option<String>,
        source_file: Option<String>,
        redis_url: Option<String>,
    ) -> (config: AppConfig)
        ensures
            config.course_pattern@ == or_default(course_pattern, "Rust"@),
            config.source_file@ == or_default(source_file, "/tmp/ttt.html"@),
            config.redis_url@ == or_default(redis_url, "redis://127.0.0.1:6379"@),
    {
        let course_pattern = match course_pattern {
            Some(v) => v,
            None => String::from_str("Rust"),
        };
        let source_file = match source_file {
            Some(v) => v,
            None => String::from_str("/tmp/ttt.html"),
        };
        let redis_url = match redis_url {
            Some(v) => v,
            None => String::from_str("redis://127.0.0.1:6379"),
        };
        AppConfig { course_pattern, source_file, redis_url }
    }
}

/// The commands that the bot understands.
pub enum Command {
    Help,
    Start,
    Schedule,
}

/// What the bot answers to a message.
pub enum Reply {
    /// The list of commands with their descriptions.
    Descriptions,
    /// A prompt shown above the keyboard of groups.
    GroupKeyboard(String),
    /// A plain text.
    Text(String),
}

/// The prompt above the keyboard of groups ("choose a group").
pub open spec fn group_prompt() -> Seq<char> {
    "\u{412}\u{44b}\u{431}\u{435}\u{440}\u{435}\u{442}\u{435} \u{433}\u{440}\u{443}\u{43f}\u{43f}\u{443}"@
}

/// The answer to a command, or to a message that is no known command.
pub fn reply_for(command: Option<Command>) -> (reply: Reply)
    ensures
        match command {
            Some(Command::Help) => reply is Descriptions,
            Some(Command::Start) => reply matches Reply::GroupKeyboard(p) && p@ == group_prompt(),
            Some(Command::Schedule) => reply matches Reply::GroupKeyboard(p) && p@ == group_prompt(),
            None => reply matches Reply::Text(t) && t@ == "Command not found!"@,
        },
{
    match command {
        Some(Command::Help) => Reply::Descriptions,
        Some(_) => Reply::GroupKeyboard(
            String::from_str(
                "\u{412}\u{44b}\u{431}\u{435}\u{440}\u{435}\u{442}\u{435} \u{433}\u{440}\u{443}\u{43f}\u{43f}\u{443}",
            ),
        ),
        None => Reply::Text(String::from_str("Command not found!")),
    }
}

} // verus!
