//! Log entries, the row form in which the store keeps them, and the
//! parameters of the one query that the store answers.
//!
//! The store holds one table:
//!
//! ```text
//! qu_log(id INTEGER PRIMARY KEY AUTOINCREMENT, text TEXT NOT NULL,
//!        tags TEXT DEFAULT '', create_date DATETIME NOT NULL)
//! ```
//!
//! `create_date` holds the canonical text of the instant, so that the store's
//! comparison of texts orders rows by time. A query selects the rows whose
//! `tags` text equals the filter exactly (every row when there is no filter)
//! and whose `create_date` lies in the closed range `[start, end]`, in the
//! order in which they were written.

use crate::error::LogError;
use crate::range::{opt_text, resolve_range, resolved_range, DatePreset};
use crate::tags::{all_plain, join_tags, lemma_parse_join, parse_tags, TagSet};
use crate::timestamp::{
    date_after, earliest_instant, latest_instant, lemma_shifted_dates_valid, lemma_text_order,
    read_timestamp, storable_year, text_le, text_not_after, LocalDateTime,
};
use vstd::prelude::*;

verus! {

/// A log entry: its text, its tags and the instant it was created. The text
/// may be empty: nothing here asks otherwise.
pub struct LogEntry {
    pub text: String,
    pub tags: TagSet,
    pub created_at: LocalDateTime,
}

/// An entry as the store keeps it: the tags comma-joined, the instant in its
/// canonical text form.
pub struct LogRow {
    pub text: String,
    pub tags: String,
    pub create_date: String,
}

/// The bound values of a query: the exact tag text to match, or `None` for
/// every row, and the closed range of creation texts.
pub struct Query {
    pub tags: Option<String>,
    pub start: String,
    pub end: String,
}

/// The row written for an entry.
pub open spec fn row_of(text: Seq<char>, tags: Seq<Seq<char>>, created_at: LocalDateTime) -> (
    Seq<char>,
    Seq<char>,
    Seq<char>,
) {
    (text, join_tags(tags), created_at.text())
}

/// The tag text that a filter asks for: none for an absent or empty filter.
pub open spec fn tag_filter(tags: Option<Seq<Seq<char>>>) -> Option<Seq<char>> {
    match tags {
        Some(t) => if t.len() > 0 {
            Some(join_tags(t))
        } else {
            None
        },
        None => None,
    }
}

/// A query selects a row: the tag text matches exactly and the creation text
/// lies in the closed range.
pub open spec fn selects(
    tags: Option<Seq<char>>,
    start: Seq<char>,
    end: Seq<char>,
    row: (Seq<char>, Seq<char>, Seq<char>),
) -> bool {
    (match tags {
        Some(t) => row.1 == t,
        None => true,
    }) && text_le(start, row.2) && text_le(row.2, end)
}

/// The rows among `rows` that a query selects, in order.
pub open spec fn selected(
    tags: Option<Seq<char>>,
    start: Seq<char>,
    end: Seq<char>,
    rows: Seq<(Seq<char>, Seq<char>, Seq<char>)>,
) -> Seq<(Seq<char>, Seq<char>, Seq<char>)>
    decreases rows.len(),
{
    if rows.len() == 0 {
        Seq::empty()
    } else {
        let init = selected(tags, start, end, rows.drop_last());
        if selects(tags, start, end, rows.last()) {
            init.push(rows.last())
        } else {
            init
        }
    }
}

impl LogRow {
    /// The three texts of the row.
    pub open spec fn texts(&self) -> (Seq<char>, Seq<char>, Seq<char>) {
        (self.text@, self.tags@, self.create_date@)
    }

    /// The row that stores `entry`.
    pub fn from_entry(entry: &LogEntry) -> (r: LogRow)
        requires
            entry.created_at.wf(),
        ensures
            r.texts() == row_of(entry.text@, entry.tags@, entry.created_at),
    {
        LogRow {
            text: entry.text.clone(),
            tags: entry.tags.serialize(),
            create_date: entry.created_at.to_text(),
        }
    }

    /// The entry that the row stores; a row whose creation text is not a
    /// canonical instant fails as a query failure that carries the text.
    pub fn to_entry(&self) -> (r: Result<LogEntry, LogError>)
        ensures
            r matches Ok(e) ==> e.text@ == self.text@ && e.tags@ == parse_tags(self.tags@)
                && Some(e.created_at) == read_timestamp(self.create_date@),
            r is Err <==> read_timestamp(self.create_date@) is None,
            r matches Err(err) ==> err == LogError::QueryFailed(self.create_date),
            forall|t: LocalDateTime| #[trigger] t.text() == self.create_date@ && t.wf() ==> (r matches Ok(
                e,
            ) && e.created_at == t),
    {
        match LocalDateTime::parse(self.create_date.as_str()) {
            Some(created_at) => Ok(
                LogEntry {
                    text: self.text.clone(),
                    tags: TagSet::parse(self.tags.as_str()),
                    created_at,
                },
            ),
            None => Err(LogError::QueryFailed(self.create_date.clone())),
        }
    }

    /// A copy of the row.
    pub fn copy(&self) -> (r: LogRow)
        ensures
            r.texts() == self.texts(),
    {
        LogRow {
            text: self.text.clone(),
            tags: self.tags.clone(),
            create_date: self.create_date.clone(),
        }
    }
}

impl Query {
    /// The filter's view.
    pub open spec fn tag_text(&self) -> Option<Seq<char>> {
        match self.tags {
            Some(t) => Some(t@),
            None => None,
        }
    }

    /// The query for a tag filter and a range; an absent or empty filter
    /// matches every row, and an absent bound widens to the earliest or the
    /// latest instant that has the canonical text form.
    pub fn new(tags: Option<TagSet>, start: Option<LocalDateTime>, end: Option<LocalDateTime>) -> (r:
        Query)
        requires
            start matches Some(s) ==> s.wf(),
            end matches Some(e) ==> e.wf(),
        ensures
            r.tag_text() == tag_filter(
                match tags {
                    Some(t) => Some(t@),
                    None => None,
                },
            ),
            r.start@ == (match start {
                Some(s) => s,
                None => earliest_instant(),
            }).text(),
            r.end@ == (match end {
                Some(e) => e,
                None => latest_instant(),
            }).text(),
    {
        let filter = match tags {
            Some(t) => if t.is_empty() {
                None
            } else {
                Some(t.serialize())
            },
            None => None,
        };
        let start = match start {
            Some(s) => s,
            None => LocalDateTime::earliest(),
        };
        let end = match end {
            Some(e) => e,
            None => LocalDateTime::latest(),
        };
        Query { tags: filter, start: start.to_text(), end: end.to_text() }
    }

    /// Whether the query selects `row`.
    pub fn matches(&self, row: &LogRow) -> (r: bool)
        ensures
            r == selects(self.tag_text(), self.start@, self.end@, row.texts()),
    {
        let tag_ok = match &self.tags {
            Some(t) => *t == row.tags,
            None => true,
        };
        tag_ok && text_not_after(self.start.as_str(), row.create_date.as_str())
            && text_not_after(row.create_date.as_str(), self.end.as_str())
    }

    /// The rows among `rows` that the query selects, in order: the answer
    /// of a store that holds exactly `rows`.
    pub fn select(&self, rows: &Vec<LogRow>) -> (r: Vec<LogRow>)
        ensures
            r@.map_values(|x: LogRow| x.texts()) == selected(
                self.tag_text(),
                self.start@,
                self.end@,
                rows@.map_values(|x: LogRow| x.texts()),
            ),
    {
        let mut out: Vec<LogRow> = Vec::new();
        let mut i: usize = 0;
        let ghost all = rows@.map_values(|x: LogRow| x.texts());
        assert(all.take(0) =~= Seq::<(Seq<char>, Seq<char>, Seq<char>)>::empty());
        assert(out@.map_values(|x: LogRow| x.texts()) =~= Seq::<
            (Seq<char>, Seq<char>, Seq<char>),
        >::empty());
        while i < rows.len()
            invariant
                i <= rows@.len(),
                all == rows@.map_values(|x: LogRow| x.texts()),
                out@.map_values(|x: LogRow| x.texts()) == selected(
                    self.tag_text(),
                    self.start@,
                    self.end@,
                    all.take(i as int),
                ),
            decreases rows@.len() - i,
        {
            assert(all.take(i + 1).drop_last() =~= all.take(i as int));
            assert(all.take(i + 1).last() == rows@[i as int].texts());
            if self.matches(&rows[i]) {
                let row = rows[i].copy();
                out.push(row);
                assert(out@.map_values(|x: LogRow| x.texts()) =~= selected(
                    self.tag_text(),
                    self.start@,
                    self.end@,
                    all.take(i as int),
                ).push(rows@[i as int].texts()));
            }
            i = i + 1;
        }
        assert(all.take(rows@.len() as int) =~= all);
        out
    }
}

/// The row written for an entry lies in the answer of the query without tag
/// filter and without bounds, whatever else the store holds; and the entry
/// read back from it has the entry's text, tags and instant.
pub proof fn law_created_entry_is_found(
    rows: Seq<(Seq<char>, Seq<char>, Seq<char>)>,
    text: Seq<char>,
    tags: Seq<Seq<char>>,
    created_at: LocalDateTime,
)
    requires
        created_at.wf(),
        all_plain(tags),
    ensures
        ({
            let row = row_of(text, tags, created_at);
            let answer = selected(
                tag_filter(None),
                earliest_instant().text(),
                latest_instant().text(),
                rows.push(row),
            );
            &&& answer.len() > 0
            &&& answer.last() == row
            &&& row.0 == text
            &&& parse_tags(row.1) == tags
            &&& read_timestamp(row.2) == Some(created_at)
        }),
{
    crate::timestamp::lemma_read_canonical(created_at);
    crate::range::lemma_within_sentinels(created_at);
    lemma_text_order(earliest_instant(), created_at);
    lemma_text_order(created_at, latest_instant());
    assert(rows.push(row_of(text, tags, created_at)).drop_last() =~= rows);
    lemma_parse_join(tags);
}

/// An entry created at an instant is not in the answer of a query whose range
/// runs from one day to two days after that instant.
pub proof fn law_later_range_excludes_entry(
    text: Seq<char>,
    tags: Seq<Seq<char>>,
    created_at: LocalDateTime,
    filter: Option<Seq<char>>,
)
    requires
        created_at.wf(),
        storable_year(
            date_after(created_at.year as int, created_at.month as int, created_at.day as int, 2).0,
        ),
    ensures
        ({
            let d = created_at.date();
            let one = created_at.on_date(date_after(d.0, d.1, d.2, 1));
            let two = created_at.on_date(date_after(d.0, d.1, d.2, 2));
            !selects(filter, one.text(), two.text(), row_of(text, tags, created_at))
        }),
{
    let d = created_at.date();
    lemma_shifted_dates_valid(d.0, d.1, d.2, 1);
    crate::timestamp::lemma_neighbour_dates_valid(d.0, d.1, d.2);
    let n = crate::timestamp::next_date(d.0, d.1, d.2);
    assert(date_after(d.0, d.1, d.2, 1) == date_after(n.0, n.1, n.2, 0));
    assert(date_after(d.0, d.1, d.2, 2) == date_after(n.0, n.1, n.2, 1));
    lemma_shifted_dates_valid(n.0, n.1, n.2, 1);
    let one = created_at.on_date(n);
    let m = crate::timestamp::next_date(n.0, n.1, n.2);
    assert(date_after(n.0, n.1, n.2, 1) == date_after(m.0, m.1, m.2, 0));
    assert(storable_year(n.0));
    lemma_text_order(one, created_at);
}

/// The entries that the rows store, in order; the first row whose creation
/// text is not a canonical instant fails the whole answer.
pub fn entries_from_rows(rows: &Vec<LogRow>) -> (r: Result<Vec<LogEntry>, LogError>)
    ensures
        r is Ok <==> forall|i: int| 0 <= i < rows@.len() ==> read_timestamp(
            #[trigger] rows@[i].create_date@,
        ) is Some,
        r matches Ok(es) ==> es@.len() == rows@.len() && forall|i: int|
            0 <= i < rows@.len() ==> {
                &&& (#[trigger] es@[i]).text@ == rows@[i].text@
                &&& es@[i].tags@ == parse_tags(rows@[i].tags@)
                &&& Some(es@[i].created_at) == read_timestamp(rows@[i].create_date@)
            },
        r matches Err(err) ==> exists|i: int|
            0 <= i < rows@.len() && read_timestamp(#[trigger] rows@[i].create_date@) is None
                && (forall|k: int| 0 <= k < i ==> read_timestamp(#[trigger] rows@[k].create_date@) is Some)
                && err == LogError::QueryFailed(rows@[i].create_date),
{
    let mut out: Vec<LogEntry> = Vec::new();
    let mut i: usize = 0;
    while i < rows.len()
        invariant
            i <= rows@.len(),
            out@.len() == i,
            forall|k: int| 0 <= k < i ==> read_timestamp(#[trigger] rows@[k].create_date@) is Some,
            forall|k: int|
                0 <= k < i ==> {
                    &&& (#[trigger] out@[k]).text@ == rows@[k].text@
                    &&& out@[k].tags@ == parse_tags(rows@[k].tags@)
                    &&& Some(out@[k].created_at) == read_timestamp(rows@[k].create_date@)
                },
        decreases rows@.len() - i,
    {
        match rows[i].to_entry() {
            Ok(e) => {
                out.push(e);
            },
            Err(err) => {
                assert(read_timestamp(rows@[i as int].create_date@) is None);
                return Err(err);
            },
        }
        i = i + 1;
    }
    Ok(out)
}

impl LogEntry {
    /// A new entry created at `now`, with the tags that `tags` lists, or none.
    pub fn create(text: String, tags: &Option<String>, now: LocalDateTime) -> (r: LogEntry)
        ensures
            r.text@ == text@,
            r.tags@ == (match tags {
                Some(t) => parse_tags(t@),
                None => Seq::<Seq<char>>::empty(),
            }),
            r.created_at == now,
    {
        let tags = match tags {
            Some(t) => TagSet::parse(t.as_str()),
            None => TagSet::empty(),
        };
        LogEntry { text, tags, created_at: now }
    }
}

/// The query that a show or export command asks for, planned before the store
/// is touched: the tag filter, and the range from a preset or from explicit
/// bounds at the instant `now`. A conflict or an unreadable bound yields no
/// query at all.
pub fn plan_query(
    tags: &Option<String>,
    start_date: &Option<String>,
    end_date: &Option<String>,
    date_range: Option<DatePreset>,
    now: &LocalDateTime,
) -> (r: Result<Query, LogError>)
    requires
        now.wf(),
    ensures
        r is Err <==> resolved_range(date_range, opt_text(*start_date), opt_text(*end_date), *now) is Err,
        r matches Err(e) ==> Err::<(Option<LocalDateTime>, Option<LocalDateTime>), LogError>(e)
            == resolved_range(date_range, opt_text(*start_date), opt_text(*end_date), *now),
        date_range is Some && (start_date is Some || end_date is Some) ==> r == Err::<Query, LogError>(
            LogError::ConfigConflict,
        ),
        r matches Ok(q) ==> {
            &&& q.tag_text() == tag_filter(
                match tags {
                    Some(t) => Some(parse_tags(t@)),
                    None => None,
                },
            )
            &&& resolved_range(date_range, opt_text(*start_date), opt_text(*end_date), *now) matches Ok(
                (s, e),
            )
            &&& q.start@ == (match s {
                Some(s) => s,
                None => earliest_instant(),
            }).text()
            &&& q.end@ == (match e {
                Some(e) => e,
                None => latest_instant(),
            }).text()
        },
{
    let (start, end) = match resolve_range(date_range, start_date, end_date, now) {
        Ok(range) => range,
        Err(e) => {
            return Err(e);
        },
    };
    proof {
        if date_range is Some {
            crate::range::lemma_preset_bounds_ordered(date_range->0, *now);
        }
    }
    let filter = match tags {
        Some(t) => Some(TagSet::parse(t.as_str())),
        None => None,
    };
    Ok(Query::new(filter, start, end))
}

} // verus!
