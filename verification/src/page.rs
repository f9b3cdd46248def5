//! The page: one table row for each entry of the calendar.
//!
//! What a row holds is decided here; writing the markup is left to the
//! caller.

use vstd::prelude::*;
use vstd::string::*;

use crate::birthday::{date_text, Birthday};
use crate::decimal::lemma_decimal_is_digits;
use crate::calendar::{
    ascending, date_before, entry_before, lemma_ascending_is_unique, Calendar, Entry, EntryView,
};
use vstd::utf8::*;

use crate::escape::{
    encoded_name, encoded_name_round_trips, is_encoded_text, percent_decoded, percent_encode,
};

verus! {

/// The cell that names a contact: plain text, or a link.
#[derive(Clone, Debug, PartialEq, Eq)]
pub enum NameCell {
    Text { name: String },
    Link { href: String, target: String, name: String },
}

/// A name cell as a mathematical value.
pub enum NameCellView {
    Text { name: Seq<char> },
    Link { href: Seq<char>, target: Seq<char>, name: Seq<char> },
}

impl View for NameCell {
    type V = NameCellView;

    open spec fn view(&self) -> NameCellView {
        match *self {
            NameCell::Text { name } => NameCellView::Text { name: name@ },
            NameCell::Link { href, target, name } => NameCellView::Link {
                href: href@,
                target: target@,
                name: name@,
            },
        }
    }
}

/// A row of the table: the date cell and the name cell.
#[derive(Clone, Debug, PartialEq, Eq)]
pub struct Row {
    pub date: String,
    pub cell: NameCell,
}

/// A row as a mathematical value.
pub struct RowView {
    pub date: Seq<char>,
    pub cell: NameCellView,
}

impl View for Row {
    type V = RowView;

    open spec fn view(&self) -> RowView {
        RowView { date: self.date@, cell: self.cell@ }
    }
}

impl DeepView for Row {
    type V = RowView;

    open spec fn deep_view(&self) -> RowView {
        self@
    }
}

/// Where a link opens: in a new window.
pub open spec fn link_target() -> Seq<char> {
    "_blank"@
}

/// The date cell of a contact without a birthday.
pub open spec fn no_date() -> Seq<char> {
    seq!['?']
}

/// How a name is shown: as a link to the contact's own address if it has
/// one; else as a link to the search address followed by the encoded name,
/// if a search address is set; else as plain text.
pub open spec fn name_cell_of(
    name: Seq<char>,
    url: Option<Seq<char>>,
    search: Option<Seq<char>>,
) -> NameCellView {
    match url {
        Some(href) => NameCellView::Link { href, target: link_target(), name },
        None => match search {
            Some(prefix) => NameCellView::Link {
                href: prefix + encoded_name(name),
                target: link_target(),
                name,
            },
            None => NameCellView::Text { name },
        },
    }
}

/// The row of an entry.
pub open spec fn row_of(entry: EntryView, search: Option<Seq<char>>) -> RowView {
    RowView {
        date: match entry.birthday {
            Some(birthday) => date_text(birthday),
            None => no_date(),
        },
        cell: name_cell_of(entry.name, entry.url, search),
    }
}

/// The rows of a calendar: one for each entry, in the calendar's order.
pub open spec fn rows_of(entries: Seq<EntryView>, search: Option<Seq<char>>) -> Seq<RowView> {
    entries.map_values(|entry: EntryView| row_of(entry, search))
}

/// Decides how a name is shown.
pub fn name_cell(name: String, url: Option<String>, srch: &Option<String>) -> (cell: NameCell)
    ensures
        cell@ == name_cell_of(name@, url.deep_view(), srch.deep_view()),
{
    match url {
        Some(href) => NameCell::Link { href, target: "_blank".to_owned(), name },
        None => match srch {
            Some(prefix) => {
                let mut href = prefix.clone();
                let suffix = percent_encode(name.as_str());
                href.append(suffix.as_str());
                NameCell::Link { href, target: "_blank".to_owned(), name }
            },
            None => NameCell::Text { name },
        },
    }
}

/// The row of one entry.
pub fn row(entry: &Entry, srch: &Option<String>) -> (r: Row)
    ensures
        r@ == row_of(entry@, srch.deep_view()),
{
    let date = match &entry.birthday {
        Some(birthday) => birthday.date_cell(),
        None => {
            proof {
                reveal_strlit("?");
            }
            let mark = "?".to_owned();
            assert(mark@ =~= no_date());
            mark
        },
    };
    let url = match &entry.url {
        Some(href) => Some(href.clone()),
        None => None,
    };
    Row { date, cell: name_cell(entry.name.clone(), url, srch) }
}

/// The rows of a calendar, in its order.
pub fn rows(calendar: &Calendar, srch: &Option<String>) -> (table: Vec<Row>)
    ensures
        table.deep_view() == rows_of(calendar@, srch.deep_view()),
{
    let entries = calendar.entries();
    let mut table: Vec<Row> = Vec::new();
    let mut i: usize = 0;
    while i < entries.len()
        invariant
            i <= entries.len(),
            entries.deep_view() == calendar@,
            table@.len() == i,
            table.deep_view() == rows_of(calendar@, srch.deep_view()).take(i as int),
        decreases entries.len() - i,
    {
        assert(calendar@[i as int] == entries@[i as int]@);
        let next = row(&entries[i], srch);
        let ghost before = table;
        table.push(next);
        assert forall|k: int| 0 <= k <= i implies table.deep_view()[k] == rows_of(
            calendar@,
            srch.deep_view(),
        )[k] by {
            if k < i {
                assert(table@[k] == before@[k]);
                assert(before.deep_view()[k] == rows_of(calendar@, srch.deep_view()).take(
                    i as int,
                )[k]);
            }
        }
        assert(table.deep_view() =~= rows_of(calendar@, srch.deep_view()).take(i + 1));
        i += 1;
    }
    assert(table.deep_view() =~= rows_of(calendar@, srch.deep_view()));
    table
}

/// The rows come out in ascending order of month, day, year and name: of
/// any two rows of a calendar, the earlier one is the row of the entry that
/// comes before the other's.
pub proof fn rows_are_in_order(entries: Seq<EntryView>, search: Option<Seq<char>>, i: int, j: int)
    requires
        ascending(entries),
        0 <= i < j < entries.len(),
    ensures
        rows_of(entries, search).len() == entries.len(),
        rows_of(entries, search)[i] == row_of(entries[i], search),
        rows_of(entries, search)[j] == row_of(entries[j], search),
        entry_before(entries[i], entries[j]),
{
}

/// The rows depend on what the calendar holds, not on how it came to hold
/// it: calendars with the same entries show the same rows in the same
/// order.
pub proof fn same_entries_same_rows(
    a: Seq<EntryView>,
    b: Seq<EntryView>,
    search: Option<Seq<char>>,
)
    requires
        ascending(a),
        ascending(b),
        forall|x: EntryView| a.contains(x) <==> b.contains(x),
    ensures
        rows_of(a, search) == rows_of(b, search),
{
    lemma_ascending_is_unique(a, b);
}

/// On one day of the year, an unknown year comes before every known year,
/// and a date comes before no date.
pub proof fn unknown_year_comes_first(month: u8, day: u8, year: u16)
    ensures
        date_before(
            Some(Birthday::Partial { month, day }),
            Some(Birthday::Full { year, month, day }),
        ),
        date_before(Some(Birthday::Partial { month, day }), None),
        date_before(Some(Birthday::Full { year, month, day }), None),
{
}

/// A row shows `?` for its date exactly when its entry has no birthday.
pub proof fn question_mark_means_no_birthday(entry: EntryView, search: Option<Seq<char>>)
    ensures
        row_of(entry, search).date == no_date() <==> entry.birthday is None,
{
    match entry.birthday {
        Some(Birthday::Full { year, month, day }) => {
            lemma_decimal_is_digits(year as nat);
            lemma_decimal_is_digits(month as nat);
            lemma_decimal_is_digits(day as nat);
            assert(date_text(entry.birthday->0).len() >= 5);
        },
        Some(Birthday::Partial { month, day }) => {
            assert(date_text(entry.birthday->0).len() >= 5);
        },
        None => {},
    }
}

/// The link of a contact without an address of its own ends with the
/// encoded name, which holds only ASCII letters, digits and `%HH` triplets
/// and reads back as the name.
pub proof fn search_link_reads_back(name: Seq<char>, prefix: Seq<char>)
    ensures
        name_cell_of(name, None, Some(prefix)) == (NameCellView::Link {
            href: prefix + encoded_name(name),
            target: link_target(),
            name,
        }),
        (prefix + encoded_name(name)).skip(prefix.len() as int) == encoded_name(name),
        is_encoded_text(encoded_name(name)),
        decode_utf8(percent_decoded(encoded_name(name))) == name,
{
    encoded_name_round_trips(name);
    assert((prefix + encoded_name(name)).skip(prefix.len() as int) =~= encoded_name(name));
}

} // verus!
