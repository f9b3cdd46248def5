//! From the bytes of a vCard stream to the rows of the calendar, and from
//! the outcome of a request to its reply.

use vstd::prelude::*;
use vstd::string::*;

use crate::birthday::{birthday_of, parse_birthday};
use crate::calendar::{
    ascending, entry_before, lemma_with_entry_ascends, lemma_with_entry_holds, with_entry,
    Calendar, Entry, EntryView,
};
use crate::config::{failure_text, EnvError, EnvFailure};
use crate::contact::{
    cards_view, contact_prop, lemma_other_values_stay, prop_value, read_vcards, vcards_in,
    without_value, Contact, PropertyView,
};
use crate::page::{
    no_date, question_mark_means_no_birthday, row_of, rows, rows_of, Row, RowView,
};

verus! {

/// Why a request gets no calendar.
#[derive(Clone, Debug, PartialEq, Eq)]
pub enum Failure {
    /// A setting is missing, empty or not valid UTF-8.
    Config(EnvFailure),
    /// The cards could not be fetched; the text says where from and why.
    UpstreamTransport(String),
    /// A card could not be read; the text says why.
    UpstreamParse(String),
    /// A `BDAY` value has neither of the two forms; the text is the value.
    BadBirthday(String),
    /// The page could not be written.
    RenderFormat,
}

/// A failure as a mathematical value.
pub enum FailureView {
    Config { var: Seq<char>, err: EnvError },
    UpstreamTransport(Seq<char>),
    UpstreamParse(Seq<char>),
    BadBirthday(Seq<char>),
    RenderFormat,
}

impl View for Failure {
    type V = FailureView;

    open spec fn view(&self) -> FailureView {
        match *self {
            Failure::Config(failure) => FailureView::Config { var: failure.var@, err: failure.err },
            Failure::UpstreamTransport(reason) => FailureView::UpstreamTransport(reason@),
            Failure::UpstreamParse(reason) => FailureView::UpstreamParse(reason@),
            Failure::BadBirthday(value) => FailureView::BadBirthday(value@),
            Failure::RenderFormat => FailureView::RenderFormat,
        }
    }
}

/// The status of the reply to a failed request: 500 where the gateway is at
/// fault, 502 where the cards are.
pub open spec fn status_of(failure: FailureView) -> u16 {
    match failure {
        FailureView::Config { .. } => 500,
        FailureView::RenderFormat => 500,
        FailureView::UpstreamTransport(_) => 502,
        FailureView::UpstreamParse(_) => 502,
        FailureView::BadBirthday(_) => 502,
    }
}

/// What is said of a failure.
pub open spec fn message_of(failure: FailureView) -> Seq<char> {
    match failure {
        FailureView::Config { var, err } => failure_text(var, err),
        FailureView::UpstreamTransport(reason) => reason,
        FailureView::UpstreamParse(reason) => reason,
        FailureView::BadBirthday(value) => value + " is not like YYYYMMDD or --MMDD"@,
        FailureView::RenderFormat => "the page could not be written"@,
    }
}

impl Failure {
    /// The status of the reply.
    pub fn status(&self) -> (code: u16)
        ensures
            code == status_of(self@),
    {
        match self {
            Failure::Config(_) => 500,
            Failure::RenderFormat => 500,
            Failure::UpstreamTransport(_) => 502,
            Failure::UpstreamParse(_) => 502,
            Failure::BadBirthday(_) => 502,
        }
    }

    /// The failure in words, for the log. A `BDAY` value that could not be
    /// read stands at the head of them.
    pub fn message(&self) -> (text: String)
        ensures
            text@ == message_of(self@),
    {
        match self {
            Failure::Config(failure) => failure.message(),
            Failure::UpstreamTransport(reason) => reason.clone(),
            Failure::UpstreamParse(reason) => reason.clone(),
            Failure::BadBirthday(value) => {
                let mut text = value.clone();
                text.append(" is not like YYYYMMDD or --MMDD");
                text
            },
            Failure::RenderFormat => "the page could not be written".to_owned(),
        }
    }
}

/// What a contact gives to the calendar.
pub enum Extract {
    /// Nothing: the contact has no name.
    Skip,
    /// An entry.
    Entry(EntryView),
    /// A failure: the contact's `BDAY` value cannot be read.
    Bad(Seq<char>),
}

/// What a contact gives to the calendar. A contact without `FN`, or with an
/// empty one, gives nothing. One without `BDAY` gives an entry without a
/// date. Else the `BDAY` value decides: an entry with the date that it
/// states, or a failure.
pub open spec fn extract_of(props: Seq<PropertyView>) -> Extract {
    match prop_value(props, "FN"@) {
        None => Extract::Skip,
        Some(name) => if name.len() == 0 {
            Extract::Skip
        } else {
            match prop_value(props, "BDAY"@) {
                None => Extract::Entry(
                    EntryView { birthday: None, name, url: prop_value(props, "URL"@) },
                ),
                Some(value) => match birthday_of(value) {
                    None => Extract::Bad(value),
                    Some(birthday) => Extract::Entry(
                        EntryView {
                            birthday: Some(birthday),
                            name,
                            url: prop_value(props, "URL"@),
                        },
                    ),
                },
            }
        },
    }
}

/// The entry of a contact, if it gives one.
pub fn extract(contact: &mut Contact) -> (r: Result<Option<Entry>, Failure>)
    ensures
        match extract_of(old(contact)@) {
            Extract::Skip => r matches Ok(None),
            Extract::Entry(entry) => r matches Ok(Some(e)) && e@ == entry,
            Extract::Bad(value) => r matches Err(failure) && failure@ == FailureView::BadBirthday(
                value,
            ),
        },
{
    proof {
        reveal_strlit("FN");
        reveal_strlit("BDAY");
        reveal_strlit("URL");
        assert("FN"@.len() == 2 && "BDAY"@.len() == 4 && "URL"@.len() == 3);
        lemma_other_values_stay(contact@, "FN"@, "BDAY"@);
        lemma_other_values_stay(contact@, "FN"@, "URL"@);
        lemma_other_values_stay(without_value(contact@, "FN"@), "BDAY"@, "URL"@);
    }
    let name = match contact_prop(contact, "FN") {
        None => {
            return Ok(None);
        },
        Some(name) => name,
    };
    if name.as_str().is_empty() {
        return Ok(None);
    }
    let birthday = match contact_prop(contact, "BDAY") {
        None => None,
        Some(value) => match parse_birthday(value.as_str()) {
            None => {
                return Err(Failure::BadBirthday(value));
            },
            Some(birthday) => Some(birthday),
        },
    };
    let url = contact_prop(contact, "URL");
    Ok(Some(Entry { birthday, name, url }))
}

/// The entries that a stream of cards gives, in the calendar's order, or
/// the first failure: of a card that could not be read, or of a `BDAY` value
/// that could not.
pub open spec fn gathered(cards: Seq<Result<Seq<PropertyView>, Seq<char>>>) -> Result<
    Seq<EntryView>,
    FailureView,
>
    decreases cards.len(),
{
    if cards.len() == 0 {
        Ok(Seq::empty())
    } else {
        match gathered(cards.drop_last()) {
            Err(failure) => Err(failure),
            Ok(entries) => match cards.last() {
                Err(reason) => Err(FailureView::UpstreamParse(reason)),
                Ok(props) => match extract_of(props) {
                    Extract::Skip => Ok(entries),
                    Extract::Entry(entry) => Ok(with_entry(entries, entry)),
                    Extract::Bad(value) => Err(FailureView::BadBirthday(value)),
                },
            },
        }
    }
}

/// Puts the entries of all cards into a calendar, and stops at the first
/// failure.
pub fn gather(cards: Vec<Result<Contact, String>>) -> (r: Result<Calendar, Failure>)
    ensures
        match gathered(cards_view(cards@)) {
            Ok(entries) => r matches Ok(calendar) && calendar.wf() && calendar@ == entries,
            Err(failure) => r matches Err(f) && f@ == failure,
        },
{
    let ghost all = cards_view(cards@);
    let mut calendar = Calendar::new();
    for card in it: cards.into_iter()
        invariant
            cards_view(it.seq()) == all,
            calendar.wf(),
            gathered(all.take(it.index() as int)) == Ok::<Seq<EntryView>, FailureView>(calendar@),
    {
        let ghost done = it.index() as int;
        assert(all.take(done + 1).drop_last() =~= all.take(done));
        assert(all.take(done + 1).last() == all[done]);
        match card {
            Err(reason) => {
                proof {
                    lemma_failure_stays(all, done + 1);
                }
                return Err(Failure::UpstreamParse(reason));
            },
            Ok(contact) => {
                let mut contact = contact;
                match extract(&mut contact) {
                    Err(failure) => {
                        proof {
                            lemma_failure_stays(all, done + 1);
                        }
                        return Err(failure);
                    },
                    Ok(None) => {},
                    Ok(Some(entry)) => {
                        calendar.insert(entry);
                    },
                }
            },
        }
    }
    assert(all.take(all.len() as int) =~= all);
    Ok(calendar)
}

/// A failure among the first cards is the failure of the whole stream.
pub proof fn lemma_failure_stays(cards: Seq<Result<Seq<PropertyView>, Seq<char>>>, n: int)
    requires
        0 <= n <= cards.len(),
        gathered(cards.take(n)) is Err,
    ensures
        gathered(cards) == gathered(cards.take(n)),
    decreases cards.len() - n,
{
    if n == cards.len() {
        assert(cards.take(n) =~= cards);
    } else {
        assert(cards.take(n + 1).drop_last() =~= cards.take(n));
        lemma_failure_stays(cards, n + 1);
    }
}

/// The entries that a stream of cards gives ascend: by month, day, year and
/// name, an unknown year before the known ones, no birthday last.
pub proof fn gathered_ascends(cards: Seq<Result<Seq<PropertyView>, Seq<char>>>)
    ensures
        gathered(cards) is Ok ==> ascending(gathered(cards)->Ok_0),
    decreases cards.len(),
{
    if cards.len() > 0 {
        gathered_ascends(cards.drop_last());
        if gathered(cards) is Ok && extract_of(cards.last()->Ok_0) is Entry {
            lemma_with_entry_ascends(
                gathered(cards.drop_last())->Ok_0,
                extract_of(cards.last()->Ok_0)->Entry_0,
            );
        }
    }
}

/// The rows of a stream of cards come out in ascending order: of any two
/// rows, the earlier one is the row of the entry that comes before the
/// other's.
pub proof fn rows_of_cards_are_in_order(
    cards: Seq<Result<Seq<PropertyView>, Seq<char>>>,
    search: Option<Seq<char>>,
    i: int,
    j: int,
)
    requires
        rows_from(cards, search) is Ok,
        0 <= i < j < rows_from(cards, search)->Ok_0.len(),
    ensures
        gathered(cards) is Ok,
        rows_from(cards, search)->Ok_0.len() == gathered(cards)->Ok_0.len(),
        rows_from(cards, search)->Ok_0[i] == row_of(gathered(cards)->Ok_0[i], search),
        rows_from(cards, search)->Ok_0[j] == row_of(gathered(cards)->Ok_0[j], search),
        entry_before(gathered(cards)->Ok_0[i], gathered(cards)->Ok_0[j]),
{
    gathered_ascends(cards);
}

/// A card is the source of an entry: it could be read, and the entry is
/// what its contact gives.
pub open spec fn gives(card: Result<Seq<PropertyView>, Seq<char>>, entry: EntryView) -> bool {
    card is Ok && extract_of(card->Ok_0) == Extract::Entry(entry)
}

/// Every entry of the calendar is what one of the cards gives.
pub proof fn entries_come_from_cards(
    cards: Seq<Result<Seq<PropertyView>, Seq<char>>>,
    entry: EntryView,
)
    requires
        gathered(cards) is Ok,
        gathered(cards)->Ok_0.contains(entry),
    ensures
        exists|k: int| 0 <= k < cards.len() && gives(#[trigger] cards[k], entry),
    decreases cards.len(),
{
    if cards.len() > 0 {
        let front = cards.drop_last();
        let before = gathered(front)->Ok_0;
        let last = cards.len() - 1;
        if cards.last() is Ok && extract_of(cards.last()->Ok_0) is Entry {
            lemma_with_entry_holds(before, extract_of(cards.last()->Ok_0)->Entry_0, entry);
        }
        if gives(cards[last], entry) {
        } else {
            entries_come_from_cards(front, entry);
            let k = choose|k: int| 0 <= k < front.len() && gives(#[trigger] front[k], entry);
            assert(gives(cards[k], entry));
        }
    }
}

/// A row that shows `?` for its date belongs to a contact that has a name
/// and no `BDAY`: its entry has no birthday, and one of the cards gives that
/// entry, with the entry's name for its `FN` and no value for `BDAY`.
pub proof fn undated_rows_have_no_bday(
    cards: Seq<Result<Seq<PropertyView>, Seq<char>>>,
    search: Option<Seq<char>>,
    i: int,
)
    requires
        rows_from(cards, search) is Ok,
        0 <= i < rows_from(cards, search)->Ok_0.len(),
        rows_from(cards, search)->Ok_0[i].date == no_date(),
    ensures
        gathered(cards) is Ok,
        rows_from(cards, search)->Ok_0[i] == row_of(gathered(cards)->Ok_0[i], search),
        gathered(cards)->Ok_0[i].birthday is None,
        exists|k: int|
            0 <= k < cards.len() && {
                &&& gives(#[trigger] cards[k], gathered(cards)->Ok_0[i])
                &&& prop_value(cards[k]->Ok_0, "FN"@) == Some(gathered(cards)->Ok_0[i].name)
                &&& gathered(cards)->Ok_0[i].name.len() > 0
                &&& prop_value(cards[k]->Ok_0, "BDAY"@) is None
            },
{
    let entries = gathered(cards)->Ok_0;
    let entry = entries[i];
    question_mark_means_no_birthday(entry, search);
    entries_come_from_cards(cards, entry);
    let k = choose|k: int| 0 <= k < cards.len() && gives(#[trigger] cards[k], entry);
    assert(gives(cards[k], entry));
}

/// The rows that the bytes of a vCard stream give, or the first failure.
pub open spec fn rows_from(
    cards: Seq<Result<Seq<PropertyView>, Seq<char>>>,
    search: Option<Seq<char>>,
) -> Result<Seq<RowView>, FailureView> {
    match gathered(cards) {
        Ok(entries) => Ok(rows_of(entries, search)),
        Err(failure) => Err(failure),
    }
}

/// The rows of the calendar of the given cards.
pub fn rows_of_cards(cards: Vec<Result<Contact, String>>, srch: &Option<String>) -> (r: Result<
    Vec<Row>,
    Failure,
>)
    ensures
        match rows_from(cards_view(cards@), srch.deep_view()) {
            Ok(table) => r matches Ok(t) && t.deep_view() == table,
            Err(failure) => r matches Err(f) && f@ == failure,
        },
{
    match gather(cards) {
        Ok(calendar) => Ok(rows(&calendar, srch)),
        Err(failure) => Err(failure),
    }
}

/// Reads the cards of a vCard stream and gives the rows of their calendar.
/// A stream without bytes gives no rows.
pub fn calendar_rows(bytes: &[u8], srch: &Option<String>) -> (r: Result<Vec<Row>, Failure>)
    ensures
        match rows_from(vcards_in(bytes@), srch.deep_view()) {
            Ok(table) => r matches Ok(t) && t.deep_view() == table,
            Err(failure) => r matches Err(f) && f@ == failure,
        },
        bytes@.len() == 0 ==> r is Ok && r->Ok_0@.len() == 0,
{
    let cards = read_vcards(bytes);
    proof {
        if bytes@.len() == 0 {
            assert(cards_view(cards@) =~= Seq::empty());
            assert(rows_of(Seq::<EntryView>::empty(), srch.deep_view()) =~= Seq::empty());
        }
    }
    rows_of_cards(cards, srch)
}

/// What is said of a failure of the upstream: `GET`, the address, a colon
/// and the reason.
pub open spec fn at_address(url: Seq<char>, reason: Seq<char>) -> Seq<char> {
    "GET "@ + url + ": "@ + reason
}

/// A failure as the upstream at the given address stands for it: the
/// reason why a card could not be read is led by the address.
pub open spec fn upstream_failure(url: Seq<char>, failure: FailureView) -> FailureView {
    match failure {
        FailureView::UpstreamParse(reason) => FailureView::UpstreamParse(at_address(url, reason)),
        other => other,
    }
}

fn with_address(url: &str, reason: &str) -> (text: String)
    ensures
        text@ == at_address(url@, reason@),
{
    let mut text = "GET ".to_owned();
    text.append(url);
    text.append(": ");
    text.append(reason);
    assert(text@ =~= at_address(url@, reason@));
    text
}

/// The rows that the outcome of the fetch gives. A fetch that failed is a
/// failure of the upstream, with the reason that the caller gives; bytes
/// that were fetched are read as a vCard stream. The reason of a failed
/// fetch, and of a card that could not be read, is led by the address.
pub fn upstream_rows(url: &str, fetched: Result<Vec<u8>, String>, srch: &Option<String>) -> (r:
    Result<Vec<Row>, Failure>)
    ensures
        match fetched {
            Err(reason) => r is Err && r->Err_0@ == FailureView::UpstreamTransport(
                at_address(url@, reason@),
            ),
            Ok(bytes) => match rows_from(vcards_in(bytes@), srch.deep_view()) {
                Ok(table) => r is Ok && r->Ok_0.deep_view() == table,
                Err(failure) => r is Err && r->Err_0@ == upstream_failure(url@, failure),
            },
        },
        fetched is Ok && fetched->Ok_0@.len() == 0 ==> r is Ok && r->Ok_0@.len() == 0,
{
    match fetched {
        Err(reason) => Err(Failure::UpstreamTransport(with_address(url, reason.as_str()))),
        Ok(bytes) => match calendar_rows(bytes.as_slice(), srch) {
            Ok(table) => Ok(table),
            Err(Failure::UpstreamParse(reason)) => Err(
                Failure::UpstreamParse(with_address(url, reason.as_str())),
            ),
            Err(failure) => Err(failure),
        },
    }
}

/// The outcome of writing the page: the markup, or the failure to write it.
pub fn written(markup: Option<String>) -> (r: Result<String, Failure>)
    ensures
        match markup {
            Some(page) => r is Ok && r->Ok_0@ == page@,
            None => r is Err && r->Err_0@ == FailureView::RenderFormat,
        },
{
    match markup {
        Some(page) => Ok(page),
        None => Err(Failure::RenderFormat),
    }
}

/// The reply to a request: a status, and a page or nothing.
#[derive(Clone, Debug, PartialEq, Eq)]
pub struct Reply {
    pub status: u16,
    pub body: Option<String>,
}

/// Replies to a request: 200 and the page where there is one, else the
/// status of the failure and no body.
pub fn reply(outcome: &Result<String, Failure>) -> (r: Reply)
    ensures
        match *outcome {
            Ok(page) => r.status == 200 && r.body.deep_view() == Some(page@),
            Err(failure) => r.status == status_of(failure@) && r.body is None,
        },
{
    match outcome {
        Ok(page) => Reply { status: 200, body: Some(page.clone()) },
        Err(failure) => Reply { status: failure.status(), body: None },
    }
}

} // verus!
