//! The calendar: the entries of all contacts, kept in the order in which
//! they are shown.
//!
//! Dated entries come first, ascending by month, day, year and name; an
//! unknown year comes before every known year of the same day. Contacts
//! without a birthday follow, ascending by name. An entry is identified by
//! its birthday and name: a second entry with both equal takes the place of
//! the first.

use vstd::prelude::*;
use vstd::string::*;
use vstd::utf8::*;

use crate::birthday::{day_of, month_of, Birthday};
use crate::order::{
    bytes_before, lemma_bytes_asymmetric, lemma_bytes_total, lemma_bytes_transitive, rank_bytes,
    Rank,
};

verus! {

/// One line of the calendar: a contact's name, its birthday if it has one,
/// and its link if it has one.
#[derive(Clone, Debug, PartialEq, Eq)]
pub struct Entry {
    pub birthday: Option<Birthday>,
    pub name: String,
    pub url: Option<String>,
}

/// An entry as a mathematical value.
pub struct EntryView {
    pub birthday: Option<Birthday>,
    pub name: Seq<char>,
    pub url: Option<Seq<char>>,
}

impl View for Entry {
    type V = EntryView;

    open spec fn view(&self) -> EntryView {
        EntryView { birthday: self.birthday, name: self.name@, url: self.url.deep_view() }
    }
}

impl DeepView for Entry {
    type V = EntryView;

    open spec fn deep_view(&self) -> EntryView {
        self@
    }
}

/// Where the year stands in the order: an unknown year before all others.
pub open spec fn year_rank(b: Birthday) -> int {
    match b {
        Birthday::Full { year, .. } => year as int,
        Birthday::Partial { .. } => -1,
    }
}

/// The order of dates: by month, then day, then year; no date comes last.
pub open spec fn date_before(a: Option<Birthday>, b: Option<Birthday>) -> bool {
    match (a, b) {
        (Some(x), Some(y)) => {
            ||| month_of(x) < month_of(y)
            ||| month_of(x) == month_of(y) && day_of(x) < day_of(y)
            ||| month_of(x) == month_of(y) && day_of(x) == day_of(y) && year_rank(x) < year_rank(y)
        },
        (Some(_), None) => true,
        _ => false,
    }
}

/// The order of entries: by date, then by name.
pub open spec fn entry_before(a: EntryView, b: EntryView) -> bool {
    ||| date_before(a.birthday, b.birthday)
    ||| a.birthday == b.birthday && bytes_before(encode_utf8(a.name), encode_utf8(b.name))
}

/// Two entries stand for the same contact and date.
pub open spec fn same_key(a: EntryView, b: EntryView) -> bool {
    a.birthday == b.birthday && a.name == b.name
}

/// Every entry comes before all that follow it.
pub open spec fn ascending(s: Seq<EntryView>) -> bool {
    forall|i: int, j: int| 0 <= i < j < s.len() ==> entry_before(#[trigger] s[i], #[trigger] s[j])
}

pub open spec fn comes_before(e: EntryView) -> spec_fn(EntryView) -> bool {
    |x: EntryView| entry_before(x, e)
}

pub open spec fn comes_after(e: EntryView) -> spec_fn(EntryView) -> bool {
    |x: EntryView| entry_before(e, x)
}

/// The entries of `s` with `e` put in: those before `e`, then `e`, then those
/// after it. An entry of `s` with the key of `e` is left out.
pub open spec fn with_entry(s: Seq<EntryView>, e: EntryView) -> Seq<EntryView> {
    s.filter(comes_before(e)) + seq![e] + s.filter(comes_after(e))
}

/// Of two entries exactly one holds: the first comes before the second, they
/// have the same key, or the second comes before the first.
pub proof fn lemma_entries_compare(a: EntryView, b: EntryView)
    ensures
        entry_before(a, b) || same_key(a, b) || entry_before(b, a),
        !(entry_before(a, b) && same_key(a, b)),
        !(entry_before(b, a) && same_key(a, b)),
        !(entry_before(a, b) && entry_before(b, a)),
{
    let x = encode_utf8(a.name);
    let y = encode_utf8(b.name);
    lemma_bytes_total(x, y);
    lemma_bytes_asymmetric(x, y);
    if x == y {
        encode_utf8_decode_utf8(a.name);
        encode_utf8_decode_utf8(b.name);
    }
}

/// The order of entries is transitive.
pub proof fn lemma_entries_transitive(a: EntryView, b: EntryView, c: EntryView)
    requires
        entry_before(a, b),
        entry_before(b, c),
    ensures
        entry_before(a, c),
{
    if a.birthday == b.birthday && b.birthday == c.birthday {
        lemma_bytes_transitive(encode_utf8(a.name), encode_utf8(b.name), encode_utf8(c.name));
    }
}

fn rank_numbers(a: i32, b: i32) -> (r: Rank)
    ensures
        r == Rank::Before <==> a < b,
        r == Rank::Same <==> a == b,
        r == Rank::After <==> a > b,
{
    if a < b {
        Rank::Before
    } else if a == b {
        Rank::Same
    } else {
        Rank::After
    }
}

fn year_rank_of(b: &Birthday) -> (r: i32)
    ensures
        r == year_rank(*b),
{
    match b.year() {
        Some(year) => year as i32,
        None => -1,
    }
}

fn rank_dates(a: &Option<Birthday>, b: &Option<Birthday>) -> (r: Rank)
    ensures
        r == Rank::Before <==> date_before(*a, *b),
        r == Rank::Same <==> *a == *b,
        r == Rank::After <==> date_before(*b, *a),
{
    match (a, b) {
        (Some(x), Some(y)) => {
            let by_month = rank_numbers(x.month() as i32, y.month() as i32);
            if by_month != Rank::Same {
                return by_month;
            }
            let by_day = rank_numbers(x.day() as i32, y.day() as i32);
            if by_day != Rank::Same {
                return by_day;
            }
            rank_numbers(year_rank_of(x), year_rank_of(y))
        },
        (Some(_), None) => Rank::Before,
        (None, Some(_)) => Rank::After,
        (None, None) => Rank::Same,
    }
}

/// Compares two entries by date and name.
pub fn rank_entries(a: &Entry, b: &Entry) -> (r: Rank)
    ensures
        r == Rank::Before <==> entry_before(a@, b@),
        r == Rank::Same <==> same_key(a@, b@),
        r == Rank::After <==> entry_before(b@, a@),
{
    proof {
        lemma_entries_compare(a@, b@);
    }
    let by_date = rank_dates(&a.birthday, &b.birthday);
    if by_date != Rank::Same {
        return by_date;
    }
    rank_bytes(a.name.as_str().as_bytes(), b.name.as_str().as_bytes())
}

/// Where a test holds of the first `i` items of a sequence and of no other,
/// the filter keeps those.
proof fn lemma_filter_keeps_prefix<A>(s: Seq<A>, p: spec_fn(A) -> bool, i: int)
    requires
        0 <= i <= s.len(),
        forall|j: int| 0 <= j < i ==> p(#[trigger] s[j]),
        forall|j: int| i <= j < s.len() ==> !p(#[trigger] s[j]),
    ensures
        s.filter(p) == s.take(i),
    decreases s.len(),
{
    reveal(Seq::filter);
    if s.len() > 0 {
        let front = s.drop_last();
        if i == s.len() {
            lemma_filter_keeps_prefix(front, p, i - 1);
            assert(front.take(i - 1) =~= front);
            assert(front.push(s.last()) =~= s.take(i));
        } else {
            lemma_filter_keeps_prefix(front, p, i);
            assert(front.take(i) =~= s.take(i));
        }
    } else {
        assert(s.filter(p) =~= s.take(i));
    }
}

/// Where a test holds of all items of a sequence from the `i`th on and of
/// no other, the filter keeps those.
proof fn lemma_filter_keeps_suffix<A>(s: Seq<A>, p: spec_fn(A) -> bool, i: int)
    requires
        0 <= i <= s.len(),
        forall|j: int| 0 <= j < i ==> !p(#[trigger] s[j]),
        forall|j: int| i <= j < s.len() ==> p(#[trigger] s[j]),
    ensures
        s.filter(p) == s.skip(i),
    decreases s.len(),
{
    reveal(Seq::filter);
    if s.len() > 0 {
        let front = s.drop_last();
        if i == s.len() {
            lemma_filter_keeps_suffix(front, p, i - 1);
            assert(front.skip(i - 1) =~= s.skip(i));
        } else {
            lemma_filter_keeps_suffix(front, p, i);
            assert(front.skip(i).push(s.last()) =~= s.skip(i));
        }
    } else {
        assert(s.filter(p) =~= s.skip(i));
    }
}

/// In an ascending sequence whose first `i` entries come before `e` and
/// whose `i`th does not, `e` goes to place `i`, and takes the place of the
/// `i`th entry if that has its key.
proof fn lemma_with_entry_at(s: Seq<EntryView>, e: EntryView, i: int)
    requires
        ascending(s),
        0 <= i <= s.len(),
        forall|j: int| 0 <= j < i ==> entry_before(#[trigger] s[j], e),
        i < s.len() ==> !entry_before(s[i], e),
    ensures
        with_entry(s, e) == if i < s.len() && same_key(s[i], e) {
            s.update(i, e)
        } else {
            s.insert(i, e)
        },
        ascending(with_entry(s, e)),
{
    let before = comes_before(e);
    let after = comes_after(e);
    let replaces = i < s.len() && same_key(s[i], e);
    let rest = if replaces {
        i + 1
    } else {
        i
    };
    assert forall|j: int| 0 <= j < i implies !after(#[trigger] s[j]) by {
        lemma_entries_compare(s[j], e);
    }
    assert forall|j: int| i <= j < s.len() implies !before(#[trigger] s[j]) by {
        lemma_entries_compare(s[i], e);
        lemma_entries_compare(s[j], e);
        if i < j && entry_before(s[j], e) {
            lemma_entries_transitive(s[i], s[j], e);
        }
    }
    assert forall|j: int| rest <= j < s.len() implies after(#[trigger] s[j]) by {
        lemma_entries_compare(s[i], e);
        if i < j {
            if entry_before(e, s[i]) {
                lemma_entries_transitive(e, s[i], s[j]);
            }
        }
    }
    if replaces {
        lemma_entries_compare(s[i], e);
    }
    lemma_filter_keeps_prefix(s, before, i);
    lemma_filter_keeps_suffix(s, after, rest);
    let t = with_entry(s, e);
    assert(t =~= s.take(i) + seq![e] + s.skip(rest));
    if replaces {
        assert(t =~= s.update(i, e));
    } else {
        assert(t =~= s.insert(i, e));
    }
    assert forall|j: int, k: int| 0 <= j < k < t.len() implies entry_before(
        #[trigger] t[j],
        #[trigger] t[k],
    ) by {
        let shift = rest - i - 1;
        if k < i {
            assert(t[j] == s[j] && t[k] == s[k]);
        } else if k == i {
            assert(t[j] == s[j]);
        } else if j < i {
            assert(t[j] == s[j] && t[k] == s[k + shift]);
        } else if j == i {
            assert(t[k] == s[k + shift]);
            assert(after(s[k + shift]));
        } else {
            assert(t[j] == s[j + shift] && t[k] == s[k + shift]);
        }
    }
}

/// The number of entries at the head of the sequence that come before `e`.
pub open spec fn place(s: Seq<EntryView>, e: EntryView) -> int
    decreases s.len(),
{
    if s.len() == 0 || !entry_before(s[0], e) {
        0
    } else {
        1 + place(s.drop_first(), e)
    }
}

/// `place` is where the entries that come before `e` end.
proof fn lemma_place(s: Seq<EntryView>, e: EntryView)
    ensures
        0 <= place(s, e) <= s.len(),
        forall|j: int| 0 <= j < place(s, e) ==> entry_before(#[trigger] s[j], e),
        place(s, e) < s.len() ==> !entry_before(s[place(s, e)], e),
    decreases s.len(),
{
    if s.len() > 0 && entry_before(s[0], e) {
        let rest = s.drop_first();
        lemma_place(rest, e);
        assert forall|j: int| 0 <= j < place(s, e) implies entry_before(#[trigger] s[j], e) by {
            if j > 0 {
                assert(s[j] == rest[j - 1]);
            }
        }
        if place(s, e) < s.len() {
            assert(s[place(s, e)] == rest[place(rest, e)]);
        }
    }
}

/// Putting an entry into an ascending sequence leaves it ascending.
pub proof fn lemma_with_entry_ascends(s: Seq<EntryView>, e: EntryView)
    requires
        ascending(s),
    ensures
        ascending(with_entry(s, e)),
{
    lemma_place(s, e);
    lemma_with_entry_at(s, e, place(s, e));
}

/// Putting an entry in brings in nothing else: what the result holds is
/// the new entry or was there before.
pub proof fn lemma_with_entry_holds(s: Seq<EntryView>, e: EntryView, x: EntryView)
    requires
        with_entry(s, e).contains(x),
    ensures
        x == e || s.contains(x),
{
    let front = s.filter(comes_before(e));
    let back = s.filter(comes_after(e));
    let t = with_entry(s, e);
    let k = choose|k: int| 0 <= k < t.len() && t[k] == x;
    if k < front.len() {
        assert(front[k] == x);
        s.lemma_filter_contains_rev(comes_before(e), x);
    } else if k > front.len() {
        assert(back[k - front.len() - 1] == x);
        s.lemma_filter_contains_rev(comes_after(e), x);
    }
}

/// What a sequence holds once an entry is put in: the new entry, and the
/// old ones of another key.
pub proof fn lemma_with_entry_members(s: Seq<EntryView>, e: EntryView, x: EntryView)
    ensures
        with_entry(s, e).contains(x) <==> (x == e || (s.contains(x) && !same_key(x, e))),
{
    let front = s.filter(comes_before(e));
    let back = s.filter(comes_after(e));
    let t = with_entry(s, e);
    lemma_entries_compare(x, e);
    if t.contains(x) {
        lemma_with_entry_holds(s, e, x);
        let k = choose|k: int| 0 <= k < t.len() && t[k] == x;
        if k < front.len() {
            assert(front[k] == x);
            s.lemma_filter_pred(comes_before(e), k);
        } else if k > front.len() {
            assert(back[k - front.len() - 1] == x);
            s.lemma_filter_pred(comes_after(e), k - front.len() - 1);
        }
    }
    if x == e {
        assert(t[front.len() as int] == e);
    } else if s.contains(x) && !same_key(x, e) {
        let i = choose|i: int| 0 <= i < s.len() && s[i] == x;
        if entry_before(x, e) {
            s.lemma_filter_contains(comes_before(e), i);
            let k = choose|k: int| 0 <= k < front.len() && front[k] == x;
            assert(t[k] == x);
        } else {
            s.lemma_filter_contains(comes_after(e), i);
            let k = choose|k: int| 0 <= k < back.len() && back[k] == x;
            assert(t[front.len() + 1 + k] == x);
        }
    }
}

/// The order is fixed by what is held: two ascending sequences that hold
/// the same entries are the same sequence.
pub proof fn lemma_ascending_is_unique(a: Seq<EntryView>, b: Seq<EntryView>)
    requires
        ascending(a),
        ascending(b),
        forall|x: EntryView| a.contains(x) <==> b.contains(x),
    ensures
        a == b,
    decreases a.len(),
{
    if a.len() == 0 {
        if b.len() > 0 {
            assert(b.contains(b[0]));
        }
        assert(a =~= b);
    } else if b.len() == 0 {
        assert(a.contains(a[0]));
    } else {
        assert(a.contains(a[0]));
        assert(b.contains(b[0]));
        let k = choose|k: int| 0 <= k < b.len() && b[k] == a[0];
        let m = choose|m: int| 0 <= m < a.len() && a[m] == b[0];
        lemma_entries_compare(a[0], b[0]);
        assert(a[0] == b[0]);
        let ta = a.drop_first();
        let tb = b.drop_first();
        assert forall|x: EntryView| ta.contains(x) <==> tb.contains(x) by {
            lemma_entries_compare(a[0], x);
            if ta.contains(x) {
                let i = choose|i: int| 0 <= i < ta.len() && ta[i] == x;
                assert(a[i + 1] == x);
                assert(b.contains(x));
                let j = choose|j: int| 0 <= j < b.len() && b[j] == x;
                assert(tb[j - 1] == x);
            }
            if tb.contains(x) {
                let i = choose|i: int| 0 <= i < tb.len() && tb[i] == x;
                assert(b[i + 1] == x);
                assert(a.contains(x));
                let j = choose|j: int| 0 <= j < a.len() && a[j] == x;
                assert(ta[j - 1] == x);
            }
        }
        assert(ascending(ta)) by {
            assert forall|i: int, j: int| 0 <= i < j < ta.len() implies entry_before(
                #[trigger] ta[i],
                #[trigger] ta[j],
            ) by {
                assert(entry_before(a[i + 1], a[j + 1]));
            }
        }
        assert(ascending(tb)) by {
            assert forall|i: int, j: int| 0 <= i < j < tb.len() implies entry_before(
                #[trigger] tb[i],
                #[trigger] tb[j],
            ) by {
                assert(entry_before(b[i + 1], b[j + 1]));
            }
        }
        lemma_ascending_is_unique(ta, tb);
        assert(a =~= seq![a[0]] + ta);
        assert(b =~= seq![b[0]] + tb);
    }
}

/// The entries of a calendar, in the order in which they are shown.
pub struct Calendar {
    entries: Vec<Entry>,
}

impl View for Calendar {
    type V = Seq<EntryView>;

    closed spec fn view(&self) -> Seq<EntryView> {
        self.entries.deep_view()
    }
}

impl Calendar {
    /// The entries ascend, so no key occurs twice.
    pub open spec fn wf(&self) -> bool {
        ascending(self@)
    }

    /// A calendar without entries.
    pub fn new() -> (c: Calendar)
        ensures
            c.wf(),
            c@ == Seq::<EntryView>::empty(),
    {
        let c = Calendar { entries: Vec::new() };
        assert(c@ =~= Seq::<EntryView>::empty());
        c
    }

    /// Puts an entry at its place in the order. An entry with the same
    /// birthday and name gives way to the new one.
    pub fn insert(&mut self, entry: Entry)
        requires
            old(self).wf(),
        ensures
            final(self).wf(),
            final(self)@ == with_entry(old(self)@, entry@),
    {
        let ghost s = self@;
        let ghost e = entry@;
        let mut i: usize = 0;
        let mut found = Rank::After;
        while i < self.entries.len()
            invariant
                i <= self.entries.len(),
                self@ == s,
                self.entries.deep_view() == s,
                entry@ == e,
                forall|j: int| 0 <= j < i ==> entry_before(#[trigger] s[j], e),
            ensures
                i <= self.entries.len(),
                self@ == s,
                self.entries.deep_view() == s,
                entry@ == e,
                forall|j: int| 0 <= j < i ==> entry_before(#[trigger] s[j], e),
                i < s.len() ==> !entry_before(s[i as int], e),
                i < s.len() ==> (found == Rank::Same <==> same_key(s[i as int], e)),
            decreases self.entries.len() - i,
        {
            assert(s[i as int] == self.entries@[i as int]@);
            found = rank_entries(&self.entries[i], &entry);
            if found != Rank::Before {
                proof {
                    lemma_entries_compare(s[i as int], e);
                }
                break ;
            }
            i += 1;
        }
        proof {
            lemma_with_entry_at(s, e, i as int);
        }
        if i < self.entries.len() && found == Rank::Same {
            self.entries[i] = entry;
            assert(self@ =~= s.update(i as int, e));
        } else {
            self.entries.insert(i, entry);
            assert(self@ =~= s.insert(i as int, e));
        }
    }

    /// The number of entries.
    pub fn len(&self) -> (n: usize)
        ensures
            n == self@.len(),
    {
        self.entries.len()
    }

    /// The entries in order.
    pub fn entries(&self) -> (v: &Vec<Entry>)
        ensures
            v.deep_view() == self@,
    {
        &self.entries
    }
}

} // verus!
