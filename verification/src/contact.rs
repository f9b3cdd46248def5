//! Contacts as a vCard stream states them.
//!
//! A contact is the list of its property lines, in the order of the card.
//! Reading the stream is the work of the crate `ical`; looking a property up
//! is done here.

use vstd::prelude::*;
use vstd::string::*;

verus! {

/// One property line of a card: its name and, where the line has one, its
/// value.
#[derive(Clone, Debug, PartialEq, Eq)]
pub struct Property {
    pub name: String,
    pub value: Option<String>,
}

/// A property as a mathematical value.
pub struct PropertyView {
    pub name: Seq<char>,
    pub value: Option<Seq<char>>,
}

impl View for Property {
    type V = PropertyView;

    open spec fn view(&self) -> PropertyView {
        PropertyView { name: self.name@, value: self.value.deep_view() }
    }
}

impl DeepView for Property {
    type V = PropertyView;

    open spec fn deep_view(&self) -> PropertyView {
        self@
    }
}

/// A contact: the properties of one card.
#[derive(Clone, Debug, PartialEq, Eq)]
pub struct Contact {
    pub properties: Vec<Property>,
}

impl View for Contact {
    type V = Seq<PropertyView>;

    open spec fn view(&self) -> Seq<PropertyView> {
        self.properties.deep_view()
    }
}

/// What the stream gives for one card: the contact, or the reason why the
/// card could not be read.
pub open spec fn card_view(card: Result<Contact, String>) -> Result<Seq<PropertyView>, Seq<char>> {
    match card {
        Ok(contact) => Ok(contact@),
        Err(reason) => Err(reason@),
    }
}

pub open spec fn cards_view(cards: Seq<Result<Contact, String>>) -> Seq<
    Result<Seq<PropertyView>, Seq<char>>,
> {
    cards.map_values(|card: Result<Contact, String>| card_view(card))
}

/// The place of the first property with the given name, or the number of
/// properties if there is none.
pub open spec fn first_named(props: Seq<PropertyView>, name: Seq<char>) -> int
    decreases props.len(),
{
    if props.len() == 0 || props[0].name == name {
        0
    } else {
        1 + first_named(props.drop_first(), name)
    }
}

/// The value of the first property with the given name. A contact without
/// such a property has none, and so has one whose first such property is
/// without a value.
pub open spec fn prop_value(props: Seq<PropertyView>, name: Seq<char>) -> Option<Seq<char>> {
    let i = first_named(props, name);
    if i < props.len() {
        props[i].value
    } else {
        None
    }
}

/// The properties after the value of the first one with the given name has
/// been taken out.
pub open spec fn without_value(props: Seq<PropertyView>, name: Seq<char>) -> Seq<PropertyView> {
    let i = first_named(props, name);
    if i < props.len() {
        props.update(i, PropertyView { name: props[i].name, value: None })
    } else {
        props
    }
}

/// `first_named` is the least place that holds the name.
pub proof fn lemma_first_named(props: Seq<PropertyView>, name: Seq<char>)
    ensures
        0 <= first_named(props, name) <= props.len(),
        forall|j: int| 0 <= j < first_named(props, name) ==> (#[trigger] props[j]).name != name,
        first_named(props, name) < props.len() ==> props[first_named(props, name)].name == name,
    decreases props.len(),
{
    if props.len() > 0 && props[0].name != name {
        let rest = props.drop_first();
        lemma_first_named(rest, name);
        assert forall|j: int| 0 <= j < first_named(props, name) implies (#[trigger] props[j]).name
            != name by {
            if j > 0 {
                assert(props[j] == rest[j - 1]);
            }
        }
    }
}

/// A place before which the name does not occur, and which holds it or is
/// the end, is the place of the first property with that name.
proof fn lemma_first_named_is(props: Seq<PropertyView>, name: Seq<char>, i: int)
    requires
        0 <= i <= props.len(),
        forall|j: int| 0 <= j < i ==> (#[trigger] props[j]).name != name,
        i < props.len() ==> props[i].name == name,
    ensures
        first_named(props, name) == i,
{
    lemma_first_named(props, name);
}

/// Taking the value of one property leaves those of other names as they were.
pub proof fn lemma_other_values_stay(props: Seq<PropertyView>, taken: Seq<char>, name: Seq<char>)
    requires
        taken != name,
    ensures
        prop_value(without_value(props, taken), name) == prop_value(props, name),
{
    let after = without_value(props, taken);
    lemma_first_named(props, taken);
    lemma_first_named(props, name);
    let i = first_named(props, name);
    assert forall|j: int| 0 <= j < props.len() implies (#[trigger] after[j]).name
        == props[j].name by {}
    lemma_first_named_is(after, name, i);
}

/// Takes the value of the first property with the given name out of the
/// contact.
pub fn contact_prop(contact: &mut Contact, prop: &str) -> (value: Option<String>)
    ensures
        value.deep_view() == prop_value(old(contact)@, prop@),
        final(contact)@ == without_value(old(contact)@, prop@),
{
    let wanted = prop.to_owned();
    let ghost props = contact@;
    let mut i: usize = 0;
    while i < contact.properties.len()
        invariant
            i <= contact.properties.len(),
            contact@ == props,
            props == old(contact)@,
            wanted@ == prop@,
            forall|j: int| 0 <= j < i ==> (#[trigger] props[j]).name != prop@,
        decreases contact.properties.len() - i,
    {
        assert(props[i as int] == contact.properties@[i as int]@);
        if contact.properties[i].name == wanted {
            proof {
                lemma_first_named_is(props, prop@, i as int);
            }
            let value = contact.properties[i].value.take();
            assert(contact@ =~= without_value(props, prop@));
            return value;
        }
        i += 1;
    }
    proof {
        lemma_first_named_is(props, prop@, i as int);
    }
    None
}

/// What the vCard parser of the crate `ical` yields for a byte stream, item
/// by item until it yields no more: for each card its properties in order,
/// or the parser's words for why the card could not be read.
pub uninterp spec fn vcards_in(bytes: Seq<u8>) -> Seq<Result<Seq<PropertyView>, Seq<char>>>;

/// Runs `ical::VcardParser` over the bytes and collects what it yields. Of
/// each property the name and the value are kept as they are; an error is
/// kept as the text that it displays. The parser reads nothing but the
/// bytes, so the same bytes give the same items; what they are is not
/// stated here, but for this: where there are no bytes the parser finds no
/// line and yields nothing.
#[verifier::external_body]
pub(crate) fn read_vcards(bytes: &[u8]) -> (cards: Vec<Result<Contact, String>>)
    ensures
        cards_view(cards@) == vcards_in(bytes@),
        bytes@.len() == 0 ==> cards@.len() == 0,
{
    ical::VcardParser::new(bytes)
        .map(|item| match item {
            Ok(card) => Ok(Contact {
                properties: card.properties
                    .into_iter()
                    .map(|p| Property { name: p.name, value: p.value })
                    .collect(),
            }),
            Err(err) => Err(err.to_string()),
        })
        .collect()
}

} // verus!
