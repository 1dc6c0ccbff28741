//! The rule tables: which identifiers make a record an entity of a type, which properties are
//! taken from an entity of that type, and how each property is read.

use crate::text::str_eq;
use vstd::prelude::*;

verus! {

/// How the value of a property is read from its first statement.
#[derive(Clone, Copy, Debug, PartialEq, Eq, Structural)]
pub enum PropertyKind {
    /// A point in time, kept as a date string without its leading `+`.
    Date,
    /// A reference to another entity, kept as the identifier it names.
    Reference,
    /// The file name of an image, kept as a thumbnail address or as the image itself.
    Image,
    /// A text in some language, kept as the text alone.
    Text,
    /// An address or an external identifier, kept as it stands.
    Url,
    /// A value of any shape, kept as it stands.
    Payload,
    /// A property without a kind of its own: its first statement is kept as it stands.
    Passthrough,
}

/// One property to take, with the way to read it.
#[derive(Clone, Copy, Debug)]
pub struct Rule {
    pub code: &'static str,
    pub kind: PropertyKind,
}

/// The properties to take from an entity of one type, in the order in which they are read.
#[derive(Debug)]
pub struct TypeRules {
    pub entity_type: &'static str,
    pub rules: Vec<Rule>,
}

/// The identifiers whose instances are entities of one type.
#[derive(Debug)]
pub struct TypeMapping {
    pub entity_type: &'static str,
    pub instance_of: Vec<&'static str>,
}

impl View for Rule {
    type V = (Seq<char>, PropertyKind);

    open spec fn view(&self) -> (Seq<char>, PropertyKind) {
        (self.code@, self.kind)
    }
}

/// The contents of a list of rules.
pub open spec fn rule_views(rules: Seq<Rule>) -> Seq<(Seq<char>, PropertyKind)> {
    Seq::new(rules.len(), |i: int| rules[i]@)
}

/// The contents of a list of string constants.
pub open spec fn strs_view(strs: Seq<&'static str>) -> Seq<Seq<char>> {
    Seq::new(strs.len(), |i: int| strs[i]@)
}

impl View for TypeRules {
    type V = (Seq<char>, Seq<(Seq<char>, PropertyKind)>);

    open spec fn view(&self) -> (Seq<char>, Seq<(Seq<char>, PropertyKind)>) {
        (self.entity_type@, rule_views(self.rules@))
    }
}

impl View for TypeMapping {
    type V = (Seq<char>, Seq<Seq<char>>);

    open spec fn view(&self) -> (Seq<char>, Seq<Seq<char>>) {
        (self.entity_type@, strs_view(self.instance_of@))
    }
}

/// The way in which the property `code` is read. A code without a kind of its own is passed
/// through.
pub open spec fn kind_of_code(code: Seq<char>) -> PropertyKind {
    if code == "P569"@ || code == "P570"@ || code == "P571"@ {
        PropertyKind::Date
    } else if code == "P17"@ || code == "P112"@ || code == "P27"@ || code == "P106"@ || code
        == "P39"@ || code == "P1454"@ || code == "P749"@ || code == "P101"@ || code == "P452"@
        || code == "P276"@ || code == "P31"@ || code == "P585"@ || code == "P1552"@ || code
        == "P1889"@ || code == "P461"@ || code == "P460"@ || code == "P1382"@ {
        PropertyKind::Reference
    } else if code == "P18"@ || code == "P154"@ {
        PropertyKind::Image
    } else if code == "P1813"@ || code == "P1449"@ {
        PropertyKind::Text
    } else if code == "P856"@ || code == "P3220"@ {
        PropertyKind::Url
    } else if code == "P159"@ {
        PropertyKind::Payload
    } else {
        PropertyKind::Passthrough
    }
}

/// The way in which the property `code` is read.
pub fn kind_of(code: &str) -> (kind: PropertyKind)
    ensures
        kind == kind_of_code(code@),
{
    if str_eq(code, "P569") || str_eq(code, "P570") || str_eq(code, "P571") {
        PropertyKind::Date
    } else if str_eq(code, "P17") || str_eq(code, "P112") || str_eq(code, "P27") || str_eq(
        code,
        "P106",
    ) || str_eq(code, "P39") || str_eq(code, "P1454") || str_eq(code, "P749") || str_eq(
        code,
        "P101",
    ) || str_eq(code, "P452") || str_eq(code, "P276") || str_eq(code, "P31") || str_eq(
        code,
        "P585",
    ) || str_eq(code, "P1552") || str_eq(code, "P1889") || str_eq(code, "P461") || str_eq(
        code,
        "P460",
    ) || str_eq(code, "P1382") {
        PropertyKind::Reference
    } else if str_eq(code, "P18") || str_eq(code, "P154") {
        PropertyKind::Image
    } else if str_eq(code, "P1813") || str_eq(code, "P1449") {
        PropertyKind::Text
    } else if str_eq(code, "P856") || str_eq(code, "P3220") {
        PropertyKind::Url
    } else if str_eq(code, "P159") {
        PropertyKind::Payload
    } else {
        PropertyKind::Passthrough
    }
}

/// The rules for `codes`: each code with the way in which it is read.
pub open spec fn rules_of(codes: Seq<Seq<char>>) -> Seq<(Seq<char>, PropertyKind)> {
    Seq::new(codes.len(), |i: int| (codes[i], kind_of_code(codes[i])))
}

/// The rules for `codes`, in the same order.
pub fn rules_for_codes(codes: &Vec<&'static str>) -> (rules: Vec<Rule>)
    ensures
        rule_views(rules@) == rules_of(
            strs_view(codes@),
        ),
{
    let mut rules: Vec<Rule> = Vec::new();
    let mut i: usize = 0;
    while i < codes.len()
        invariant
            i <= codes.len(),
            rules@.len() == i,
            forall|j: int|
                0 <= j < i ==> (#[trigger] rules@[j])@ == (codes@[j]@, kind_of_code(codes@[j]@)),
        decreases codes.len() - i,
    {
        rules.push(Rule { code: codes[i], kind: kind_of(codes[i]) });
        i += 1;
    }
    assert(rule_views(rules@) =~= rules_of(
        strs_view(codes@),
    ));
    rules
}

/// The identifiers that make a record a person, an organization and so on.
pub open spec fn entity_type_mappings() -> Seq<(Seq<char>, Seq<Seq<char>>)> {
    seq![
        ("person"@, seq!["Q5"@]),
        ("organization"@, seq!["Q43229"@]),
        ("scientific_organization"@, seq!["Q16519632"@]),
        ("research_institute"@, seq!["Q31855"@]),
        ("government_agency"@, seq!["Q327333"@]),
        ("event"@, seq!["Q1656682"@]),
        (
            "mood"@,
            seq![
                "Q331769"@,  // mood
                "Q41537118"@,  // emotional state
                "Q3968640"@,  // mental state
                "Q16748867"@,  // basic emotion
                "Q9415"@,  // emotion
                "Q9332"@,  // behavior
                "Q60539479"@,  // positive emotion
                "Q60539481"@,  // negative emotion
            ],
        ),
    ]
}

/// The properties of an organization of any kind, in the order in which they are read.
pub open spec fn organization_codes() -> Seq<Seq<char>> {
    seq![
        "P31"@,  // instance of
        "P17"@,  // country
        "P112"@,  // founder
        "P571"@,  // inception
        "P1813"@,  // short name
        "P18"@,  // image
        "P154"@,  // logo
        "P159"@,  // headquarters location
        "P856"@,  // website
        "P749"@,  // parent organization
        "P1454"@,  // legal form
        "P3220"@,  // company register number
        "P452"@,  // industry
        "P101"@,  // field of work
    ]
}

/// The properties of a person, in the order in which they are read.
pub open spec fn person_codes() -> Seq<Seq<char>> {
    seq![
        "P569"@,  // date of birth
        "P570"@,  // date of death
        "P27"@,  // country of citizenship
        "P106"@,  // occupation
        "P18"@,  // image
        "P39"@,  // position held
        "P1449"@,  // nickname
        "P101"@,  // field of work
    ]
}

/// The properties of an event, in the order in which they are read.
pub open spec fn event_codes() -> Seq<Seq<char>> {
    seq![
        "P585"@,  // point in time
        "P17"@,  // country
        "P276"@,  // location
        "P31"@,  // instance of
        "P18"@,  // image
    ]
}

/// The properties of a mood, in the order in which they are read.
pub open spec fn mood_codes() -> Seq<Seq<char>> {
    seq![
        "P31"@,  // instance of
        "P1552"@,  // has characteristic
        "P1889"@,  // different from
        "P461"@,  // opposite of
        "P460"@,  // said to be the same as
        "P1382"@,  // partially coincident with
        "P18"@,  // image
    ]
}

/// The properties that are taken from an entity of each type, in order.
pub open spec fn default_properties() -> Seq<(Seq<char>, Seq<(Seq<char>, PropertyKind)>)> {
    seq![
        ("person"@, rules_of(person_codes())),
        ("organization"@, rules_of(organization_codes())),
        ("scientific_organization"@, rules_of(organization_codes())),
        ("research_institute"@, rules_of(organization_codes())),
        ("government_agency"@, rules_of(organization_codes())),
        ("event"@, rules_of(event_codes())),
        ("mood"@, rules_of(mood_codes())),
    ]
}

/// The contents of a table of mappings.
pub open spec fn mappings_view(table: Seq<TypeMapping>) -> Seq<(Seq<char>, Seq<Seq<char>>)> {
    Seq::new(table.len(), |i: int| table[i]@)
}

/// The contents of a table of rules.
pub open spec fn rules_view(table: Seq<TypeRules>) -> Seq<
    (Seq<char>, Seq<(Seq<char>, PropertyKind)>),
> {
    Seq::new(table.len(), |i: int| table[i]@)
}

fn mapping(entity_type: &'static str, instance_of: Vec<&'static str>) -> (m: TypeMapping)
    ensures
        m.entity_type == entity_type,
        m.instance_of == instance_of,
{
    TypeMapping { entity_type, instance_of }
}

/// The table of the identifiers that make a record an entity of each type.
pub fn get_entity_type_mappings() -> (table: Vec<TypeMapping>)
    ensures
        mappings_view(table@) == entity_type_mappings(),
{
    let mut table: Vec<TypeMapping> = Vec::new();
    table.push(mapping("person", vec!["Q5"]));
    table.push(mapping("organization", vec!["Q43229"]));
    table.push(mapping("scientific_organization", vec!["Q16519632"]));
    table.push(mapping("research_institute", vec!["Q31855"]));
    table.push(mapping("government_agency", vec!["Q327333"]));
    table.push(mapping("event", vec!["Q1656682"]));
    table.push(
        mapping(
            "mood",
            vec![
                "Q331769",
                "Q41537118",
                "Q3968640",
                "Q16748867",
                "Q9415",
                "Q9332",
                "Q60539479",
                "Q60539481",
            ],
        ),
    );
    proof {
        let view = mappings_view(table@);
        let expected = entity_type_mappings();
        assert(view.len() == expected.len());
        assert forall|i: int| 0 <= i < view.len() implies view[i] == expected[i] by {
            assert(view[i].0 == expected[i].0);
            assert(view[i].1 =~= expected[i].1);
        }
        assert(view =~= expected);
    }
    table
}

fn type_rules(entity_type: &'static str, codes: Vec<&'static str>) -> (r: TypeRules)
    ensures
        r@ == (entity_type@, rules_of(strs_view(codes@))),
{
    let rules = rules_for_codes(&codes);
    TypeRules { entity_type, rules }
}

fn organization_properties() -> (codes: Vec<&'static str>)
    ensures
        strs_view(codes@) == organization_codes(),
{
    let codes = vec![
        "P31",
        "P17",
        "P112",
        "P571",
        "P1813",
        "P18",
        "P154",
        "P159",
        "P856",
        "P749",
        "P1454",
        "P3220",
        "P452",
        "P101",
    ];
    assert(strs_view(codes@) =~= organization_codes());
    codes
}

/// The table of the properties that are taken from an entity of each type.
pub fn get_default_properties() -> (table: Vec<TypeRules>)
    ensures
        rules_view(table@) == default_properties(),
{
    let person = vec!["P569", "P570", "P27", "P106", "P18", "P39", "P1449", "P101"];
    assert(strs_view(person@) =~= person_codes());
    let event = vec!["P585", "P17", "P276", "P31", "P18"];
    assert(strs_view(event@) =~= event_codes());
    let mood = vec!["P31", "P1552", "P1889", "P461", "P460", "P1382", "P18"];
    assert(strs_view(mood@) =~= mood_codes());
    let mut table: Vec<TypeRules> = Vec::new();
    table.push(type_rules("person", person));
    table.push(type_rules("organization", organization_properties()));
    table.push(type_rules("scientific_organization", organization_properties()));
    table.push(type_rules("research_institute", organization_properties()));
    table.push(type_rules("government_agency", organization_properties()));
    table.push(type_rules("event", event));
    table.push(type_rules("mood", mood));
    assert(rules_view(table@) =~= default_properties());
    table
}

/// The position of the first entry of `names` that is `name`, or -1 where there is none.
pub open spec fn first_index(names: Seq<Seq<char>>, name: Seq<char>) -> int
    decreases names.len(),
{
    if names.len() == 0 {
        -1
    } else if names[0] == name {
        0
    } else {
        let rest = first_index(names.drop_first(), name);
        if rest < 0 {
            -1
        } else {
            rest + 1
        }
    }
}

/// The rules of `entity_type` in `table`: those of its first entry, where it has one.
pub open spec fn rules_of_type(
    table: Seq<(Seq<char>, Seq<(Seq<char>, PropertyKind)>)>,
    entity_type: Seq<char>,
) -> Option<Seq<(Seq<char>, PropertyKind)>> {
    let i = first_index(Seq::new(table.len(), |i: int| table[i].0), entity_type);
    if 0 <= i < table.len() {
        Some(table[i].1)
    } else {
        None
    }
}

/// The identifiers of `entity_type` in `table`: those of its first entry, where it has one.
pub open spec fn ids_of_type(
    table: Seq<(Seq<char>, Seq<Seq<char>>)>,
    entity_type: Seq<char>,
) -> Option<Seq<Seq<char>>> {
    let i = first_index(Seq::new(table.len(), |i: int| table[i].0), entity_type);
    if 0 <= i < table.len() {
        Some(table[i].1)
    } else {
        None
    }
}

/// The first index that holds `name`, with none before it, is the first index.
pub proof fn lemma_first_index_is(names: Seq<Seq<char>>, name: Seq<char>, i: int)
    requires
        -1 <= i < names.len(),
        i >= 0 ==> names[i] == name,
        forall|j: int|
            0 <= j < (if i >= 0 {
                i
            } else {
                names.len() as int
            }) ==> names[j] != name,
    ensures
        first_index(names, name) == i,
    decreases names.len(),
{
    if names.len() > 0 && names[0] != name {
        let rest = names.drop_first();
        let at = if i >= 0 {
            i - 1
        } else {
            -1
        };
        assert forall|j: int| 0 <= j < (if at >= 0 {
            at
        } else {
            rest.len() as int
        }) implies rest[j] != name by {
            assert(rest[j] == names[j + 1]);
        }
        lemma_first_index_is(rest, name, at);
    }
}

/// The rules of `entity_type` in `table`.
pub fn find_rules<'a>(table: &'a Vec<TypeRules>, entity_type: &str) -> (rules: Option<
    &'a Vec<Rule>,
>)
    ensures
        match rules {
            Some(r) => rules_of_type(rules_view(table@), entity_type@) == Some(
                rule_views(r@),
            ),
            None => rules_of_type(rules_view(table@), entity_type@) is None,
        },
{
    let ghost names = Seq::new(table@.len(), |i: int| rules_view(table@)[i].0);
    let mut i: usize = 0;
    while i < table.len()
        invariant
            i <= table.len(),
            names == Seq::new(table@.len(), |i: int| rules_view(table@)[i].0),
            forall|j: int| 0 <= j < i ==> names[j] != entity_type@,
        decreases table.len() - i,
    {
        if str_eq(table[i].entity_type, entity_type) {
            proof {
                lemma_first_index_is(names, entity_type@, i as int);
            }
            return Some(&table[i].rules);
        }
        i += 1;
    }
    proof {
        lemma_first_index_is(names, entity_type@, -1);
    }
    None
}

/// The identifiers of `entity_type` in `table`.
pub fn find_mapping<'a>(table: &'a Vec<TypeMapping>, entity_type: &str) -> (ids: Option<
    &'a Vec<&'static str>,
>)
    ensures
        match ids {
            Some(r) => ids_of_type(mappings_view(table@), entity_type@) == Some(
                strs_view(r@),
            ),
            None => ids_of_type(mappings_view(table@), entity_type@) is None,
        },
{
    let ghost names = Seq::new(table@.len(), |i: int| mappings_view(table@)[i].0);
    let mut i: usize = 0;
    while i < table.len()
        invariant
            i <= table.len(),
            names == Seq::new(table@.len(), |i: int| mappings_view(table@)[i].0),
            forall|j: int| 0 <= j < i ==> names[j] != entity_type@,
        decreases table.len() - i,
    {
        if str_eq(table[i].entity_type, entity_type) {
            proof {
                lemma_first_index_is(names, entity_type@, i as int);
            }
            return Some(&table[i].instance_of);
        }
        i += 1;
    }
    proof {
        lemma_first_index_is(names, entity_type@, -1);
    }
    None
}

} // verus!
