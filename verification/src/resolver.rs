//! The identifier resolver: which attribute values name another entity, which of them are
//! still to be looked up, and how the labels that came back replace them.
//!
//! The cache holds every label that was ever learned. Each label that it takes in is also
//! handed out to be appended to a durable log, and reading that log again gives the same
//! cache. The lookups themselves go over the network and are the caller's part.

use crate::json::{
    field_names, fields_map, last_index, lemma_fields_map_take, lemma_last_index, Json,
    JsonObject, JsonValue,
};
use crate::text::{
    add_name, char_is_digit, from_chars, is_digit, strings_view, to_chars, with_name,
};
use crate::pipeline::{localized, localized_text};
use vstd::hash_map::StringHashMap;
use vstd::prelude::*;

verus! {

/// The character that separates an identifier from a qualifier behind it.
pub const QUALIFIER_MARK: char = '$';

/// The largest number of identifiers in one lookup.
pub const LOOKUP_BATCH_SIZE: usize = 50;

/// Whether identifiers begin with `c`: `Q` for items, `P` for properties.
pub open spec fn is_prefix_char(c: char) -> bool {
    c == 'Q' || c == 'P'
}

/// The number of characters of `value` before its first qualifier mark; its length where it
/// has none.
pub open spec fn qualifier_start(value: Seq<char>) -> nat
    decreases value.len(),
{
    if value.len() == 0 || value[0] == QUALIFIER_MARK {
        0
    } else {
        1 + qualifier_start(value.drop_first())
    }
}

/// `value` without the qualifier behind it.
pub open spec fn unqualified(value: Seq<char>) -> Seq<char> {
    value.take(qualifier_start(value) as int)
}

/// Whether `id` has the shape of an identifier: a prefix character, then one digit or more
/// and nothing else.
pub open spec fn is_identifier(id: Seq<char>) -> bool {
    &&& id.len() >= 2
    &&& is_prefix_char(id[0])
    &&& forall|i: int| 1 <= i < id.len() ==> is_digit(#[trigger] id[i])
}

/// The identifier that the string `value` names: `value` without its qualifier, where that
/// has the shape of an identifier.
pub open spec fn referenced_id(value: Seq<char>) -> Option<Seq<char>> {
    if is_identifier(unqualified(value)) {
        Some(unqualified(value))
    } else {
        None
    }
}

/// The identifier that an attribute value names. Only a string names one.
pub open spec fn reference_in(value: JsonValue) -> Option<Seq<char>> {
    match value {
        JsonValue::Text(text) => referenced_id(text),
        _ => None,
    }
}

/// The identifiers that the attributes `properties` name.
pub open spec fn referenced_ids(properties: Map<Seq<char>, JsonValue>) -> Set<Seq<char>> {
    Set::new(
        |id: Seq<char>|
            exists|name: Seq<char>| #[trigger]
                properties.contains_key(name) && reference_in(properties[name]) == Some(id),
    )
}

/// The identifiers that `properties` name and `cache` does not know.
pub open spec fn missing(
    cache: Map<Seq<char>, Seq<char>>,
    properties: Map<Seq<char>, JsonValue>,
) -> Set<Seq<char>> {
    Set::new(|id: Seq<char>| referenced_ids(properties).contains(id) && !cache.contains_key(id))
}

/// An attribute value after resolution: the label of the identifier that it names, where
/// the cache knows it, else the value as it was.
pub open spec fn resolved_value(cache: Map<Seq<char>, Seq<char>>, value: JsonValue) -> JsonValue {
    match reference_in(value) {
        Some(id) => if cache.contains_key(id) {
            JsonValue::Text(cache[id])
        } else {
            value
        },
        None => value,
    }
}

/// The attributes after resolution: the same names, each value resolved.
pub open spec fn resolved_properties(
    cache: Map<Seq<char>, Seq<char>>,
    properties: Map<Seq<char>, JsonValue>,
) -> Map<Seq<char>, JsonValue> {
    Map::new(
        |name: Seq<char>| properties.contains_key(name),
        |name: Seq<char>| resolved_value(cache, properties[name]),
    )
}

/// The map that the entries of `log`, taken in one after the other, make of `start`. A later
/// entry for an identifier replaces an earlier one.
pub open spec fn replayed_onto(
    start: Map<Seq<char>, Seq<char>>,
    log: Seq<(Seq<char>, Seq<char>)>,
) -> Map<Seq<char>, Seq<char>>
    decreases log.len(),
{
    if log.len() == 0 {
        start
    } else {
        replayed_onto(start, log.drop_last()).insert(log.last().0, log.last().1)
    }
}

/// The map that reading `log` from the start gives.
pub open spec fn replayed(log: Seq<(Seq<char>, Seq<char>)>) -> Map<Seq<char>, Seq<char>> {
    replayed_onto(Map::empty(), log)
}

/// The contents of a list of pairs of identifier and label.
pub open spec fn pairs_view(pairs: Seq<(String, String)>) -> Seq<(Seq<char>, Seq<char>)> {
    Seq::new(pairs.len(), |i: int| (pairs[i].0@, pairs[i].1@))
}

/// `ids` cut into batches of `size`: the first `size` of them, then the next, and a last
/// batch with what is left.
pub open spec fn batches_of(ids: Seq<Seq<char>>, size: nat) -> Seq<Seq<Seq<char>>>
    decreases ids.len(),
{
    if ids.len() == 0 {
        Seq::empty()
    } else if size == 0 || ids.len() <= size {
        seq![ids]
    } else {
        seq![ids.take(size as int)] + batches_of(ids.skip(size as int), size)
    }
}

/// The contents of a list of batches.
pub open spec fn batches_view(batches: Seq<Vec<String>>) -> Seq<Seq<Seq<char>>> {
    Seq::new(batches.len(), |i: int| strings_view(batches[i]@))
}

/// The first `n` characters of `value` are no qualifier mark and the next one is, or is the
/// end: then the qualifier starts at `n`.
pub proof fn lemma_qualifier_start_is(value: Seq<char>, n: nat)
    requires
        n <= value.len(),
        forall|i: int| 0 <= i < n ==> value[i] != QUALIFIER_MARK,
        n < value.len() ==> value[n as int] == QUALIFIER_MARK,
    ensures
        qualifier_start(value) == n,
    decreases n,
{
    if n > 0 {
        let rest = value.drop_first();
        assert forall|i: int| 0 <= i < n - 1 implies rest[i] != QUALIFIER_MARK by {
            assert(rest[i] == value[i + 1]);
        }
        lemma_qualifier_start_is(rest, (n - 1) as nat);
    }
}

/// The identifier that the string `value` names.
pub fn referenced_id_of(value: &str) -> (id: Option<String>)
    ensures
        match id {
            Some(s) => referenced_id(value@) == Some(s@),
            None => referenced_id(value@) is None,
        },
{
    let chars = to_chars(value);
    let mut end: usize = 0;
    while end < chars.len() && chars[end] != QUALIFIER_MARK
        invariant
            end <= chars.len(),
            forall|j: int| 0 <= j < end ==> chars@[j] != QUALIFIER_MARK,
        decreases chars.len() - end,
    {
        end += 1;
    }
    proof {
        lemma_qualifier_start_is(chars@, end as nat);
    }
    let ghost id = unqualified(value@);
    if end < 2 || !(chars[0] == 'Q' || chars[0] == 'P') {
        return None;
    }
    let mut i: usize = 1;
    while i < end
        invariant
            1 <= i <= end <= chars.len(),
            id == chars@.take(end as int),
            id == unqualified(value@),
            forall|j: int| 1 <= j < i ==> is_digit(#[trigger] id[j]),
        decreases end - i,
    {
        if !char_is_digit(chars[i]) {
            assert(!is_digit(id[i as int]));
            return None;
        }
        i += 1;
    }
    Some(from_chars(&chars, 0, end))
}

/// The labels that were learned, by identifier.
pub struct Cache {
    labels: StringHashMap<String>,
    log: Ghost<Seq<(Seq<char>, Seq<char>)>>,
}

impl View for Cache {
    type V = Map<Seq<char>, Seq<char>>;

    closed spec fn view(&self) -> Map<Seq<char>, Seq<char>> {
        Map::new(
            |id: Seq<char>| self.labels@.contains_key(id),
            |id: Seq<char>| self.labels@[id]@,
        )
    }
}

impl Cache {
    /// The durable log of the cache: the entries that it was loaded from, then every entry
    /// that it handed out to be appended.
    pub closed spec fn log(&self) -> Seq<(Seq<char>, Seq<char>)> {
        self.log@
    }

    /// What the cache holds is what reading its log gives. This is so of a new cache and
    /// of a loaded one, and taking labels in keeps it so.
    pub open spec fn is_durable(&self) -> bool {
        self@ == replayed(self.log())
    }

    /// A cache that knows nothing, with an empty log.
    pub fn new() -> (cache: Cache)
        ensures
            cache@ == Map::<Seq<char>, Seq<char>>::empty(),
            cache.log() == Seq::<(Seq<char>, Seq<char>)>::empty(),
            cache.is_durable(),
    {
        let cache = Cache { labels: StringHashMap::new(), log: Ghost(Seq::empty()) };
        assert(cache@ =~= Map::<Seq<char>, Seq<char>>::empty());
        cache
    }

    /// The cache that the durable log `entries` gives: every entry is taken in, in order.
    pub fn load(entries: &Vec<(String, String)>) -> (cache: Cache)
        ensures
            cache.log() == pairs_view(entries@),
            cache@ == replayed(pairs_view(entries@)),
            cache.is_durable(),
    {
        let mut cache = Cache::new();
        let ghost log = pairs_view(entries@);
        let mut i: usize = 0;
        assert(log.take(0) =~= Seq::empty());
        while i < entries.len()
            invariant
                i <= entries.len(),
                log == pairs_view(entries@),
                cache.log() == log.take(i as int),
                cache.is_durable(),
            decreases entries.len() - i,
        {
            cache.insert(entries[i].0.clone(), entries[i].1.clone());
            assert(log.take(i + 1) =~= log.take(i as int).push(log[i as int]));
            i += 1;
        }
        assert(log.take(i as int) =~= log);
        cache
    }

    /// The number of identifiers that the cache knows.
    pub fn len(&self) -> (n: usize)
        ensures
            n == self@.len(),
    {
        proof {
            assert(self@.dom() =~= self.labels@.dom());
        }
        self.labels.len()
    }

    /// The label of `id`, where the cache knows it.
    pub fn lookup(&self, id: &str) -> (label: Option<&String>)
        ensures
            match label {
                Some(l) => self@.contains_key(id@) && self@[id@] == l@,
                None => !self@.contains_key(id@),
            },
    {
        self.labels.get(id)
    }

    /// Takes in the label of one identifier, in place of any that the cache had for it. The
    /// entry belongs at the end of the durable log.
    pub fn insert(&mut self, id: String, label: String)
        ensures
            final(self)@ == old(self)@.insert(id@, label@),
            final(self).log() == old(self).log().push((id@, label@)),
            old(self).is_durable() ==> final(self).is_durable(),
    {
        let ghost entry = (id@, label@);
        self.labels.insert(id, label);
        self.log = Ghost(self.log@.push(entry));
        proof {
            assert(self@ =~= old(self)@.insert(entry.0, entry.1));
            assert(self.log().drop_last() =~= old(self).log());
        }
    }

    /// Takes in the labels `resolved` that a lookup returned, in order, and hands them back
    /// as the entries to append to the durable log.
    pub fn absorb(&mut self, resolved: Vec<(String, String)>) -> (appended: Vec<(String, String)>)
        ensures
            pairs_view(appended@) == pairs_view(resolved@),
            final(self)@ == replayed_onto(old(self)@, pairs_view(resolved@)),
            final(self).log() == old(self).log() + pairs_view(resolved@),
            old(self).is_durable() ==> final(self).is_durable(),
    {
        let ghost pairs = pairs_view(resolved@);
        let mut i: usize = 0;
        assert(pairs.take(0) =~= Seq::empty());
        assert(old(self).log() + pairs.take(0) =~= old(self).log());
        while i < resolved.len()
            invariant
                i <= resolved.len(),
                pairs == pairs_view(resolved@),
                self@ == replayed_onto(old(self)@, pairs.take(i as int)),
                self.log() == old(self).log() + pairs.take(i as int),
                old(self).is_durable() ==> self.is_durable(),
            decreases resolved.len() - i,
        {
            self.insert(resolved[i].0.clone(), resolved[i].1.clone());
            proof {
                let next = pairs.take(i + 1);
                assert(next.drop_last() =~= pairs.take(i as int));
                assert(next.last() == pairs[i as int]);
                assert(old(self).log() + next =~= (old(self).log() + pairs.take(i as int)).push(
                    pairs[i as int],
                ));
            }
            i += 1;
        }
        assert(pairs.take(i as int) =~= pairs);
        resolved
    }

    /// The attribute `value` after resolution.
    pub fn resolve_value(&self, value: &Json) -> (resolved: Json)
        ensures
            resolved@ == resolved_value(self@, value@),
    {
        if let Some(text) = value.as_text() {
            if let Some(id) = referenced_id_of(text) {
                if let Some(label) = self.lookup(id.as_str()) {
                    return Json::Text(label.clone());
                }
            }
        }
        value.deep_clone()
    }

    /// The attributes `properties` after resolution: each string that names an identifier
    /// that the cache knows gives way to the label, and everything else stays.
    pub fn resolve_entity_ids(&self, properties: &JsonObject) -> (resolved: JsonObject)
        ensures
            resolved@ == resolved_properties(self@, properties@),
    {
        let mut resolved = JsonObject::new();
        let ghost fields = properties.fields@;
        let mut i: usize = 0;
        assert(fields_map(fields.take(0)) =~= Map::<Seq<char>, JsonValue>::empty());
        assert(resolved@ =~= resolved_properties(self@, fields_map(fields.take(0))));
        while i < properties.fields.len()
            invariant
                i <= properties.fields.len(),
                fields == properties.fields@,
                resolved@ == resolved_properties(self@, fields_map(fields.take(i as int))),
            decreases properties.fields.len() - i,
        {
            let value = self.resolve_value(&properties.fields[i].1);
            resolved.insert(properties.fields[i].0.clone(), value);
            proof {
                lemma_fields_map_take(fields, i as int);
                assert(resolved@ =~= resolved_properties(
                    self@,
                    fields_map(fields.take(i + 1)),
                ));
            }
            i += 1;
        }
        assert(fields.take(i as int) =~= fields);
        resolved
    }

    /// The identifiers that `properties` name and the cache does not know, each once.
    pub fn missing_ids(&self, properties: &JsonObject) -> (ids: Vec<String>)
        ensures
            strings_view(ids@).no_duplicates(),
            strings_view(ids@).to_set() == missing(self@, properties@),
    {
        let mut ids: Vec<String> = Vec::new();
        let ghost fields = properties.fields@;
        let mut i: usize = 0;
        while i < properties.fields.len()
            invariant
                i <= properties.fields.len(),
                fields == properties.fields@,
                strings_view(ids@).no_duplicates(),
                forall|id: Seq<char>| #[trigger]
                    strings_view(ids@).contains(id) <==> !self@.contains_key(id) && exists|j: int|
                        0 <= j < i && #[trigger] names_at(fields, j, id),
            decreases properties.fields.len() - i,
        {
            let ghost before = strings_view(ids@);
            let ghost mut added: Option<Seq<char>> = None;
            let counts = match properties.position(properties.fields[i].0.as_str()) {
                Some(at) => at == i,
                None => false,
            };
            if counts {
                if let Some(text) = properties.fields[i].1.as_text() {
                    if let Some(id) = referenced_id_of(text) {
                        if self.lookup(id.as_str()).is_none() {
                            add_name(&mut ids, id.as_str());
                            proof {
                                added = Some(id@);
                            }
                        }
                    }
                }
            }
            proof {
                let after = strings_view(ids@);
                if let Some(new_id) = added {
                    lemma_with_name(before, new_id);
                    assert(names_at(fields, i as int, new_id));
                }
                assert forall|id: Seq<char>| #[trigger]
                    after.contains(id) <==> !self@.contains_key(id) && exists|j: int|
                        0 <= j < i + 1 && #[trigger] names_at(fields, j, id) by {
                    if before.contains(id) {
                        let j = choose|j: int| 0 <= j < i && #[trigger] names_at(fields, j, id);
                        assert(0 <= j < i + 1 && names_at(fields, j, id));
                    }
                    if !self@.contains_key(id) && exists|j: int|
                        0 <= j < i + 1 && #[trigger] names_at(fields, j, id) {
                        let j = choose|j: int| 0 <= j < i + 1 && #[trigger] names_at(fields, j, id);
                        if j < i {
                            assert(before.contains(id));
                        } else {
                            assert(added == Some(id));
                        }
                    }
                }
            }
            i += 1;
        }
        proof {
            let found = strings_view(ids@);
            let names = field_names(fields);
            assert forall|id: Seq<char>|
                found.to_set().contains(id) <==> missing(self@, properties@).contains(id) by {
                if found.contains(id) {
                    let j = choose|j: int| 0 <= j < i && #[trigger] names_at(fields, j, id);
                    assert(properties@.contains_key(names[j]));
                    assert(properties@[names[j]] == fields[j].1@);
                }
                if missing(self@, properties@).contains(id) {
                    let name = choose|name: Seq<char>| #[trigger]
                        properties@.contains_key(name) && reference_in(properties@[name]) == Some(
                            id,
                        );
                    lemma_last_index(names, name);
                    assert(names_at(fields, last_index(names, name), id));
                }
            }
            assert(found.to_set() =~= missing(self@, properties@));
        }
        ids
    }
}

/// Whether the field at `j` counts, being the last of its name, and names the identifier
/// `id`.
pub open spec fn names_at(fields: Seq<(String, Json)>, j: int, id: Seq<char>) -> bool {
    &&& 0 <= j < fields.len()
    &&& last_index(field_names(fields), fields[j].0@) == j
    &&& reference_in(fields[j].1@) == Some(id)
}

/// Taking in a log is the same as laying the map that the log gives over the map that was
/// there.
pub proof fn lemma_replayed_onto_is_union(
    start: Map<Seq<char>, Seq<char>>,
    log: Seq<(Seq<char>, Seq<char>)>,
)
    ensures
        replayed_onto(start, log) == start.union_prefer_right(replayed(log)),
    decreases log.len(),
{
    if log.len() == 0 {
        assert(start =~= start.union_prefer_right(replayed(log)));
    } else {
        lemma_replayed_onto_is_union(start, log.drop_last());
        assert(replayed_onto(start, log) =~= start.union_prefer_right(replayed(log)));
    }
}

/// Every identifier of a log that was taken in is known afterwards, and whatever was known
/// before is still known.
pub proof fn lemma_replayed_onto_knows(
    start: Map<Seq<char>, Seq<char>>,
    log: Seq<(Seq<char>, Seq<char>)>,
)
    ensures
        forall|i: int| 0 <= i < log.len() ==> replayed_onto(start, log).contains_key(
            (#[trigger] log[i]).0,
        ),
        forall|id: Seq<char>| start.contains_key(id) ==> replayed_onto(start, log).contains_key(id),
    decreases log.len(),
{
    if log.len() > 0 {
        let front = log.drop_last();
        lemma_replayed_onto_knows(start, front);
        assert forall|i: int| 0 <= i < log.len() implies replayed_onto(start, log).contains_key(
            (#[trigger] log[i]).0,
        ) by {
            if i < front.len() {
                assert(front[i] == log[i]);
            }
        }
    }
}

/// A log read in two parts gives what the whole log gives: a cache that was loaded from a
/// log and then took in more entries holds what the longer log gives.
pub proof fn lemma_replay_continues(
    first: Seq<(Seq<char>, Seq<char>)>,
    second: Seq<(Seq<char>, Seq<char>)>,
)
    ensures
        replayed(first + second) == replayed_onto(replayed(first), second),
    decreases second.len(),
{
    if second.len() == 0 {
        assert(first + second =~= first);
    } else {
        lemma_replay_continues(first, second.drop_last());
        assert((first + second).drop_last() =~= first + second.drop_last());
    }
}

/// A cache that is loaded from the log of another holds what the other holds: nothing is
/// lost over a restart.
pub proof fn lemma_reload_reproduces_cache(before: Cache, after: Cache)
    requires
        before.is_durable(),
        after.is_durable(),
        after.log() == before.log(),
    ensures
        after@ == before@,
{
}

/// Once the answers to a lookup were taken in, nothing that the lookup answered is asked for
/// again: where every missing identifier was answered, none is missing any more.
pub proof fn lemma_warm_cache_asks_nothing(
    cache: Map<Seq<char>, Seq<char>>,
    properties: Map<Seq<char>, JsonValue>,
    answers: Seq<(Seq<char>, Seq<char>)>,
)
    requires
        forall|id: Seq<char>|
            missing(cache, properties).contains(id) ==> exists|i: int|
                0 <= i < answers.len() && (#[trigger] answers[i]).0 == id,
    ensures
        missing(replayed_onto(cache, answers), properties) == Set::<Seq<char>>::empty(),
{
    lemma_replayed_onto_knows(cache, answers);
    let warm = replayed_onto(cache, answers);
    assert forall|id: Seq<char>| !missing(warm, properties).contains(id) by {
        if referenced_ids(properties).contains(id) && !cache.contains_key(id) {
            assert(missing(cache, properties).contains(id));
            let i = choose|i: int| 0 <= i < answers.len() && (#[trigger] answers[i]).0 == id;
            assert(warm.contains_key(answers[i].0));
        }
    }
    assert(missing(warm, properties) =~= Set::<Seq<char>>::empty());
}

/// Taking in the same answers a second time changes nothing: every identifier keeps the
/// label that it had after the first time, so a second resolution gives the same attributes.
pub proof fn lemma_absorbing_again_changes_nothing(
    cache: Map<Seq<char>, Seq<char>>,
    answers: Seq<(Seq<char>, Seq<char>)>,
)
    ensures
        replayed_onto(replayed_onto(cache, answers), answers) == replayed_onto(cache, answers),
{
    let warm = replayed_onto(cache, answers);
    lemma_replayed_onto_is_union(cache, answers);
    lemma_replayed_onto_is_union(warm, answers);
    assert(warm.union_prefer_right(replayed(answers)) =~= warm);
}

/// The label of an entity in the answer to a lookup: its text in the language `lang`.
pub open spec fn label_in(entity: JsonValue, lang: Seq<char>) -> Option<Seq<char>> {
    match entity.field("labels"@) {
        Some(JsonValue::Object(labels)) => localized(labels, lang),
        _ => None,
    }
}

/// The labels that the answer to a lookup gives: for each entity under `entities` that has
/// a label in the language `lang`, that label by the entity's identifier. An answer of
/// another shape gives none.
pub open spec fn labels_in_answer(answer: JsonValue, lang: Seq<char>) -> Map<Seq<char>, Seq<char>> {
    match answer.field("entities"@) {
        Some(JsonValue::Object(entities)) => Map::new(
            |id: Seq<char>| entities.contains_key(id) && label_in(entities[id], lang) is Some,
            |id: Seq<char>| label_in(entities[id], lang)->0,
        ),
        _ => Map::empty(),
    }
}

/// The identifiers of a list of pairs of identifier and label, in order.
pub open spec fn pair_ids(pairs: Seq<(Seq<char>, Seq<char>)>) -> Seq<Seq<char>> {
    Seq::new(pairs.len(), |i: int| pairs[i].0)
}

/// The labels that the answer to a lookup gives, as pairs of identifier and label, each
/// identifier once.
pub fn labels_of_answer(answer: &Json, lang: &str) -> (pairs: Vec<(String, String)>)
    ensures
        replayed(pairs_view(pairs@)) == labels_in_answer(answer@, lang@),
        pair_ids(pairs_view(pairs@)).no_duplicates(),
{
    let mut pairs: Vec<(String, String)> = Vec::new();
    assert(pairs_view(pairs@) =~= Seq::empty());
    let entities = match answer.field("entities") {
        Some(value) => match value.as_object() {
            Some(entities) => entities,
            None => {
                return pairs;
            },
        },
        None => {
            return pairs;
        },
    };
    let ghost fields = entities.fields@;
    let ghost names = field_names(fields);
    let mut i: usize = 0;
    while i < entities.fields.len()
        invariant
            i <= entities.fields.len(),
            fields == entities.fields@,
            names == field_names(fields),
            pair_ids(pairs_view(pairs@)).no_duplicates(),
            forall|id: Seq<char>| #[trigger]
                replayed(pairs_view(pairs@)).contains_key(id) <==> 0 <= last_index(names, id) < i
                    && label_in(fields[last_index(names, id)].1@, lang@) is Some,
            forall|id: Seq<char>| #[trigger]
                replayed(pairs_view(pairs@)).contains_key(id) ==> replayed(pairs_view(pairs@))[id]
                    == label_in(fields[last_index(names, id)].1@, lang@)->0,
        decreases entities.fields.len() - i,
    {
        let ghost before = pairs_view(pairs@);
        let name = entities.fields[i].0.as_str();
        let counts = match entities.position(name) {
            Some(at) => at == i,
            None => false,
        };
        let label: Option<&str> = if counts {
            match entities.fields[i].1.field("labels") {
                Some(value) => match value.as_object() {
                    Some(labels) => localized_text(labels, lang),
                    None => None,
                },
                None => None,
            }
        } else {
            None
        };
        if let Some(text) = label {
            pairs.push((name.to_owned(), text.to_owned()));
            assert(pairs_view(pairs@) =~= before.push((name@, text@)));
            assert(pairs_view(pairs@).drop_last() =~= before);
            proof {
                lemma_replayed_onto_knows(Map::empty(), before);
                assert(!replayed(before).contains_key(name@));
                let ids = pair_ids(pairs_view(pairs@));
                assert forall|j: int, k: int|
                    0 <= j < ids.len() && 0 <= k < ids.len() && j != k implies ids[j] != ids[k] by {
                    if j < before.len() && k < before.len() {
                        assert(pair_ids(before)[j] != pair_ids(before)[k]);
                    } else if j < before.len() {
                        assert(replayed(before).contains_key(before[j].0));
                    } else {
                        assert(replayed(before).contains_key(before[k].0));
                    }
                }
            }
        }
        proof {
            let key = name@;
            let at = i as int;
            let known = replayed(before);
            let found = label_in(fields[at].1@, lang@);
            assert(names[at] == key);
            assert(counts <==> last_index(names, key) == at);
            assert(counts ==> match label {
                Some(text) => found == Some(text@),
                None => found is None,
            });
            assert(replayed(pairs_view(pairs@)) == match label {
                Some(text) => known.insert(key, text@),
                None => known,
            });
            assert forall|id: Seq<char>| #[trigger]
                replayed(pairs_view(pairs@)).contains_key(id) <==> 0 <= last_index(names, id) < i
                    + 1 && label_in(fields[last_index(names, id)].1@, lang@) is Some by {
                lemma_last_index(names, id);
                assert(known.contains_key(id) <==> 0 <= last_index(names, id) < i && label_in(
                    fields[last_index(names, id)].1@,
                    lang@,
                ) is Some);
            }
            assert forall|id: Seq<char>| #[trigger]
                replayed(pairs_view(pairs@)).contains_key(id) implies replayed(
                pairs_view(pairs@),
            )[id] == label_in(fields[last_index(names, id)].1@, lang@)->0 by {
                lemma_last_index(names, id);
                if known.contains_key(id) {
                    assert(known[id] == label_in(fields[last_index(names, id)].1@, lang@)->0);
                }
            }
        }
        i += 1;
    }
    proof {
        assert forall|id: Seq<char>|
            replayed(pairs_view(pairs@)).contains_key(id) <==> labels_in_answer(
                answer@,
                lang@,
            ).contains_key(id) by {
            lemma_last_index(names, id);
        }
        assert forall|id: Seq<char>|
            replayed(pairs_view(pairs@)).contains_key(id) implies replayed(pairs_view(pairs@))[id]
                == labels_in_answer(answer@, lang@)[id] by {
            lemma_last_index(names, id);
        }
        assert(replayed(pairs_view(pairs@)) =~= labels_in_answer(answer@, lang@));
    }
    pairs
}

/// Adding a name leaves a list without repetitions so, and adds that name to what it holds.
pub proof fn lemma_with_name(names: Seq<Seq<char>>, name: Seq<char>)
    requires
        names.no_duplicates(),
    ensures
        with_name(names, name).no_duplicates(),
        forall|other: Seq<char>| #[trigger]
            with_name(names, name).contains(other) <==> names.contains(other) || other == name,
{
    let after = with_name(names, name);
    if !names.contains(name) {
        assert forall|i: int, j: int|
            0 <= i < after.len() && 0 <= j < after.len() && i != j implies after[i] != after[j] by {
            if i < names.len() && j < names.len() {
            } else if i < names.len() {
                assert(names.contains(names[i]));
            } else {
                assert(names.contains(names[j]));
            }
        }
        assert forall|other: Seq<char>| #[trigger]
            after.contains(other) <==> names.contains(other) || other == name by {
            if after.contains(other) {
                let i = choose|i: int| 0 <= i < after.len() && after[i] == other;
                if i < names.len() {
                    assert(names[i] == other);
                }
            }
            if names.contains(other) {
                let i = choose|i: int| 0 <= i < names.len() && names[i] == other;
                assert(after[i] == other);
            }
            if other == name {
                assert(after[names.len() as int] == name);
            }
        }
    }
}

/// The identifiers `ids` in batches of at most `LOOKUP_BATCH_SIZE`, one for each lookup.
pub fn lookup_batches(ids: &Vec<String>) -> (batches: Vec<Vec<String>>)
    ensures
        batches_view(batches@) == batches_of(strings_view(ids@), LOOKUP_BATCH_SIZE as nat),
{
    let ghost all = strings_view(ids@);
    let ghost size = LOOKUP_BATCH_SIZE as nat;
    let mut batches: Vec<Vec<String>> = Vec::new();
    let mut start: usize = 0;
    assert(all.skip(0) =~= all);
    assert(batches_view(batches@) + batches_of(all.skip(0), size) =~= batches_of(all, size));
    while start < ids.len()
        invariant
            start <= ids.len(),
            all == strings_view(ids@),
            size == LOOKUP_BATCH_SIZE as nat,
            batches_view(batches@) + batches_of(all.skip(start as int), size) == batches_of(
                all,
                size,
            ),
        decreases ids.len() - start,
    {
        let end: usize = if ids.len() - start <= LOOKUP_BATCH_SIZE {
            ids.len()
        } else {
            start + LOOKUP_BATCH_SIZE
        };
        let mut batch: Vec<String> = Vec::new();
        let mut i: usize = start;
        while i < end
            invariant
                start <= i <= end <= ids.len(),
                all == strings_view(ids@),
                strings_view(batch@) == all.subrange(start as int, i as int),
            decreases end - i,
        {
            let ghost collected = strings_view(batch@);
            batch.push(ids[i].clone());
            assert(strings_view(batch@) =~= collected.push(all[i as int]));
            assert(collected.push(all[i as int]) =~= all.subrange(start as int, i + 1));
            i += 1;
        }
        let ghost before = batches_view(batches@);
        batches.push(batch);
        proof {
            let rest = all.skip(start as int);
            let piece = all.subrange(start as int, end as int);
            assert(batches_view(batches@) =~= before.push(piece));
            if end == ids.len() {
                assert(piece =~= rest);
                assert(all.skip(end as int) =~= Seq::<Seq<char>>::empty());
                assert(batches_of(rest, size) =~= seq![rest]);
            } else {
                assert(piece =~= rest.take(size as int));
                assert(all.skip(end as int) =~= rest.skip(size as int));
            }
            assert(batches_view(batches@) + batches_of(all.skip(end as int), size) =~= before
                + batches_of(rest, size));
        }
        start = end;
    }
    assert(all.skip(start as int) =~= Seq::<Seq<char>>::empty());
    assert(batches_view(batches@) + batches_of(all.skip(start as int), size) =~= batches_view(
        batches@,
    ));
    batches
}

} // verus!
