//! The two configuration documents that shape the catalogue: the alias table,
//! which names for each canonical tag the spellings that stand for it, and
//! the exclusion list of source identifiers.

use std::collections::BTreeMap;
use vstd::prelude::*;
use vstd::hash_map::StringHashMap;
use vstd::hash_set::StringHashSet;
use crate::error::SearchError;

verus! {

/// The error of `serde_json`.  Nothing is known of what it holds.
#[verifier::external_type_specification]
#[verifier::external_body]
pub struct ExJsonError(serde_json::Error);

/// What `serde_json::from_str` reads from an alias document: for a JSON
/// object whose values are arrays of strings, its members as pairs of a
/// canonical tag and the aliases of that tag, in ascending order of the
/// canonical tags, a tag that is given twice with the aliases given last; for
/// any other text, nothing.
pub uninterp spec fn alias_document(doc: Seq<char>) -> Option<Seq<(Seq<char>, Seq<Seq<char>>)>>;

/// What `serde_json::from_str` reads from an exclusion document: for a JSON
/// array of strings, its elements in order; for any other text, nothing.
pub uninterp spec fn exclusion_document(doc: Seq<char>) -> Option<Seq<Seq<char>>>;

/// Trusted: `serde_json::from_str`, reading an ordered map from strings to
/// lists of strings.  It succeeds exactly on the texts that `alias_document`
/// reads, and the members of the map, handed out in the order of their keys,
/// are the ones that `alias_document` names.
#[verifier::external_body]
pub(crate) fn parse_alias_document(doc: &str) -> (r: Result<
    Vec<(String, Vec<String>)>,
    serde_json::Error,
>)
    ensures
        match r {
            Ok(groups) => alias_document(doc@) == Some(groups.deep_view()),
            Err(_) => alias_document(doc@) is None,
        },
{
    let table = serde_json::from_str::<BTreeMap<String, Vec<String>>>(doc)?;
    Ok(table.into_iter().collect())
}

/// Trusted: `serde_json::from_str`, reading a list of strings.  It succeeds
/// exactly on the texts that `exclusion_document` reads, and then hands out
/// the elements that `exclusion_document` names.
#[verifier::external_body]
pub(crate) fn parse_exclusion_document(doc: &str) -> (r: Result<Vec<String>, serde_json::Error>)
    ensures
        match r {
            Ok(list) => exclusion_document(doc@) == Some(list.deep_view()),
            Err(_) => exclusion_document(doc@) is None,
        },
{
    serde_json::from_str::<Vec<String>>(doc)
}

/// `table`, with every one of `aliases` pointing at `canonical`.
pub open spec fn with_aliases(
    table: Map<Seq<char>, Seq<char>>,
    canonical: Seq<char>,
    aliases: Seq<Seq<char>>,
) -> Map<Seq<char>, Seq<char>>
    decreases aliases.len(),
{
    if aliases.len() == 0 {
        table
    } else {
        with_aliases(table, canonical, aliases.drop_last()).insert(aliases.last(), canonical)
    }
}

/// The alias table turned round: every alias points at its canonical tag.
/// Where an alias is listed more than once, its last listing counts.
pub open spec fn inverted(groups: Seq<(Seq<char>, Seq<Seq<char>>)>) -> Map<Seq<char>, Seq<char>>
    decreases groups.len(),
{
    if groups.len() == 0 {
        Map::empty()
    } else {
        with_aliases(inverted(groups.drop_last()), groups.last().0, groups.last().1)
    }
}

/// The canonical form of a tag: what the table says where it knows the tag,
/// and the tag itself where it does not.
pub open spec fn canonical_of(table: Map<Seq<char>, Seq<char>>, tag: Seq<char>) -> Seq<char> {
    if table.dom().contains(tag) {
        table[tag]
    } else {
        tag
    }
}

/// The canonical form of the tag is final: the table knows it under no other
/// name.
pub open spec fn resolves(table: Map<Seq<char>, Seq<char>>, tag: Seq<char>) -> bool {
    !table.dom().contains(canonical_of(table, tag))
}

/// Some group lists the alias.
pub open spec fn is_listed(groups: Seq<(Seq<char>, Seq<Seq<char>>)>, alias: Seq<char>) -> bool {
    exists|g: int| 0 <= g < groups.len() && (#[trigger] groups[g]).1.contains(alias)
}

/// No canonical tag of the table is itself an alias.
pub open spec fn is_flat(table: Map<Seq<char>, Seq<char>>) -> bool {
    forall|alias: Seq<char>| #[trigger]
        table.dom().contains(alias) ==> !table.dom().contains(table[alias])
}

/// The lookup from aliases to canonical tags.
pub struct AliasTable {
    table: StringHashMap<String>,
}

impl View for AliasTable {
    type V = Map<Seq<char>, Seq<char>>;

    closed spec fn view(&self) -> Map<Seq<char>, Seq<char>> {
        self.table@.map_values(|canonical: String| canonical@)
    }
}

impl AliasTable {
    /// Turns the alias groups round into a lookup.
    pub fn from_groups(groups: &Vec<(String, Vec<String>)>) -> (lookup: AliasTable)
        ensures
            lookup@ == inverted(groups.deep_view()),
    {
        let ghost model = groups.deep_view();
        let mut table = StringHashMap::<String>::new();
        assert(table@.map_values(|canonical: String| canonical@) =~= inverted(model.take(0)));
        let mut g: usize = 0;
        while g < groups.len()
            invariant
                g <= groups.len(),
                model == groups.deep_view(),
                table@.map_values(|canonical: String| canonical@) == inverted(model.take(g as int)),
            decreases groups.len() - g,
        {
            let group = &groups[g];
            let ghost before = inverted(model.take(g as int));
            let ghost canonical = group.0@;
            let ghost aliases = group.1.deep_view();
            assert(model[g as int] == (canonical, aliases));
            assert(aliases.take(0) =~= Seq::<Seq<char>>::empty());
            let mut a: usize = 0;
            while a < group.1.len()
                invariant
                    a <= group.1.len(),
                    canonical == group.0@,
                    aliases == group.1.deep_view(),
                    table@.map_values(|canonical: String| canonical@) == with_aliases(
                        before,
                        canonical,
                        aliases.take(a as int),
                    ),
                decreases group.1.len() - a,
            {
                let ghost previous = table@;
                table.insert(group.1[a].clone(), group.0.clone());
                proof {
                    let grown = aliases.take(a as int + 1);
                    assert(grown.drop_last() =~= aliases.take(a as int));
                    assert(grown.last() == aliases[a as int]);
                    assert(table@.map_values(|canonical: String| canonical@)
                        =~= previous.map_values(|canonical: String| canonical@).insert(
                        aliases[a as int],
                        canonical,
                    ));
                }
                a += 1;
            }
            proof {
                let grown = model.take(g as int + 1);
                assert(grown.drop_last() =~= model.take(g as int));
                assert(grown.last() == model[g as int]);
                assert(aliases.take(aliases.len() as int) =~= aliases);
            }
            g += 1;
        }
        assert(model.take(model.len() as int) =~= model);
        AliasTable { table }
    }

    /// The canonical form of `tag`.
    pub fn canonical_tag(&self, tag: &String) -> (canonical: String)
        ensures
            canonical@ == canonical_of(self@, tag@),
    {
        match self.table.get(tag.as_str()) {
            Some(known) => known.clone(),
            None => tag.clone(),
        }
    }
}

/// Collects the exclusion list into a set.
pub fn exclusion_set(list: &Vec<String>) -> (set: StringHashSet)
    ensures
        set@ == list.deep_view().to_set(),
{
    let mut set = StringHashSet::new();
    assert(set@ =~= list.deep_view().take(0).to_set());
    let mut i: usize = 0;
    while i < list.len()
        invariant
            i <= list.len(),
            set@ == list.deep_view().take(i as int).to_set(),
        decreases list.len() - i,
    {
        set.insert(list[i].clone());
        proof {
            let model = list.deep_view();
            let grown = model.take(i as int + 1);
            assert(grown =~= model.take(i as int).push(model[i as int]));
            assert(grown.to_set() =~= model.take(i as int).to_set().insert(model[i as int])) by {
                assert forall|x: Seq<char>| grown.to_set().contains(x) implies model.take(
                    i as int,
                ).to_set().insert(model[i as int]).contains(x) by {
                    let k = choose|k: int| 0 <= k < grown.len() && grown[k] == x;
                    if k < i {
                        assert(model.take(i as int)[k] == x);
                    }
                }
                assert forall|x: Seq<char>|
                    model.take(i as int).to_set().insert(model[i as int]).contains(
                        x,
                    ) implies grown.to_set().contains(x) by {
                    if x == model[i as int] {
                        assert(grown[i as int] == x);
                    } else {
                        let k = choose|k: int|
                            0 <= k < model.take(i as int).len() && model.take(i as int)[k] == x;
                        assert(grown[k] == x);
                    }
                }
            }
        }
        i += 1;
    }
    assert(list.deep_view().take(list.len() as int) =~= list.deep_view());
    set
}

/// What adding the aliases of one group does to a table.
proof fn lemma_with_aliases(
    table: Map<Seq<char>, Seq<char>>,
    canonical: Seq<char>,
    aliases: Seq<Seq<char>>,
    alias: Seq<char>,
)
    ensures
        with_aliases(table, canonical, aliases).dom().contains(alias) <==> (table.dom().contains(
            alias,
        ) || aliases.contains(alias)),
        aliases.contains(alias) ==> with_aliases(table, canonical, aliases)[alias] == canonical,
        !aliases.contains(alias) ==> with_aliases(table, canonical, aliases)[alias] == table[alias],
    decreases aliases.len(),
{
    if aliases.len() > 0 {
        lemma_with_aliases(table, canonical, aliases.drop_last(), alias);
        if aliases.contains(alias) {
            let k = choose|k: int| 0 <= k < aliases.len() && aliases[k] == alias;
            if k < aliases.len() - 1 {
                assert(aliases.drop_last()[k] == alias);
            }
        }
        if aliases.drop_last().contains(alias) {
            let k = choose|k: int|
                0 <= k < aliases.drop_last().len() && aliases.drop_last()[k] == alias;
            assert(aliases[k] == alias);
        }
        if aliases.last() == alias {
            assert(aliases[aliases.len() - 1] == alias);
        }
    }
}

/// The table knows exactly the aliases that some group lists, and gives each
/// the canonical tag of the last group that lists it.
pub proof fn lemma_inverted(groups: Seq<(Seq<char>, Seq<Seq<char>>)>, alias: Seq<char>)
    ensures
        inverted(groups).dom().contains(alias) <==> is_listed(groups, alias),
        is_listed(groups, alias) ==> exists|g: int|
            {
                &&& 0 <= g < groups.len()
                &&& (#[trigger] groups[g]).1.contains(alias)
                &&& inverted(groups)[alias] == groups[g].0
                &&& forall|h: int| g < h < groups.len() ==> !(#[trigger] groups[h]).1.contains(alias)
            },
    decreases groups.len(),
{
    if groups.len() > 0 {
        let rest = groups.drop_last();
        let last = groups.len() - 1;
        lemma_inverted(rest, alias);
        lemma_with_aliases(inverted(rest), groups.last().0, groups.last().1, alias);
        if groups[last].1.contains(alias) {
            assert(is_listed(groups, alias));
            assert(inverted(groups)[alias] == groups[last].0);
        } else if is_listed(rest, alias) {
            let g = choose|g: int|
                {
                    &&& 0 <= g < rest.len()
                    &&& (#[trigger] rest[g]).1.contains(alias)
                    &&& inverted(rest)[alias] == rest[g].0
                    &&& forall|h: int| g < h < rest.len() ==> !(#[trigger] rest[h]).1.contains(alias)
                };
            assert(groups[g] == rest[g]);
            assert forall|h: int| g < h < groups.len() implies !(#[trigger] groups[h]).1.contains(
                alias,
            ) by {
                if h < last {
                    assert(groups[h] == rest[h]);
                }
            }
            assert(is_listed(groups, alias));
        } else {
            if is_listed(groups, alias) {
                let g = choose|g: int|
                    0 <= g < groups.len() && (#[trigger] groups[g]).1.contains(alias);
                assert(rest[g] == groups[g]);
            }
        }
    }
}

/// Reads the alias document and turns it round.  A text that is no alias
/// document is refused.
pub fn load_alias_table(doc: &str) -> (r: Result<AliasTable, SearchError>)
    ensures
        match r {
            Ok(lookup) => alias_document(doc@) is Some && lookup@ == inverted(
                alias_document(doc@).unwrap(),
            ),
            Err(e) => alias_document(doc@) is None && e == SearchError::InvalidDataset,
        },
{
    match parse_alias_document(doc) {
        Ok(groups) => Ok(AliasTable::from_groups(&groups)),
        Err(_) => Err(SearchError::InvalidDataset),
    }
}

/// Reads the exclusion document into a set.  A text that is no exclusion
/// document is refused.
pub fn load_exclusion_set(doc: &str) -> (r: Result<StringHashSet, SearchError>)
    ensures
        match r {
            Ok(set) => exclusion_document(doc@) is Some && set@ == exclusion_document(
                doc@,
            ).unwrap().to_set(),
            Err(e) => exclusion_document(doc@) is None && e == SearchError::InvalidDataset,
        },
{
    match parse_exclusion_document(doc) {
        Ok(list) => Ok(exclusion_set(&list)),
        Err(_) => Err(SearchError::InvalidDataset),
    }
}

} // verus!
