//! The catalogue: the normalised entries and the tags that occur in them.
//!
//! Normalising drops every entry with an excluded source, puts the synonyms
//! of the others into lowercase and their tags into canonical form, and
//! orders what is left by season year, latest first.

use vstd::prelude::*;
use vstd::hash_set::StringHashSet;
use crate::config::{alias_document, canonical_of, exclusion_document, exclusion_set, inverted,
    is_flat, load_alias_table, load_exclusion_set, resolves, AliasTable};
use crate::error::SearchError;
use crate::model::{Anime, AnimeModel, Root};
use crate::order::{is_stable_year_order, lemma_same_members, sort_by_year, years_descending};
use crate::text::{ascending, lemma_text_lt_asymmetric, lowercase, sort_texts, strictly_ascending,
    text_le, text_lt, to_lowercase};

verus! {

/// Every text in lowercase.
pub open spec fn lowercased(texts: Seq<Seq<char>>) -> Seq<Seq<char>> {
    texts.map_values(|t: Seq<char>| lowercase(t))
}

/// Every tag in its canonical form.
pub open spec fn canonical_tags(tags: Seq<Seq<char>>, table: Map<Seq<char>, Seq<char>>) -> Seq<
    Seq<char>,
> {
    tags.map_values(|tag: Seq<char>| canonical_of(table, tag))
}

/// The entry as the catalogue stores it: synonyms in lowercase, tags in
/// canonical form, everything else untouched.
pub open spec fn normal_form(entry: AnimeModel, table: Map<Seq<char>, Seq<char>>) -> AnimeModel {
    AnimeModel {
        synonyms: lowercased(entry.synonyms),
        tags: canonical_tags(entry.tags, table),
        ..entry
    }
}

/// One of the entry's sources is excluded.
pub open spec fn is_excluded(entry: AnimeModel, excluded: Set<Seq<char>>) -> bool {
    exists|i: int| 0 <= i < entry.sources.len() && excluded.contains(#[trigger] entry.sources[i])
}

/// No entry has an excluded source.
pub open spec fn none_excluded(entries: Seq<AnimeModel>, excluded: Set<Seq<char>>) -> bool {
    forall|i: int| 0 <= i < entries.len() ==> !is_excluded(#[trigger] entries[i], excluded)
}

/// The test for entries that stay.
pub open spec fn is_kept(excluded: Set<Seq<char>>) -> spec_fn(AnimeModel) -> bool {
    |entry: AnimeModel| !is_excluded(entry, excluded)
}

/// The step that puts an entry into its normal form.
pub open spec fn normalizer(table: Map<Seq<char>, Seq<char>>) -> spec_fn(AnimeModel) -> AnimeModel {
    |entry: AnimeModel| normal_form(entry, table)
}

/// The entries that stay, each in its normal form, in their first order.
pub open spec fn retained(
    raw: Seq<AnimeModel>,
    table: Map<Seq<char>, Seq<char>>,
    excluded: Set<Seq<char>>,
) -> Seq<AnimeModel> {
    raw.filter(is_kept(excluded)).map_values(normalizer(table))
}

/// `entries` is what normalising makes of `raw`: the retained entries by
/// descending year, those of one year in their first order.
pub open spec fn is_normalized(
    entries: Seq<AnimeModel>,
    raw: Seq<AnimeModel>,
    table: Map<Seq<char>, Seq<char>>,
    excluded: Set<Seq<char>>,
) -> bool {
    is_stable_year_order(entries, retained(raw, table, excluded))
}

/// The tags that occur in the entries.
pub open spec fn all_tags(entries: Seq<AnimeModel>) -> Set<Seq<char>> {
    Set::new(
        |tag: Seq<char>|
            exists|i: int| 0 <= i < entries.len() && (#[trigger] entries[i]).tags.contains(tag),
    )
}

/// `tags` lists the tags of the entries, each once, in ascending order.
pub open spec fn is_catalog(tags: Seq<Seq<char>>, entries: Seq<AnimeModel>) -> bool {
    &&& strictly_ascending(tags)
    &&& forall|tag: Seq<char>| tags.contains(tag) <==> all_tags(entries).contains(tag)
}

/// What a `Data` stands for.
pub struct DataModel {
    pub entries: Seq<AnimeModel>,
    pub tags: Seq<Seq<char>>,
}

impl DataModel {
    /// The entries stand by descending year and the tags are their catalogue.
    pub open spec fn wf(self) -> bool {
        &&& years_descending(self.entries)
        &&& is_catalog(self.tags, self.entries)
    }
}

/// The catalogue.  It is built once and only read afterwards.
pub struct Data {
    pub(crate) data: Root,
    pub(crate) tags: Vec<String>,
}

impl View for Data {
    type V = DataModel;

    closed spec fn view(&self) -> DataModel {
        DataModel { entries: self.data@, tags: self.tags.deep_view() }
    }
}

/// A sequence with one more element holds what it held, and that element.
proof fn lemma_push_contains<T>(s: Seq<T>, x: T)
    ensures
        forall|y: T| s.push(x).contains(y) <==> (s.contains(y) || y == x),
{
    assert forall|y: T| s.push(x).contains(y) implies (s.contains(y) || y == x) by {
        let k = choose|k: int| 0 <= k < s.push(x).len() && s.push(x)[k] == y;
        if k < s.len() {
            assert(s[k] == y);
        }
    }
    assert forall|y: T| (s.contains(y) || y == x) implies s.push(x).contains(y) by {
        if s.contains(y) {
            let k = choose|k: int| 0 <= k < s.len() && s[k] == y;
            assert(s.push(x)[k] == y);
        } else {
            assert(s.push(x)[s.len() as int] == y);
        }
    }
}

/// What one more raw entry adds to the retained entries.
proof fn lemma_retained_push(
    raw: Seq<AnimeModel>,
    entry: AnimeModel,
    table: Map<Seq<char>, Seq<char>>,
    excluded: Set<Seq<char>>,
)
    ensures
        retained(raw.push(entry), table, excluded) == if is_excluded(entry, excluded) {
            retained(raw, table, excluded)
        } else {
            retained(raw, table, excluded).push(normal_form(entry, table))
        },
{
    raw.lemma_filter_push(entry, is_kept(excluded));
    if !is_excluded(entry, excluded) {
        assert(raw.filter(is_kept(excluded)).push(entry).map_values(normalizer(table))
            =~= raw.filter(is_kept(excluded)).map_values(normalizer(table)).push(
            normal_form(entry, table),
        ));
    }
}

/// What one more entry adds to the tags of the entries.
proof fn lemma_all_tags_push(entries: Seq<AnimeModel>, entry: AnimeModel)
    ensures
        forall|tag: Seq<char>|
            all_tags(entries.push(entry)).contains(tag) <==> (all_tags(entries).contains(tag)
                || entry.tags.contains(tag)),
{
    let grown = entries.push(entry);
    assert forall|tag: Seq<char>| all_tags(grown).contains(tag) implies (all_tags(
        entries,
    ).contains(tag) || entry.tags.contains(tag)) by {
        let i = choose|i: int| 0 <= i < grown.len() && (#[trigger] grown[i]).tags.contains(tag);
        if i < entries.len() {
            assert(entries[i].tags.contains(tag));
        }
    }
    assert forall|tag: Seq<char>|
        (all_tags(entries).contains(tag) || entry.tags.contains(tag)) implies all_tags(
        grown,
    ).contains(tag) by {
        if all_tags(entries).contains(tag) {
            let i = choose|i: int|
                0 <= i < entries.len() && (#[trigger] entries[i]).tags.contains(tag);
            assert(grown[i].tags.contains(tag));
        } else {
            assert(grown[entries.len() as int].tags.contains(tag));
        }
    }
}

/// In ascending texts, a text that differs from its left neighbour stands
/// strictly behind every text to its left.
proof fn lemma_new_text_is_greater(texts: Seq<Seq<char>>, i: int, k: int)
    requires
        ascending(texts),
        0 <= i < k < texts.len(),
        texts[k - 1] != texts[k],
    ensures
        text_lt(texts[i], texts[k]),
{
    assert(text_le(texts[i], texts[k]));
    if texts[i] == texts[k] {
        assert(i < k - 1);
        assert(text_le(texts[i], texts[k - 1]));
        assert(text_le(texts[k - 1], texts[k]));
        lemma_text_lt_asymmetric(texts[i], texts[k - 1]);
    }
}

/// Puts every text into lowercase.
pub fn lowercase_all(texts: &Vec<String>) -> (lowered: Vec<String>)
    ensures
        lowered.deep_view() == lowercased(texts.deep_view()),
{
    let mut lowered: Vec<String> = Vec::new();
    let mut i: usize = 0;
    while i < texts.len()
        invariant
            i <= texts.len(),
            lowered.len() == i,
            forall|k: int| 0 <= k < i ==> lowered.deep_view()[k] == lowercase(texts.deep_view()[k]),
        decreases texts.len() - i,
    {
        let ghost before = lowered.deep_view();
        lowered.push(to_lowercase(texts[i].as_str()));
        assert(lowered.deep_view() =~= before.push(lowercase(texts.deep_view()[i as int])));
        i += 1;
    }
    assert(lowered.deep_view() =~= lowercased(texts.deep_view()));
    lowered
}

/// Puts every tag into its canonical form.
pub fn rewrite_tags(tags: &Vec<String>, aliases: &AliasTable) -> (rewritten: Vec<String>)
    ensures
        rewritten.deep_view() == canonical_tags(tags.deep_view(), aliases@),
{
    let mut rewritten: Vec<String> = Vec::new();
    let mut i: usize = 0;
    while i < tags.len()
        invariant
            i <= tags.len(),
            rewritten.len() == i,
            forall|k: int|
                0 <= k < i ==> rewritten.deep_view()[k] == canonical_of(
                    aliases@,
                    tags.deep_view()[k],
                ),
        decreases tags.len() - i,
    {
        let ghost before = rewritten.deep_view();
        rewritten.push(aliases.canonical_tag(&tags[i]));
        assert(rewritten.deep_view() =~= before.push(
            canonical_of(aliases@, tags.deep_view()[i as int]),
        ));
        i += 1;
    }
    assert(rewritten.deep_view() =~= canonical_tags(tags.deep_view(), aliases@));
    rewritten
}

/// Puts an entry into its normal form.
pub fn normalize_entry(entry: Anime, aliases: &AliasTable) -> (normal: Anime)
    ensures
        normal@ == normal_form(entry@, aliases@),
{
    let mut normal = entry;
    normal.synonyms = lowercase_all(&normal.synonyms);
    normal.tags = rewrite_tags(&normal.tags, aliases);
    normal
}

/// Whether one of the entry's sources is excluded.
pub fn has_excluded_source(entry: &Anime, excluded: &StringHashSet) -> (found: bool)
    ensures
        found == is_excluded(entry@, excluded@),
{
    let mut i: usize = 0;
    while i < entry.sources.len()
        invariant
            i <= entry.sources.len(),
            forall|k: int| 0 <= k < i ==> !excluded@.contains(#[trigger] entry@.sources[k]),
        decreases entry.sources.len() - i,
    {
        if excluded.contains(entry.sources[i].as_str()) {
            assert(excluded@.contains(entry@.sources[i as int]));
            return true;
        }
        i += 1;
    }
    false
}

/// Gathers the tags of all entries, as often as they occur.
fn gather_tags(root: &Root) -> (gathered: Vec<String>)
    ensures
        forall|tag: Seq<char>| gathered.deep_view().contains(tag) <==> all_tags(root@).contains(tag),
{
    let ghost entries = root@;
    let mut gathered: Vec<String> = Vec::new();
    let mut i: usize = 0;
    while i < root.data.len()
        invariant
            i <= root.data.len(),
            entries == root@,
            forall|tag: Seq<char>|
                gathered.deep_view().contains(tag) <==> all_tags(entries.take(i as int)).contains(
                    tag,
                ),
        decreases root.data.len() - i,
    {
        let tags = &root.data[i].tags;
        let ghost listed = tags.deep_view();
        assert(entries[i as int].tags == listed);
        assert(listed.take(0) =~= Seq::<Seq<char>>::empty());
        let mut j: usize = 0;
        while j < tags.len()
            invariant
                j <= tags.len(),
                listed == tags.deep_view(),
                forall|tag: Seq<char>|
                    gathered.deep_view().contains(tag) <==> (all_tags(
                        entries.take(i as int),
                    ).contains(tag) || listed.take(j as int).contains(tag)),
            decreases tags.len() - j,
        {
            let ghost before = gathered.deep_view();
            gathered.push(tags[j].clone());
            proof {
                let now = gathered.deep_view();
                let seen = listed.take(j as int);
                let grown = listed.take(j as int + 1);
                assert(now =~= before.push(listed[j as int]));
                assert(grown =~= seen.push(listed[j as int]));
                lemma_push_contains(before, listed[j as int]);
                lemma_push_contains(seen, listed[j as int]);
                assert forall|tag: Seq<char>|
                    now.contains(tag) <==> (all_tags(entries.take(i as int)).contains(tag)
                        || grown.contains(tag)) by {
                    assert(now.contains(tag) <==> (before.contains(tag) || tag == listed[j as int]));
                    assert(grown.contains(tag) <==> (seen.contains(tag) || tag == listed[j as int]));
                }
            }
            j += 1;
        }
        proof {
            let now = gathered.deep_view();
            assert(listed.take(listed.len() as int) =~= listed);
            assert(entries.take(i as int + 1) =~= entries.take(i as int).push(entries[i as int]));
            lemma_all_tags_push(entries.take(i as int), entries[i as int]);
            assert forall|tag: Seq<char>|
                now.contains(tag) <==> all_tags(entries.take(i as int + 1)).contains(tag) by {
                assert(all_tags(entries.take(i as int).push(entries[i as int])).contains(tag) <==> (
                all_tags(entries.take(i as int)).contains(tag) || entries[i as int].tags.contains(
                    tag,
                )));
            }
        }
        i += 1;
    }
    assert(entries.take(entries.len() as int) =~= entries);
    gathered
}

/// Keeps the first of each run of equal texts.
fn drop_repeats(sorted: &Vec<String>) -> (unique: Vec<String>)
    requires
        ascending(sorted.deep_view()),
    ensures
        strictly_ascending(unique.deep_view()),
        forall|text: Seq<char>| unique.deep_view().contains(text) <==> sorted.deep_view().contains(text),
{
    let ghost texts = sorted.deep_view();
    let mut unique: Vec<String> = Vec::new();
    assert(texts.take(0) =~= Seq::<Seq<char>>::empty());
    let mut k: usize = 0;
    while k < sorted.len()
        invariant
            k <= sorted.len(),
            texts == sorted.deep_view(),
            ascending(texts),
            strictly_ascending(unique.deep_view()),
            forall|text: Seq<char>|
                unique.deep_view().contains(text) <==> texts.take(k as int).contains(text),
            k > 0 ==> unique.len() > 0 && unique.deep_view().last() == texts[k - 1],
        decreases sorted.len() - k,
    {
        let ghost before = unique.deep_view();
        let ghost seen = texts.take(k as int);
        let ghost grown = texts.take(k as int + 1);
        proof {
            assert(grown =~= seen.push(texts[k as int]));
            lemma_push_contains(seen, texts[k as int]);
            assert forall|text: Seq<char>|
                grown.contains(text) <==> (seen.contains(text) || text == texts[k as int]) by {
                assert(seen.push(texts[k as int]).contains(text) <==> (seen.contains(text) || text
                    == texts[k as int]));
            }
        }
        if k == 0 || !(sorted[k] == sorted[k - 1]) {
            unique.push(sorted[k].clone());
            proof {
                let now = unique.deep_view();
                assert(now =~= before.push(texts[k as int]));
                lemma_push_contains(before, texts[k as int]);
                assert forall|text: Seq<char>| now.contains(text) <==> grown.contains(text) by {
                    assert(before.push(texts[k as int]).contains(text) <==> (before.contains(text)
                        || text == texts[k as int]));
                }
                assert forall|i: int, j: int| 0 <= i < j < unique.deep_view().len() implies text_lt(
                    unique.deep_view()[i],
                    unique.deep_view()[j],
                ) by {
                    if j == before.len() {
                        assert(before.contains(before[i]));
                        let m = choose|m: int|
                            0 <= m < texts.take(k as int).len() && texts.take(k as int)[m]
                                == before[i];
                        lemma_new_text_is_greater(texts, m, k as int);
                    } else {
                        assert(text_lt(before[i], before[j]));
                    }
                }
            }
        } else {
            proof {
                assert(seen[k - 1] == texts[k as int]);
                assert(seen.contains(texts[k as int]));
            }
        }
        k += 1;
    }
    assert(texts.take(texts.len() as int) =~= texts);
    unique
}

impl Data {
    /// What holds of every catalogue there is.
    #[verifier::type_invariant]
    pub open spec fn is_sound(&self) -> bool {
        self@.wf()
    }

    /// Builds the catalogue from a dataset, the alias document and the
    /// exclusion document.  A malformed document is refused, and then no
    /// catalogue comes into being.
    pub fn new(entries: Vec<Anime>, merge_tags: &str, exclude: &str) -> (r: Result<Data, SearchError>)
        ensures
            match r {
                Ok(data) => {
                    &&& alias_document(merge_tags@) is Some
                    &&& exclusion_document(exclude@) is Some
                    &&& is_normalized(
                        data@.entries,
                        entries.deep_view(),
                        inverted(alias_document(merge_tags@).unwrap()),
                        exclusion_document(exclude@).unwrap().to_set(),
                    )
                    &&& none_excluded(data@.entries, exclusion_document(exclude@).unwrap().to_set())
                    &&& data@.wf()
                },
                Err(e) => {
                    &&& e == SearchError::InvalidDataset
                    &&& (alias_document(merge_tags@) is None || exclusion_document(exclude@) is None)
                },
            },
    {
        let aliases = match load_alias_table(merge_tags) {
            Ok(aliases) => aliases,
            Err(e) => {
                return Err(e);
            },
        };
        let excluded = match load_exclusion_set(exclude) {
            Ok(excluded) => excluded,
            Err(e) => {
                return Err(e);
            },
        };
        Ok(Self::assemble(entries, &aliases, &excluded))
    }

    /// Builds the catalogue from a dataset, the alias groups and the
    /// exclusion list.
    pub fn from_parts(
        entries: Vec<Anime>,
        groups: &Vec<(String, Vec<String>)>,
        exclude: &Vec<String>,
    ) -> (data: Data)
        ensures
            is_normalized(
                data@.entries,
                entries.deep_view(),
                inverted(groups.deep_view()),
                exclude.deep_view().to_set(),
            ),
            none_excluded(data@.entries, exclude.deep_view().to_set()),
            data@.wf(),
    {
        let aliases = AliasTable::from_groups(groups);
        let excluded = exclusion_set(exclude);
        Self::assemble(entries, &aliases, &excluded)
    }

    /// Normalises the entries and lists their tags.
    fn assemble(entries: Vec<Anime>, aliases: &AliasTable, excluded: &StringHashSet) -> (data: Data)
        ensures
            is_normalized(data@.entries, entries.deep_view(), aliases@, excluded@),
            none_excluded(data@.entries, excluded@),
            data@.wf(),
    {
        let root = Self::init_root(entries, aliases, excluded);
        let tags = Self::init_tags(&root);
        Data { data: root, tags }
    }

    /// Normalises a dataset: drops the entries with an excluded source, puts
    /// the others into normal form and orders them by year, latest first.
    pub fn init_root(entries: Vec<Anime>, aliases: &AliasTable, excluded: &StringHashSet) -> (root:
        Root)
        ensures
            is_normalized(root@, entries.deep_view(), aliases@, excluded@),
            years_descending(root@),
            none_excluded(root@, excluded@),
    {
        let ghost raw = entries.deep_view();
        let mut kept: Vec<Anime> = Vec::new();
        assert(raw.take(0) =~= Seq::<AnimeModel>::empty());
        assert(kept.deep_view() =~= retained(raw.take(0), aliases@, excluded@)) by {
            reveal(Seq::filter);
        }
        for entry in it: entries
            invariant
                it.seq().len() == raw.len(),
                forall|k: int| 0 <= k < raw.len() ==> it.seq()[k]@ == raw[k],
                kept.deep_view() == retained(raw.take(it.index() as int), aliases@, excluded@),
        {
            let ghost i = it.index() as int;
            let ghost before = kept.deep_view();
            proof {
                assert(raw.take(i + 1) =~= raw.take(i).push(raw[i]));
                lemma_retained_push(raw.take(i), raw[i], aliases@, excluded@);
            }
            if !has_excluded_source(&entry, excluded) {
                let normal = normalize_entry(entry, aliases);
                kept.push(normal);
                assert(kept.deep_view() =~= before.push(normal_form(raw[i], aliases@)));
            }
        }
        assert(raw.take(raw.len() as int) =~= raw);
        sort_by_year(&mut kept);
        let root = Root { data: kept };
        proof {
            lemma_normalized_keeps_exclusion(root@, raw, aliases@, excluded@);
        }
        root
    }

    /// Lists the tags of the entries, each once, in ascending order.
    pub fn init_tags(root: &Root) -> (tags: Vec<String>)
        ensures
            is_catalog(tags.deep_view(), root@),
    {
        let mut gathered = gather_tags(root);
        let ghost before = gathered.deep_view();
        sort_texts(&mut gathered);
        let tags = drop_repeats(&gathered);
        proof {
            let sorted = gathered.deep_view();
            before.to_multiset_ensures();
            sorted.to_multiset_ensures();
            assert forall|tag: Seq<char>|
                tags.deep_view().contains(tag) <==> all_tags(root@).contains(tag) by {
                assert(sorted.contains(tag) <==> sorted.to_multiset().count(tag) > 0);
                assert(before.contains(tag) <==> before.to_multiset().count(tag) > 0);
            }
        }
        tags
    }

    /// The entries of the catalogue, latest year first.
    pub fn entries(&self) -> (entries: &Vec<Anime>)
        ensures
            entries.deep_view() == self@.entries,
            years_descending(entries.deep_view()),
            self@.wf(),
    {
        proof {
            use_type_invariant(self);
        }
        &self.data.data
    }

    /// The tags of the catalogue, each once, in ascending order.
    pub fn tags(&self) -> (tags: &Vec<String>)
        ensures
            tags.deep_view() == self@.tags,
            is_catalog(tags.deep_view(), self@.entries),
            self@.wf(),
    {
        proof {
            use_type_invariant(self);
        }
        &self.tags
    }
}

/// No entry of a normalised dataset has an excluded source.
pub proof fn lemma_normalized_keeps_exclusion(
    entries: Seq<AnimeModel>,
    raw: Seq<AnimeModel>,
    table: Map<Seq<char>, Seq<char>>,
    excluded: Set<Seq<char>>,
)
    requires
        is_normalized(entries, raw, table, excluded),
    ensures
        none_excluded(entries, excluded),
{
    let kept = raw.filter(is_kept(excluded));
    let source = retained(raw, table, excluded);
    lemma_same_members(entries, source);
    assert forall|i: int| 0 <= i < entries.len() implies !is_excluded(
        #[trigger] entries[i],
        excluded,
    ) by {
        assert(entries.contains(entries[i]));
        assert(source.contains(entries[i]));
        let k = choose|k: int| 0 <= k < source.len() && source[k] == entries[i];
        assert(source[k] == normal_form(kept[k], table));
        raw.lemma_filter_pred(is_kept(excluded), k);
        assert(!is_excluded(kept[k], excluded));
        assert(entries[i].sources == kept[k].sources);
    }
}

/// Every tag of a normalised dataset is canonical, provided that every tag of
/// the raw entries that stay resolves: an alias whose canonical tag is an
/// alias again would be stored half-way.
pub proof fn lemma_normalized_tags_canonical(
    entries: Seq<AnimeModel>,
    raw: Seq<AnimeModel>,
    table: Map<Seq<char>, Seq<char>>,
    excluded: Set<Seq<char>>,
)
    requires
        is_normalized(entries, raw, table, excluded),
        forall|i: int, j: int|
            0 <= i < raw.len() && !is_excluded(raw[i], excluded) && 0 <= j < raw[i].tags.len()
                ==> resolves(table, #[trigger] raw[i].tags[j]),
    ensures
        forall|tag: Seq<char>| all_tags(entries).contains(tag) ==> !table.dom().contains(tag),
{
    let kept = raw.filter(is_kept(excluded));
    let source = retained(raw, table, excluded);
    lemma_same_members(entries, source);
    assert forall|tag: Seq<char>| all_tags(entries).contains(tag) implies !table.dom().contains(
        tag,
    ) by {
        let i = choose|i: int| 0 <= i < entries.len() && (#[trigger] entries[i]).tags.contains(tag);
        assert(entries.contains(entries[i]));
        assert(source.contains(entries[i]));
        let k = choose|k: int| 0 <= k < source.len() && source[k] == entries[i];
        assert(source[k] == normal_form(kept[k], table));
        let stored = canonical_tags(kept[k].tags, table);
        let j = choose|j: int| 0 <= j < stored.len() && stored[j] == tag;
        assert(tag == canonical_of(table, kept[k].tags[j]));
        raw.lemma_filter_pred(is_kept(excluded), k);
        assert(kept.contains(kept[k]));
        raw.lemma_filter_contains_rev(is_kept(excluded), kept[k]);
        let m = choose|m: int| 0 <= m < raw.len() && raw[m] == kept[k];
        assert(resolves(table, raw[m].tags[j]));
    }
}

/// Every tag of the catalogue of a normalised dataset is canonical, under the
/// same proviso.
pub proof fn lemma_catalog_is_canonical(
    tags: Seq<Seq<char>>,
    entries: Seq<AnimeModel>,
    raw: Seq<AnimeModel>,
    table: Map<Seq<char>, Seq<char>>,
    excluded: Set<Seq<char>>,
)
    requires
        is_catalog(tags, entries),
        is_normalized(entries, raw, table, excluded),
        forall|i: int, j: int|
            0 <= i < raw.len() && !is_excluded(raw[i], excluded) && 0 <= j < raw[i].tags.len()
                ==> resolves(table, #[trigger] raw[i].tags[j]),
    ensures
        forall|i: int| 0 <= i < tags.len() ==> !table.dom().contains(#[trigger] tags[i]),
{
    lemma_normalized_tags_canonical(entries, raw, table, excluded);
    assert forall|i: int| 0 <= i < tags.len() implies !table.dom().contains(#[trigger] tags[i]) by {
        assert(tags.contains(tags[i]));
    }
}

/// In a table of which no canonical tag is itself an alias, every tag
/// resolves.
pub proof fn lemma_flat_table_resolves(table: Map<Seq<char>, Seq<char>>, tag: Seq<char>)
    requires
        is_flat(table),
    ensures
        resolves(table, tag),
{
}

} // verus!
