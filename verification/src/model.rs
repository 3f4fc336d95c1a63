//! The catalogue's records and the shape of a query, each with the
//! mathematical value that contracts speak of.

use vstd::prelude::*;

verus! {

/// The season in which an entry was released.
#[derive(Debug, PartialEq, Eq)]
pub struct AnimeSeason {
    pub season: String,
    pub year: Option<i64>,
}

/// One entry of the catalogue.
#[derive(Debug, PartialEq, Eq)]
pub struct Anime {
    pub sources: Vec<String>,
    pub title: String,
    pub typ: String,
    pub episodes: i64,
    pub status: String,
    pub anime_season: AnimeSeason,
    pub picture: String,
    pub thumbnail: String,
    pub synonyms: Vec<String>,
    pub relations: Vec<String>,
    pub tags: Vec<String>,
}

/// The entries of a dataset, in order.
#[derive(Debug, PartialEq, Eq)]
pub struct Root {
    pub data: Vec<Anime>,
}

/// One test of a criterion group: a value, and whether the test is negated.
#[derive(Debug, PartialEq, Eq)]
pub struct SearchItem {
    pub value: String,
    pub not: bool,
}

/// The criteria for one field.  With `or` set one criterion has to hold,
/// otherwise all of them.
#[derive(Debug, PartialEq, Eq)]
pub struct SearchArr {
    pub items: Vec<SearchItem>,
    pub or: bool,
}

/// How an entry's episode count is compared with the number of a query.
#[derive(Debug, Clone, Copy, PartialEq, Eq, Structural)]
pub enum Operation {
    Bigger,
    Smaller,
    BiggerEq,
    SmallerEq,
    Eq,
}

/// The episode filter of a query.
#[derive(Debug, Clone, Copy, PartialEq, Eq)]
pub struct SearchEpisode {
    pub number: i64,
    pub operation: Operation,
}

/// A query: one criterion group per field, a title and an episode filter.
#[derive(Debug, PartialEq, Eq)]
pub struct Search {
    pub typ: SearchArr,
    pub tag: SearchArr,
    pub status: SearchArr,
    pub title: String,
    pub episodes: SearchEpisode,
}

/// What an `AnimeSeason` stands for.
pub struct SeasonModel {
    pub season: Seq<char>,
    pub year: Option<int>,
}

/// What an `Anime` stands for.
pub struct AnimeModel {
    pub sources: Seq<Seq<char>>,
    pub title: Seq<char>,
    pub typ: Seq<char>,
    pub episodes: int,
    pub status: Seq<char>,
    pub anime_season: SeasonModel,
    pub picture: Seq<char>,
    pub thumbnail: Seq<char>,
    pub synonyms: Seq<Seq<char>>,
    pub relations: Seq<Seq<char>>,
    pub tags: Seq<Seq<char>>,
}

/// What a `SearchItem` stands for.
pub struct ItemModel {
    pub value: Seq<char>,
    pub not: bool,
}

/// What a `SearchArr` stands for.
pub struct GroupModel {
    pub items: Seq<ItemModel>,
    pub or: bool,
}

/// What a `SearchEpisode` stands for.
pub struct EpisodeModel {
    pub number: int,
    pub operation: Operation,
}

/// What a `Search` stands for.
pub struct SearchModel {
    pub typ: GroupModel,
    pub tag: GroupModel,
    pub status: GroupModel,
    pub title: Seq<char>,
    pub episodes: EpisodeModel,
}

impl View for AnimeSeason {
    type V = SeasonModel;

    open spec fn view(&self) -> SeasonModel {
        SeasonModel {
            season: self.season@,
            year: match self.year {
                Some(y) => Some(y as int),
                None => None,
            },
        }
    }
}

impl DeepView for AnimeSeason {
    type V = SeasonModel;

    open spec fn deep_view(&self) -> SeasonModel {
        self@
    }
}

impl View for Anime {
    type V = AnimeModel;

    open spec fn view(&self) -> AnimeModel {
        AnimeModel {
            sources: self.sources.deep_view(),
            title: self.title@,
            typ: self.typ@,
            episodes: self.episodes as int,
            status: self.status@,
            anime_season: self.anime_season@,
            picture: self.picture@,
            thumbnail: self.thumbnail@,
            synonyms: self.synonyms.deep_view(),
            relations: self.relations.deep_view(),
            tags: self.tags.deep_view(),
        }
    }
}

impl DeepView for Anime {
    type V = AnimeModel;

    open spec fn deep_view(&self) -> AnimeModel {
        self@
    }
}

impl View for Root {
    type V = Seq<AnimeModel>;

    open spec fn view(&self) -> Seq<AnimeModel> {
        self.data.deep_view()
    }
}

impl View for SearchItem {
    type V = ItemModel;

    open spec fn view(&self) -> ItemModel {
        ItemModel { value: self.value@, not: self.not }
    }
}

impl DeepView for SearchItem {
    type V = ItemModel;

    open spec fn deep_view(&self) -> ItemModel {
        self@
    }
}

impl View for SearchArr {
    type V = GroupModel;

    open spec fn view(&self) -> GroupModel {
        GroupModel { items: self.items.deep_view(), or: self.or }
    }
}

impl View for SearchEpisode {
    type V = EpisodeModel;

    open spec fn view(&self) -> EpisodeModel {
        EpisodeModel { number: self.number as int, operation: self.operation }
    }
}

impl View for Search {
    type V = SearchModel;

    open spec fn view(&self) -> SearchModel {
        SearchModel {
            typ: self.typ@,
            tag: self.tag@,
            status: self.status@,
            title: self.title@,
            episodes: self.episodes@,
        }
    }
}

/// Copies a list of texts.
pub fn clone_texts(texts: &Vec<String>) -> (copy: Vec<String>)
    ensures
        copy.deep_view() == texts.deep_view(),
{
    let mut copy: Vec<String> = Vec::new();
    let mut i: usize = 0;
    while i < texts.len()
        invariant
            i <= texts.len(),
            copy.deep_view() == texts.deep_view().take(i as int),
        decreases texts.len() - i,
    {
        let ghost before = copy.deep_view();
        copy.push(texts[i].clone());
        assert(texts.deep_view().take(i as int + 1) =~= before.push(texts.deep_view()[i as int]));
        i += 1;
    }
    copy
}

impl Clone for AnimeSeason {
    fn clone(&self) -> (copy: Self)
        ensures
            copy@ == self@,
    {
        AnimeSeason { season: self.season.clone(), year: self.year }
    }
}

impl Clone for Anime {
    fn clone(&self) -> (copy: Self)
        ensures
            copy@ == self@,
    {
        Anime {
            sources: clone_texts(&self.sources),
            title: self.title.clone(),
            typ: self.typ.clone(),
            episodes: self.episodes,
            status: self.status.clone(),
            anime_season: self.anime_season.clone(),
            picture: self.picture.clone(),
            thumbnail: self.thumbnail.clone(),
            synonyms: clone_texts(&self.synonyms),
            relations: clone_texts(&self.relations),
            tags: clone_texts(&self.tags),
        }
    }
}

impl Clone for SearchItem {
    fn clone(&self) -> (copy: Self)
        ensures
            copy@ == self@,
    {
        SearchItem { value: self.value.clone(), not: self.not }
    }
}

impl Clone for SearchArr {
    fn clone(&self) -> (copy: Self)
        ensures
            copy@ == self@,
    {
        let mut items: Vec<SearchItem> = Vec::new();
        let mut i: usize = 0;
        while i < self.items.len()
            invariant
                i <= self.items.len(),
                items.deep_view() == self.items.deep_view().take(i as int),
            decreases self.items.len() - i,
        {
            let ghost before = items.deep_view();
            items.push(self.items[i].clone());
            assert(self.items.deep_view().take(i as int + 1) =~= before.push(
                self.items.deep_view()[i as int],
            ));
            i += 1;
        }
        assert(self.items.deep_view().take(self.items.len() as int) =~= self.items.deep_view());
        SearchArr { items, or: self.or }
    }
}

impl Clone for Search {
    fn clone(&self) -> (copy: Self)
        ensures
            copy@ == self@,
    {
        Search {
            typ: self.typ.clone(),
            tag: self.tag.clone(),
            status: self.status.clone(),
            title: self.title.clone(),
            episodes: self.episodes,
        }
    }
}

impl SeasonModel {
    /// The year by which entries are ordered: a missing year counts as 0.
    pub open spec fn year_or_zero(self) -> int {
        match self.year {
            Some(y) => y,
            None => 0,
        }
    }
}

impl AnimeModel {
    /// The year by which this entry is ordered.
    pub open spec fn year_or_zero(self) -> int {
        self.anime_season.year_or_zero()
    }
}

impl AnimeSeason {
    /// The year by which entries are ordered: a missing year counts as 0.
    pub fn year_or_zero(&self) -> (y: i64)
        ensures
            y == self@.year_or_zero(),
    {
        match self.year {
            Some(y) => y,
            None => 0,
        }
    }
}

} // verus!
