//! The catalog of playable maps and the search in it.
//!
//! A search is case-insensitive. It first looks for the entries whose
//! identifier, name or one tag is the query itself. Only where there is none
//! does it cut the query into keywords at white space and keep the entries
//! in whose identifier, name and tags, taken together, at least one keyword
//! occurs.

use crate::split::{fields, fields_of, join, join_from, Separator};
use crate::text::{
    append_chars, chars_of, chars_of_each, contains_chars, contains_run, copy_strings, same_chars,
    string_of, string_views, vec_views,
};
use vstd::prelude::*;

verus! {

/// One entry of the remote catalog.
#[derive(Debug)]
pub struct GameMap {
    /// The identifier that downloads go by.
    pub id: String,
    /// The name shown to the player.
    pub name: String,
    /// A sentence or two about the map.
    pub description: String,
    /// Free-form tags.
    pub tags: Vec<String>,
    /// The category; `map` for a playable map.
    pub map_type: String,
    /// The game version that the map recommends.
    pub version: String,
}

/// What a catalog entry holds, as plain sequences.
pub struct GameMapView {
    pub id: Seq<char>,
    pub name: Seq<char>,
    pub description: Seq<char>,
    pub tags: Seq<Seq<char>>,
    pub map_type: Seq<char>,
    pub version: Seq<char>,
}

impl View for GameMap {
    type V = GameMapView;

    open spec fn view(&self) -> GameMapView {
        GameMapView {
            id: self.id@,
            name: self.name@,
            description: self.description@,
            tags: string_views(self.tags@),
            map_type: self.map_type@,
            version: self.version@,
        }
    }
}

/// The views of a sequence of catalog entries.
pub open spec fn map_views(maps: Seq<GameMap>) -> Seq<GameMapView> {
    maps.map_values(|m: GameMap| m@)
}

/// The lower-case form of `s` as `str::to_lowercase` gives it.
pub uninterp spec fn lowercase(s: Seq<char>) -> Seq<char>;

/// `str::to_lowercase`: the lower-case form of `s`.
#[verifier::external_body]
fn to_lowercase(s: &str) -> (r: String)
    ensures
        r@ == lowercase(s@),
{
    s.to_lowercase()
}

/// What a search looks at in one catalog entry, all of it in lower case.
#[derive(Debug)]
pub struct SearchKey {
    /// The identifier.
    pub id: Vec<char>,
    /// The name.
    pub name: Vec<char>,
    /// The tags.
    pub tags: Vec<Vec<char>>,
    /// Identifier, name and tags in one line, separated by spaces.
    pub line: Vec<char>,
}

/// What a search key holds, as plain sequences.
pub struct SearchKeyView {
    pub id: Seq<char>,
    pub name: Seq<char>,
    pub tags: Seq<Seq<char>>,
    pub line: Seq<char>,
}

impl View for SearchKey {
    type V = SearchKeyView;

    open spec fn view(&self) -> SearchKeyView {
        SearchKeyView {
            id: self.id@,
            name: self.name@,
            tags: vec_views(self.tags@),
            line: self.line@,
        }
    }
}

/// The views of a sequence of search keys.
pub open spec fn key_views(keys: Seq<SearchKey>) -> Seq<SearchKeyView> {
    keys.map_values(|key: SearchKey| key@)
}

/// Identifier, name and tags of an entry in one line, separated by spaces.
pub open spec fn search_line(m: GameMapView) -> Seq<char> {
    m.id + " "@ + m.name + " "@ + join(m.tags, " "@)
}

/// The search key of the entry `m`.
pub open spec fn key_of(m: GameMapView) -> SearchKeyView {
    SearchKeyView {
        id: lowercase(m.id),
        name: lowercase(m.name),
        tags: m.tags.map_values(|tag: Seq<char>| lowercase(tag)),
        line: lowercase(search_line(m)),
    }
}

/// The search keys of `maps`, one for one.
pub open spec fn keys_of(maps: Seq<GameMap>) -> Seq<SearchKeyView> {
    maps.map_values(|m: GameMap| key_of(m@))
}

/// Whether the query is the identifier, the name or a tag of the entry.
pub open spec fn is_exact_match(key: SearchKeyView, query: Seq<char>) -> bool {
    key.id == query || key.name == query || key.tags.contains(query)
}

/// How many of the first `upto` keywords occur in `line`.
pub open spec fn keyword_score(line: Seq<char>, keywords: Seq<Seq<char>>, upto: int) -> nat
    decreases upto,
{
    if upto <= 0 {
        0
    } else if contains_run(line, keywords[upto - 1]) {
        keyword_score(line, keywords, upto - 1) + 1
    } else {
        keyword_score(line, keywords, upto - 1)
    }
}

/// The keywords of a query: its pieces between white space.
pub open spec fn keywords_of(query: Seq<char>) -> Seq<Seq<char>> {
    fields(query, Separator::Whitespace)
}

/// Whether at least one keyword of the query occurs in the entry's line.
pub open spec fn is_keyword_match(key: SearchKeyView, query: Seq<char>) -> bool {
    keyword_score(key.line, keywords_of(query), keywords_of(query).len() as int) > 0
}

/// The indices among the first `upto` entries that match exactly.
pub open spec fn exact_matches(keys: Seq<SearchKeyView>, query: Seq<char>, upto: int) -> Seq<usize>
    decreases upto,
{
    if upto <= 0 {
        Seq::<usize>::empty()
    } else if is_exact_match(keys[upto - 1], query) {
        exact_matches(keys, query, upto - 1).push((upto - 1) as usize)
    } else {
        exact_matches(keys, query, upto - 1)
    }
}

/// The indices among the first `upto` entries that match by keyword.
pub open spec fn keyword_matches(keys: Seq<SearchKeyView>, query: Seq<char>, upto: int) -> Seq<usize>
    decreases upto,
{
    if upto <= 0 {
        Seq::<usize>::empty()
    } else if is_keyword_match(keys[upto - 1], query) {
        keyword_matches(keys, query, upto - 1).push((upto - 1) as usize)
    } else {
        keyword_matches(keys, query, upto - 1)
    }
}

/// The indices of the entries that a query finds, in catalog order: the
/// exact matches where there is one, the keyword matches otherwise.
pub open spec fn matches_of(keys: Seq<SearchKeyView>, query: Seq<char>) -> Seq<usize> {
    if exact_matches(keys, query, keys.len() as int).len() > 0 {
        exact_matches(keys, query, keys.len() as int)
    } else {
        keyword_matches(keys, query, keys.len() as int)
    }
}

/// Every index in the exact matches is below `upto`.
pub proof fn lemma_exact_matches_bound(keys: Seq<SearchKeyView>, query: Seq<char>, upto: int)
    requires
        0 <= upto <= keys.len() <= usize::MAX,
    ensures
        forall|k: int|
            0 <= k < exact_matches(keys, query, upto).len() ==> 0 <= #[trigger] exact_matches(
                keys,
                query,
                upto,
            )[k] < upto,
    decreases upto,
{
    if upto > 0 {
        lemma_exact_matches_bound(keys, query, upto - 1);
        let now = exact_matches(keys, query, upto);
        let before = exact_matches(keys, query, upto - 1);
        assert forall|k: int| 0 <= k < now.len() implies 0 <= #[trigger] now[k] < upto by {
            if k < before.len() {
                assert(now[k] == before[k]);
            }
        }
    }
}

/// Every index in the keyword matches is below `upto`.
pub proof fn lemma_keyword_matches_bound(keys: Seq<SearchKeyView>, query: Seq<char>, upto: int)
    requires
        0 <= upto <= keys.len() <= usize::MAX,
    ensures
        forall|k: int|
            0 <= k < keyword_matches(keys, query, upto).len() ==> 0 <= #[trigger] keyword_matches(
                keys,
                query,
                upto,
            )[k] < upto,
    decreases upto,
{
    if upto > 0 {
        lemma_keyword_matches_bound(keys, query, upto - 1);
        let now = keyword_matches(keys, query, upto);
        let before = keyword_matches(keys, query, upto - 1);
        assert forall|k: int| 0 <= k < now.len() implies 0 <= #[trigger] now[k] < upto by {
            if k < before.len() {
                assert(now[k] == before[k]);
            }
        }
    }
}

/// Tests whether `needle` is a member of `items`.
fn holds(items: &Vec<Vec<char>>, needle: &Vec<char>) -> (r: bool)
    ensures
        r == vec_views(items@).contains(needle@),
{
    let mut k: usize = 0;
    while k < items.len()
        invariant
            k <= items.len(),
            forall|m: int| 0 <= m < k ==> vec_views(items@)[m] != needle@,
        decreases items.len() - k,
    {
        proof {
            assert(vec_views(items@)[k as int] == items@[k as int]@);
        }
        if same_chars(&items[k], needle) {
            proof {
                assert(vec_views(items@)[k as int] == needle@);
            }
            return true;
        }
        k += 1;
    }
    proof {
        assert(vec_views(items@).len() == items@.len());
    }
    false
}

/// Counts the keywords that occur in `line`.
pub fn score(line: &Vec<char>, keywords: &Vec<Vec<char>>) -> (n: usize)
    ensures
        n == keyword_score(line@, vec_views(keywords@), keywords.len() as int),
{
    let mut n: usize = 0;
    let mut k: usize = 0;
    while k < keywords.len()
        invariant
            k <= keywords.len(),
            n <= k,
            n == keyword_score(line@, vec_views(keywords@), k as int),
        decreases keywords.len() - k,
    {
        proof {
            assert(vec_views(keywords@)[k as int] == keywords@[k as int]@);
        }
        if contains_chars(line, &keywords[k]) {
            n += 1;
        }
        k += 1;
    }
    n
}

/// Finds the entries that the lower-case query `query` matches, by their
/// search keys, and returns their indices in catalog order: the exact
/// matches where there is one, the keyword matches otherwise.
pub fn select_matches(query: &Vec<char>, keys: &Vec<SearchKey>) -> (found: Vec<usize>)
    ensures
        found@ == matches_of(key_views(keys@), query@),
        forall|k: int| 0 <= k < found.len() ==> #[trigger] found[k] < keys.len(),
{
    let mut exact: Vec<usize> = Vec::new();
    let mut i: usize = 0;
    while i < keys.len()
        invariant
            i <= keys.len(),
            exact@ == exact_matches(key_views(keys@), query@, i as int),
        decreases keys.len() - i,
    {
        let key = &keys[i];
        proof {
            assert(key_views(keys@)[i as int] == keys@[i as int]@);
        }
        if same_chars(&key.id, query) || same_chars(&key.name, query) || holds(&key.tags, query) {
            exact.push(i);
        }
        i += 1;
    }
    proof {
        lemma_exact_matches_bound(key_views(keys@), query@, keys.len() as int);
        lemma_keyword_matches_bound(key_views(keys@), query@, keys.len() as int);
    }
    if exact.len() > 0 {
        return exact;
    }
    let keywords = fields_of(query, Separator::Whitespace);
    let mut scored: Vec<usize> = Vec::new();
    let mut i: usize = 0;
    while i < keys.len()
        invariant
            i <= keys.len(),
            vec_views(keywords@) == keywords_of(query@),
            scored@ == keyword_matches(key_views(keys@), query@, i as int),
        decreases keys.len() - i,
    {
        proof {
            assert(vec_views(keywords@).len() == keywords@.len());
            assert(key_views(keys@)[i as int] == keys@[i as int]@);
        }
        if score(&keys[i].line, &keywords) > 0 {
            scored.push(i);
        }
        i += 1;
    }
    scored
}

/// The lower-case form of each member of `items`.
fn lowercase_each(items: &Vec<String>) -> (out: Vec<Vec<char>>)
    ensures
        vec_views(out@) == string_views(items@).map_values(|s: Seq<char>| lowercase(s)),
{
    let ghost lower = |s: Seq<char>| lowercase(s);
    let ghost all = string_views(items@);
    let mut out: Vec<Vec<char>> = Vec::new();
    let mut i: usize = 0;
    proof {
        assert(all.take(0).map_values(lower) =~= Seq::<Seq<char>>::empty());
        assert(vec_views(out@) =~= Seq::<Seq<char>>::empty());
    }
    while i < items.len()
        invariant
            i <= items.len(),
            all == string_views(items@),
            lower == |s: Seq<char>| lowercase(s),
            vec_views(out@) == all.take(i as int).map_values(lower),
        decreases items.len() - i,
    {
        let low = chars_of(to_lowercase(items[i].as_str()).as_str());
        proof {
            assert(all[i as int] == items@[i as int]@);
            assert(all.take(i + 1) == all.take(i as int).push(all[i as int]));
            assert(all.take(i as int).push(all[i as int]).map_values(lower) == all.take(
                i as int,
            ).map_values(lower).push(lower(all[i as int])));
            assert(vec_views(out@.push(low)) == vec_views(out@).push(low@));
        }
        out.push(low);
        i += 1;
    }
    proof {
        assert(all.take(items.len() as int) == all);
    }
    out
}

/// Builds the search key of a catalog entry.
pub fn search_key(map: &GameMap) -> (key: SearchKey)
    ensures
        key@ == key_of(map@),
{
    let space = chars_of(" ");
    let tags = chars_of_each(&map.tags);
    let mut line = chars_of(map.id.as_str());
    append_chars(&mut line, &space);
    append_chars(&mut line, &chars_of(map.name.as_str()));
    append_chars(&mut line, &space);
    let joined = join_from(&tags, 0, &space);
    proof {
        assert(vec_views(tags@).skip(0) == vec_views(tags@));
    }
    append_chars(&mut line, &joined);
    let line = string_of(&line);
    SearchKey {
        id: chars_of(to_lowercase(map.id.as_str()).as_str()),
        name: chars_of(to_lowercase(map.name.as_str()).as_str()),
        tags: lowercase_each(&map.tags),
        line: chars_of(to_lowercase(line.as_str()).as_str()),
    }
}

/// A copy of a catalog entry.
pub fn copy_map(map: &GameMap) -> (out: GameMap)
    ensures
        out@ == map@,
{
    GameMap {
        id: map.id.clone(),
        name: map.name.clone(),
        description: map.description.clone(),
        tags: copy_strings(&map.tags),
        map_type: map.map_type.clone(),
        version: map.version.clone(),
    }
}

/// The entries among the first `upto` whose category is `map`.
pub open spec fn playable(maps: Seq<GameMapView>, upto: int) -> Seq<GameMapView>
    decreases upto,
{
    if upto <= 0 {
        Seq::<GameMapView>::empty()
    } else if maps[upto - 1].map_type == "map"@ {
        playable(maps, upto - 1).push(maps[upto - 1])
    } else {
        playable(maps, upto - 1)
    }
}

/// Keeps the entries of a catalog whose category is `map`, in their order.
pub fn playable_maps(catalog: &Vec<GameMap>) -> (maps: Vec<GameMap>)
    ensures
        map_views(maps@) == playable(map_views(catalog@), catalog.len() as int),
{
    let wanted = chars_of("map");
    let mut maps: Vec<GameMap> = Vec::new();
    let mut i: usize = 0;
    proof {
        assert(map_views(maps@) =~= Seq::<GameMapView>::empty());
    }
    while i < catalog.len()
        invariant
            i <= catalog.len(),
            wanted@ == "map"@,
            map_views(maps@) == playable(map_views(catalog@), i as int),
        decreases catalog.len() - i,
    {
        proof {
            assert(map_views(catalog@)[i as int] == catalog@[i as int]@);
        }
        if same_chars(&chars_of(catalog[i].map_type.as_str()), &wanted) {
            let copy = copy_map(&catalog[i]);
            proof {
                assert(map_views(maps@.push(copy)) == map_views(maps@).push(copy@));
            }
            maps.push(copy);
        }
        i += 1;
    }
    maps
}

/// Searches `maps` for `input`, without regard to case.
///
/// Returns the entries whose identifier, name or one tag is the query
/// itself; where there is none, the entries in which at least one of the
/// query's keywords occurs; `None` where nothing is found. The entries come
/// in catalog order.
pub fn find_maps(input: String, maps: &Vec<GameMap>) -> (r: Option<Vec<GameMap>>)
    ensures
        ({
            let hits = matches_of(keys_of(maps@), lowercase(input@));
            match r {
                Some(found) => {
                    &&& hits.len() > 0
                    &&& found.len() == hits.len()
                    &&& forall|k: int|
                        0 <= k < found.len() ==> hits[k] < maps.len() && (#[trigger] found[k])@
                            == maps[hits[k] as int]@
                },
                None => hits.len() == 0,
            }
        }),
{
    let query = chars_of(to_lowercase(input.as_str()).as_str());
    let mut keys: Vec<SearchKey> = Vec::new();
    let mut i: usize = 0;
    while i < maps.len()
        invariant
            i <= maps.len(),
            keys.len() == i,
            forall|k: int| 0 <= k < i ==> (#[trigger] keys[k])@ == key_of(maps[k]@),
        decreases maps.len() - i,
    {
        keys.push(search_key(&maps[i]));
        i += 1;
    }
    proof {
        assert(key_views(keys@) =~= keys_of(maps@));
    }
    let hits = select_matches(&query, &keys);
    if hits.len() == 0 {
        return None;
    }
    let mut found: Vec<GameMap> = Vec::new();
    let mut k: usize = 0;
    while k < hits.len()
        invariant
            k <= hits.len(),
            found.len() == k,
            keys.len() == maps.len(),
            forall|m: int| 0 <= m < hits.len() ==> #[trigger] hits[m] < keys.len(),
            forall|m: int| 0 <= m < k ==> (#[trigger] found[m])@ == maps[hits[m] as int]@,
        decreases hits.len() - k,
    {
        found.push(copy_map(&maps[hits[k]]));
        k += 1;
    }
    Some(found)
}

} // verus!
