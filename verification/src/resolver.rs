//! Resolving the mods to download, with everything they require.
//!
//! The resolver keeps a queue of identifiers still to look at, the
//! identifiers looked at so far, and the downloads found. It asks for one
//! identifier at a time; whoever drives it queries the version catalog and
//! hands the answer back. An identifier is asked for at most once, so a
//! dependency that leads back to a mod already looked at ends there.

use crate::mods::{ModDownload, ModVersionData};
use crate::text::{chars_of, same_chars, string_views};
use vstd::prelude::*;

verus! {

/// The state of one resolution.
#[derive(Debug)]
pub struct Resolver {
    queue: Vec<String>,
    visited: Vec<String>,
    downloads: Vec<ModDownload>,
    current: Option<String>,
}

/// What a download holds, as plain values: the name and the address.
pub open spec fn download_view(download: ModDownload) -> (Seq<char>, Seq<char>) {
    (download.name@, download.url@)
}

/// The views of a sequence of downloads.
pub open spec fn download_views(downloads: Seq<ModDownload>) -> Seq<(Seq<char>, Seq<char>)> {
    downloads.map_values(|d: ModDownload| download_view(d))
}

/// The names of a sequence of downloads.
pub open spec fn names_of(downloads: Seq<(Seq<char>, Seq<char>)>) -> Seq<Seq<char>> {
    downloads.map_values(|d: (Seq<char>, Seq<char>)| d.0)
}

/// `queue` without the identifiers at its end that were looked at already.
pub open spec fn without_visited_end(queue: Seq<Seq<char>>, visited: Seq<Seq<char>>) -> Seq<
    Seq<char>,
>
    decreases queue.len(),
{
    if queue.len() > 0 && visited.contains(queue.last()) {
        without_visited_end(queue.drop_last(), visited)
    } else {
        queue
    }
}

/// Those of the first `upto` of `ids` that were not looked at yet, in order.
pub open spec fn unvisited(ids: Seq<Seq<char>>, visited: Seq<Seq<char>>, upto: int) -> Seq<
    Seq<char>,
>
    decreases upto,
{
    if upto <= 0 {
        Seq::<Seq<char>>::empty()
    } else if visited.contains(ids[upto - 1]) {
        unvisited(ids, visited, upto - 1)
    } else {
        unvisited(ids, visited, upto - 1).push(ids[upto - 1])
    }
}

/// The view of an optional answer: the address and the identifiers required.
pub open spec fn answer_view(answer: Option<ModVersionData>) -> Option<
    (Seq<char>, Seq<Seq<char>>),
> {
    match answer {
        Some(data) => Some((data.url@, string_views(data.dependencies@))),
        None => None,
    }
}

/// What is left of the queue is a beginning of it, and what was taken off
/// its end had all been looked at.
pub proof fn lemma_without_visited_end(queue: Seq<Seq<char>>, visited: Seq<Seq<char>>)
    ensures
        without_visited_end(queue, visited).is_prefix_of(queue),
        without_visited_end(queue, visited).len() > 0 ==> !visited.contains(
            without_visited_end(queue, visited).last(),
        ),
        forall|k: int|
            without_visited_end(queue, visited).len() <= k < queue.len() ==> visited.contains(
                #[trigger] queue[k],
            ),
    decreases queue.len(),
{
    if queue.len() > 0 && visited.contains(queue.last()) {
        lemma_without_visited_end(queue.drop_last(), visited);
        let rest = without_visited_end(queue.drop_last(), visited);
        assert forall|k: int| rest.len() <= k < queue.len() implies visited.contains(
            #[trigger] queue[k],
        ) by {
            if k < queue.len() - 1 {
                assert(queue.drop_last()[k] == queue[k]);
            }
        }
    }
}

/// Every identifier that `unvisited` keeps is one of `ids` and was not
/// looked at.
pub proof fn lemma_unvisited(ids: Seq<Seq<char>>, visited: Seq<Seq<char>>, upto: int)
    requires
        0 <= upto <= ids.len(),
    ensures
        forall|k: int|
            0 <= k < unvisited(ids, visited, upto).len() ==> ids.take(upto).contains(
                #[trigger] unvisited(ids, visited, upto)[k],
            ) && !visited.contains(unvisited(ids, visited, upto)[k]),
        forall|k: int|
            0 <= k < upto ==> visited.contains(#[trigger] ids[k]) || unvisited(
                ids,
                visited,
                upto,
            ).contains(ids[k]),
    decreases upto,
{
    if upto > 0 {
        lemma_unvisited(ids, visited, upto - 1);
        let now = unvisited(ids, visited, upto);
        let before = unvisited(ids, visited, upto - 1);
        assert forall|k: int| 0 <= k < now.len() implies ids.take(upto).contains(#[trigger] now[k])
            && !visited.contains(now[k]) by {
            if k < before.len() {
                assert(now[k] == before[k]);
                let shorter = ids.take(upto - 1);
                let j = choose|j: int| 0 <= j < shorter.len() && shorter[j] == before[k];
                assert(ids.take(upto)[j] == now[k]);
            } else {
                assert(ids.take(upto)[upto - 1] == now[k]);
            }
        }
        assert forall|k: int| 0 <= k < upto implies visited.contains(#[trigger] ids[k])
            || now.contains(ids[k]) by {
            if k < upto - 1 {
                if before.contains(ids[k]) {
                    let j = choose|j: int| 0 <= j < before.len() && before[j] == ids[k];
                    assert(now[j] == ids[k]);
                }
            } else if !visited.contains(ids[k]) {
                assert(now[now.len() - 1] == ids[k]);
            }
        }
    }
}

/// Tests whether `id` is one of `ids`.
pub fn holds_id(ids: &Vec<String>, id: &str) -> (r: bool)
    ensures
        r == string_views(ids@).contains(id@),
{
    let wanted = chars_of(id);
    let mut k: usize = 0;
    while k < ids.len()
        invariant
            k <= ids.len(),
            wanted@ == id@,
            forall|m: int| 0 <= m < k ==> string_views(ids@)[m] != id@,
        decreases ids.len() - k,
    {
        proof {
            assert(string_views(ids@)[k as int] == ids@[k as int]@);
        }
        if same_chars(&chars_of(ids[k].as_str()), &wanted) {
            proof {
                assert(string_views(ids@)[k as int] == id@);
            }
            return true;
        }
        k += 1;
    }
    proof {
        assert(string_views(ids@).len() == ids@.len());
    }
    false
}

impl Resolver {
    /// The identifiers still to look at; the next one is the last.
    pub closed spec fn queue(&self) -> Seq<Seq<char>> {
        string_views(self.queue@)
    }

    /// The identifiers looked at so far, in the order in which they were asked for.
    pub closed spec fn visited(&self) -> Seq<Seq<char>> {
        string_views(self.visited@)
    }

    /// The downloads found so far, each as name and address.
    pub closed spec fn found(&self) -> Seq<(Seq<char>, Seq<char>)> {
        download_views(self.downloads@)
    }

    /// The identifier that was asked for and is not answered yet.
    pub closed spec fn current(&self) -> Option<Seq<char>> {
        match self.current {
            Some(id) => Some(id@),
            None => None,
        }
    }

    /// What holds of every resolver: no identifier was looked at twice, no
    /// name was found twice, every name found was looked at, and the
    /// identifier not answered yet was looked at and has no download.
    pub open spec fn wf(&self) -> bool {
        &&& self.visited().no_duplicates()
        &&& names_of(self.found()).no_duplicates()
        &&& forall|k: int|
            0 <= k < self.found().len() ==> self.visited().contains(
                #[trigger] names_of(self.found())[k],
            )
        &&& self.current() matches Some(id) ==> self.visited().contains(id) && !names_of(
            self.found(),
        ).contains(id)
    }

    /// Whether nothing is left to do: the queue is empty and nothing is
    /// waiting for its answer.
    pub open spec fn is_finished(&self) -> bool {
        self.queue().len() == 0 && self.current() is None
    }

    /// A resolver that starts from `seeds`; the last seed is looked at first.
    pub fn new(seeds: Vec<String>) -> (r: Resolver)
        ensures
            r.wf(),
            r.queue() == string_views(seeds@),
            r.visited().len() == 0,
            r.found().len() == 0,
            r.current() is None,
    {
        let r = Resolver { queue: seeds, visited: Vec::new(), downloads: Vec::new(), current: None };
        proof {
            assert(names_of(r.found()).len() == 0);
        }
        r
    }

    /// The number of identifiers still in the queue.
    pub fn pending(&self) -> (n: usize)
        ensures
            n == self.queue().len(),
    {
        self.queue.len()
    }

    /// The next identifier to query the version catalog for, or `None`
    /// where the resolution is finished.
    ///
    /// Identifiers that were looked at already are taken off the queue and
    /// passed over. The first one that was not is marked as looked at and
    /// waits for its answer; until `supply` is called it is handed out again.
    pub fn next_request(&mut self) -> (r: Option<String>)
        requires
            old(self).wf(),
        ensures
            final(self).wf(),
            final(self).found() == old(self).found(),
            match old(self).current() {
                Some(id) => {
                    &&& r matches Some(again) && again@ == id
                    &&& final(self).current() == Some(id)
                    &&& final(self).queue() == old(self).queue()
                    &&& final(self).visited() == old(self).visited()
                },
                None => {
                    let rest = without_visited_end(old(self).queue(), old(self).visited());
                    if rest.len() == 0 {
                        &&& r is None
                        &&& final(self).is_finished()
                        &&& final(self).visited() == old(self).visited()
                    } else {
                        &&& r matches Some(id) && id@ == rest.last()
                        &&& final(self).current() == Some(rest.last())
                        &&& final(self).queue() == rest.drop_last()
                        &&& final(self).visited() == old(self).visited().push(rest.last())
                    }
                },
            },
    {
        match &self.current {
            Some(id) => {
                return Some(id.clone());
            },
            None => {},
        }
        let ghost start = self.queue();
        while self.queue.len() > 0
            invariant
                self.wf(),
                self.current() is None,
                old(self).current() is None,
                start == old(self).queue(),
                self.visited() == old(self).visited(),
                self.found() == old(self).found(),
                without_visited_end(self.queue(), self.visited()) == without_visited_end(
                    start,
                    self.visited(),
                ),
            decreases self.queue.len(),
        {
            let ghost before = self.queue();
            let id = self.queue.pop().unwrap();
            proof {
                assert(self.queue() =~= before.drop_last());
                assert(before.last() == id@);
            }
            if !holds_id(&self.visited, id.as_str()) {
                let ghost seen = self.visited();
                let copy = id.clone();
                let ghost asked = id@;
                self.current = Some(id.clone());
                self.visited.push(id);
                proof {
                    assert(copy@ == asked);
                    assert(without_visited_end(before, seen) == before);
                    assert(self.visited() =~= seen.push(copy@));
                    assert(names_of(self.found()).len() == self.found().len());
                    assert forall|k: int| 0 <= k < self.found().len() implies self.visited().contains(
                        #[trigger] names_of(self.found())[k],
                    ) by {
                        let name = names_of(self.found())[k];
                        assert(seen.contains(name));
                        let j = choose|j: int| 0 <= j < seen.len() && seen[j] == name;
                        assert(self.visited()[j] == name);
                    }
                    assert(self.visited()[seen.len() as int] == copy@);
                    if names_of(self.found()).contains(copy@) {
                        let k = choose|k: int|
                            0 <= k < names_of(self.found()).len() && names_of(self.found())[k]
                                == copy@;
                        assert(seen.contains(names_of(self.found())[k]));
                    }
                }
                return Some(copy);
            }
        }
        None
    }

    /// Hands in the answer for the identifier that `next_request` gave out:
    /// `None` where the version catalog has no release that fits.
    ///
    /// An answer adds one download under that identifier, and puts those of
    /// its dependencies that were not looked at yet on the queue. Without an
    /// identifier waiting the call changes nothing.
    pub fn supply(&mut self, answer: Option<ModVersionData>)
        requires
            old(self).wf(),
        ensures
            final(self).wf(),
            final(self).current() is None,
            final(self).visited() == old(self).visited(),
            match (old(self).current(), answer_view(answer)) {
                (Some(id), Some((url, deps))) => {
                    &&& final(self).found() == old(self).found().push((id, url))
                    &&& final(self).queue() == old(self).queue() + unvisited(
                        deps,
                        old(self).visited(),
                        deps.len() as int,
                    )
                },
                _ => {
                    &&& final(self).found() == old(self).found()
                    &&& final(self).queue() == old(self).queue()
                },
            },
    {
        let id = match self.current.take() {
            Some(id) => id,
            None => {
                return ;
            },
        };
        let data = match answer {
            Some(data) => data,
            None => {
                return ;
            },
        };
        let ghost found = self.found();
        let ghost deps = string_views(data.dependencies@);
        let ghost queue = self.queue();
        let download = ModDownload { name: id, url: data.url };
        self.downloads.push(download);
        proof {
            assert(self.found() =~= found.push(download_view(download)));
            assert(names_of(self.found()) =~= names_of(found).push(download.name@));
        }
        let mut i: usize = 0;
        proof {
            assert(self.queue() =~= queue + unvisited(deps, self.visited(), 0));
        }
        while i < data.dependencies.len()
            invariant
                i <= data.dependencies.len(),
                self.wf(),
                self.current() is None,
                self.visited() == old(self).visited(),
                self.found() == found.push(download_view(download)),
                deps == string_views(data.dependencies@),
                self.queue() == queue + unvisited(deps, self.visited(), i as int),
            decreases data.dependencies.len() - i,
        {
            let ghost so_far = self.queue();
            proof {
                assert(deps[i as int] == data.dependencies@[i as int]@);
            }
            if !holds_id(&self.visited, data.dependencies[i].as_str()) {
                let dep = data.dependencies[i].clone();
                self.queue.push(dep);
                proof {
                    assert(self.queue() =~= so_far.push(dep@));
                }
            }
            i += 1;
        }
    }

    /// The downloads found so far.
    pub fn downloads(&self) -> (found: &Vec<ModDownload>)
        ensures
            download_views(found@) == self.found(),
    {
        &self.downloads
    }

    /// Ends the resolution and hands out the downloads found.
    pub fn finish(self) -> (found: Vec<ModDownload>)
        ensures
            download_views(found@) == self.found(),
    {
        self.downloads
    }
}

/// A release that the version catalog is known to answer with.
#[derive(Debug)]
pub struct KnownRelease {
    /// The identifier that the catalog is asked for.
    pub id: String,
    /// The address of the release's file.
    pub url: String,
    /// The identifiers of the mods that the release requires.
    pub dependencies: Vec<String>,
}

/// What a known release holds, as plain values: identifier, address and
/// the identifiers required.
pub open spec fn release_view(release: KnownRelease) -> (Seq<char>, Seq<char>, Seq<Seq<char>>) {
    (release.id@, release.url@, string_views(release.dependencies@))
}

/// The views of a sequence of known releases.
pub open spec fn release_views(releases: Seq<KnownRelease>) -> Seq<
    (Seq<char>, Seq<char>, Seq<Seq<char>>),
> {
    releases.map_values(|r: KnownRelease| release_view(r))
}

/// The index of the first release from `from` on that is known for `id`.
pub open spec fn release_index(
    catalog: Seq<(Seq<char>, Seq<char>, Seq<Seq<char>>)>,
    id: Seq<char>,
    from: int,
) -> Option<int>
    decreases catalog.len() - from,
{
    if from < 0 || from >= catalog.len() {
        None
    } else if catalog[from].0 == id {
        Some(from)
    } else {
        release_index(catalog, id, from + 1)
    }
}

/// What the catalog answers for `id`: the address and the identifiers
/// required, or `None` where it knows no release.
pub open spec fn answer_for(catalog: Seq<(Seq<char>, Seq<char>, Seq<Seq<char>>)>, id: Seq<char>)
    -> Option<(Seq<char>, Seq<Seq<char>>)> {
    match release_index(catalog, id, 0) {
        Some(at) => Some((catalog[at].1, catalog[at].2)),
        None => None,
    }
}

/// The identifiers that the catalog's release for `id` requires; none where
/// it knows no release.
pub open spec fn requirements(catalog: Seq<(Seq<char>, Seq<char>, Seq<Seq<char>>)>, id: Seq<char>)
    -> Seq<Seq<char>> {
    match answer_for(catalog, id) {
        Some(answer) => answer.1,
        None => Seq::<Seq<char>>::empty(),
    }
}

/// Whether `found` is a resolution of `seeds` against `catalog`: no name
/// occurs twice; every download is what the catalog answers for its name;
/// every seed that the catalog knows is there, and so is everything known
/// that a download requires; and every download is a seed or is required by
/// a download before it.
pub open spec fn is_resolution(
    seeds: Seq<Seq<char>>,
    catalog: Seq<(Seq<char>, Seq<char>, Seq<Seq<char>>)>,
    found: Seq<(Seq<char>, Seq<char>)>,
) -> bool {
    &&& names_of(found).no_duplicates()
    &&& forall|k: int| 0 <= k < found.len() ==> is_answered(catalog, #[trigger] found[k])
    &&& forall|i: int|
        0 <= i < seeds.len() && answer_for(catalog, #[trigger] seeds[i]) is Some ==> names_of(
            found,
        ).contains(seeds[i])
    &&& forall|k: int, d: Seq<char>|
        0 <= k < found.len() && #[trigger] requirements(catalog, found[k].0).contains(d)
            && answer_for(catalog, d) is Some ==> names_of(found).contains(d)
    &&& forall|k: int| 0 <= k < found.len() ==> #[trigger] is_called_for(seeds, catalog, found, k)
}

/// Whether `download` is what the catalog answers for its name.
pub open spec fn is_answered(
    catalog: Seq<(Seq<char>, Seq<char>, Seq<Seq<char>>)>,
    download: (Seq<char>, Seq<char>),
) -> bool {
    match answer_for(catalog, download.0) {
        Some(answer) => answer.0 == download.1,
        None => false,
    }
}

/// Whether the download at `k` is a seed or is required by a download
/// before it.
pub open spec fn is_called_for(
    seeds: Seq<Seq<char>>,
    catalog: Seq<(Seq<char>, Seq<char>, Seq<Seq<char>>)>,
    found: Seq<(Seq<char>, Seq<char>)>,
    k: int,
) -> bool {
    seeds.contains(found[k].0) || exists|j: int|
        0 <= j < k && #[trigger] requirements(catalog, found[j].0).contains(found[k].0)
}

/// The identifiers that the first `upto` releases of the catalog require,
/// one list after the other.
pub open spec fn all_requirements(
    catalog: Seq<(Seq<char>, Seq<char>, Seq<Seq<char>>)>,
    upto: int,
) -> Seq<Seq<char>>
    decreases upto,
{
    if upto <= 0 {
        Seq::<Seq<char>>::empty()
    } else {
        all_requirements(catalog, upto - 1) + catalog[upto - 1].2
    }
}

/// Every identifier that can ever come up: the seeds and all that the
/// catalog's releases require.
pub open spec fn universe(
    seeds: Seq<Seq<char>>,
    catalog: Seq<(Seq<char>, Seq<char>, Seq<Seq<char>>)>,
) -> Set<Seq<char>> {
    (seeds + all_requirements(catalog, catalog.len() as int)).to_set()
}

/// What a release requires is among all that the catalog's releases require.
pub proof fn lemma_all_requirements(
    catalog: Seq<(Seq<char>, Seq<char>, Seq<Seq<char>>)>,
    upto: int,
    j: int,
    d: Seq<char>,
)
    requires
        0 <= j < upto <= catalog.len(),
        catalog[j].2.contains(d),
    ensures
        all_requirements(catalog, upto).contains(d),
    decreases upto,
{
    let before = all_requirements(catalog, upto - 1);
    let last = catalog[upto - 1].2;
    if j == upto - 1 {
        let at = choose|at: int| 0 <= at < last.len() && last[at] == d;
        assert((before + last)[before.len() + at] == d);
    } else {
        lemma_all_requirements(catalog, upto - 1, j, d);
        let at = choose|at: int| 0 <= at < before.len() && before[at] == d;
        assert((before + last)[at] == d);
    }
}

/// The release found for an identifier is one of the catalog's and is
/// known for that identifier.
pub proof fn lemma_release_index(
    catalog: Seq<(Seq<char>, Seq<char>, Seq<Seq<char>>)>,
    id: Seq<char>,
    from: int,
)
    requires
        0 <= from,
    ensures
        release_index(catalog, id, from) matches Some(at) ==> from <= at < catalog.len()
            && catalog[at].0 == id,
    decreases catalog.len() - from,
{
    if from < catalog.len() && catalog[from].0 != id {
        lemma_release_index(catalog, id, from + 1);
    }
}

/// Every seed and everything that the catalog answers as required is in
/// the universe.
pub proof fn lemma_universe(
    seeds: Seq<Seq<char>>,
    catalog: Seq<(Seq<char>, Seq<char>, Seq<Seq<char>>)>,
)
    ensures
        universe(seeds, catalog).finite(),
        forall|i: int| 0 <= i < seeds.len() ==> universe(seeds, catalog).contains(#[trigger] seeds[i]),
        forall|id: Seq<char>, d: Seq<char>|
            #[trigger] requirements(catalog, id).contains(d) ==> universe(seeds, catalog).contains(
                d,
            ),
{
    let all = all_requirements(catalog, catalog.len() as int);
    vstd::seq_lib::seq_to_set_is_finite(seeds + all);
    assert forall|i: int| 0 <= i < seeds.len() implies universe(seeds, catalog).contains(
        #[trigger] seeds[i],
    ) by {
        assert((seeds + all)[i] == seeds[i]);
    }
    assert forall|id: Seq<char>, d: Seq<char>| #[trigger]
        requirements(catalog, id).contains(d) implies universe(seeds, catalog).contains(d) by {
        lemma_release_index(catalog, id, 0);
        let at = release_index(catalog, id, 0).unwrap();
        lemma_all_requirements(catalog, catalog.len() as int, at, d);
        let k = choose|k: int| 0 <= k < all.len() && all[k] == d;
        assert((seeds + all)[seeds.len() + k] == d);
    }
}

/// A sequence without duplicates whose members all lie in a finite set is
/// no longer than the set is large.
pub proof fn lemma_distinct_within(ids: Seq<Seq<char>>, within: Set<Seq<char>>)
    requires
        ids.no_duplicates(),
        within.finite(),
        forall|i: int| 0 <= i < ids.len() ==> within.contains(#[trigger] ids[i]),
    ensures
        ids.len() <= within.len(),
{
    ids.unique_seq_to_set();
    assert(ids.to_set().subset_of(within)) by {
        assert forall|x: Seq<char>| ids.to_set().contains(x) implies within.contains(x) by {
            let i = choose|i: int| 0 <= i < ids.len() && ids[i] == x;
            assert(within.contains(ids[i]));
        }
    }
    vstd::set_lib::lemma_len_subset(ids.to_set(), within);
}

/// Two resolutions of the same seeds against the same catalog name the
/// same mods: the order in which identifiers are looked at decides the
/// order of the downloads and nothing else.
pub proof fn lemma_resolution_is_unique(
    seeds: Seq<Seq<char>>,
    catalog: Seq<(Seq<char>, Seq<char>, Seq<Seq<char>>)>,
    one: Seq<(Seq<char>, Seq<char>)>,
    other: Seq<(Seq<char>, Seq<char>)>,
)
    requires
        is_resolution(seeds, catalog, one),
        is_resolution(seeds, catalog, other),
    ensures
        names_of(one).to_set() == names_of(other).to_set(),
        one.len() == other.len(),
{
    lemma_resolution_covers(seeds, catalog, one, other, one.len() as int);
    lemma_resolution_covers(seeds, catalog, other, one, other.len() as int);
    assert(names_of(one).to_set() =~= names_of(other).to_set()) by {
        assert forall|x: Seq<char>| names_of(one).to_set().contains(x) implies names_of(
            other,
        ).to_set().contains(x) by {
            let k = choose|k: int| 0 <= k < names_of(one).len() && names_of(one)[k] == x;
            assert(names_of(other).contains(one[k].0));
        }
        assert forall|x: Seq<char>| names_of(other).to_set().contains(x) implies names_of(
            one,
        ).to_set().contains(x) by {
            let k = choose|k: int| 0 <= k < names_of(other).len() && names_of(other)[k] == x;
            assert(names_of(one).contains(other[k].0));
        }
    }
    names_of(one).unique_seq_to_set();
    names_of(other).unique_seq_to_set();
}

/// Each of the first `upto` downloads of one resolution is named in every
/// other resolution of the same seeds against the same catalog.
pub proof fn lemma_resolution_covers(
    seeds: Seq<Seq<char>>,
    catalog: Seq<(Seq<char>, Seq<char>, Seq<Seq<char>>)>,
    one: Seq<(Seq<char>, Seq<char>)>,
    other: Seq<(Seq<char>, Seq<char>)>,
    upto: int,
)
    requires
        is_resolution(seeds, catalog, one),
        is_resolution(seeds, catalog, other),
        0 <= upto <= one.len(),
    ensures
        forall|k: int| 0 <= k < upto ==> names_of(other).contains((#[trigger] one[k]).0),
    decreases upto,
{
    if upto > 0 {
        lemma_resolution_covers(seeds, catalog, one, other, upto - 1);
        let last = upto - 1;
        let name = one[last].0;
        assert(is_answered(catalog, one[last]));
        assert(answer_for(catalog, name) is Some);
        assert(is_called_for(seeds, catalog, one, last));
        if seeds.contains(name) {
            let i = choose|i: int| 0 <= i < seeds.len() && seeds[i] == name;
            assert(answer_for(catalog, seeds[i]) is Some);
        } else {
            let j = choose|j: int|
                0 <= j < last && #[trigger] requirements(catalog, one[j].0).contains(name);
            assert(names_of(other).contains(one[j].0));
            let m = choose|m: int| 0 <= m < names_of(other).len() && names_of(other)[m] == one[j].0;
            assert(other[m].0 == one[j].0);
            assert(requirements(catalog, other[m].0).contains(name));
        }
    }
}

/// What the catalog answers for `id`.
pub fn known_answer(catalog: &Vec<KnownRelease>, id: &str) -> (r: Option<ModVersionData>)
    ensures
        answer_view(r) == answer_for(release_views(catalog@), id@),
{
    let wanted = chars_of(id);
    let ghost views = release_views(catalog@);
    let mut i: usize = 0;
    while i < catalog.len()
        invariant
            i <= catalog.len(),
            wanted@ == id@,
            views == release_views(catalog@),
            release_index(views, id@, 0) == release_index(views, id@, i as int),
        decreases catalog.len() - i,
    {
        proof {
            assert(views[i as int] == release_view(catalog@[i as int]));
        }
        if same_chars(&chars_of(catalog[i].id.as_str()), &wanted) {
            return Some(
                ModVersionData {
                    url: catalog[i].url.clone(),
                    dependencies: crate::text::copy_strings(&catalog[i].dependencies),
                },
            );
        }
        i += 1;
    }
    None
}

/// Resolves `seeds` against a catalog whose answers are known beforehand,
/// and returns the downloads in the order in which they were found.
///
/// Every identifier is looked at once at most, so the resolution ends
/// whatever the releases require of each other.
pub fn get_mod_download_urls(seeds: Vec<String>, catalog: &Vec<KnownRelease>) -> (found: Vec<
    ModDownload,
>)
    ensures
        is_resolution(string_views(seeds@), release_views(catalog@), download_views(found@)),
{
    let ghost start = string_views(seeds@);
    let ghost known = release_views(catalog@);
    let ghost all = universe(start, known);
    let mut resolver = Resolver::new(seeds);
    proof {
        lemma_universe(start, known);
        lemma_distinct_within(resolver.visited(), all);
        assert(names_of(resolver.found()).len() == 0);
        assert forall|i: int| 0 <= i < start.len() implies resolver.visited().contains(
            #[trigger] start[i],
        ) || resolver.queue().contains(start[i]) by {
            assert(resolver.queue()[i] == start[i]);
        }
    }
    loop
        invariant
            resolver.wf(),
            resolver.current() is None,
            all == universe(start, known),
            known == release_views(catalog@),
            all.finite(),
            resolver.visited().len() <= all.len(),
            forall|i: int| 0 <= i < start.len() ==> all.contains(#[trigger] start[i]),
            forall|id: Seq<char>, d: Seq<char>| #[trigger]
                requirements(known, id).contains(d) ==> all.contains(d),
            forall|i: int|
                0 <= i < resolver.queue().len() ==> all.contains(#[trigger] resolver.queue()[i]),
            forall|i: int|
                0 <= i < resolver.visited().len() ==> all.contains(
                    #[trigger] resolver.visited()[i],
                ),
            forall|k: int|
                0 <= k < resolver.found().len() ==> is_answered(
                    known,
                    #[trigger] resolver.found()[k],
                ),
            forall|i: int|
                0 <= i < resolver.visited().len() && answer_for(
                    known,
                    #[trigger] resolver.visited()[i],
                ) is Some ==> names_of(resolver.found()).contains(resolver.visited()[i]),
            forall|i: int|
                0 <= i < start.len() ==> resolver.visited().contains(#[trigger] start[i])
                    || resolver.queue().contains(start[i]),
            forall|k: int, d: Seq<char>|
                0 <= k < resolver.found().len() && #[trigger] requirements(
                    known,
                    resolver.found()[k].0,
                ).contains(d) ==> resolver.visited().contains(d) || resolver.queue().contains(d),
            forall|i: int|
                0 <= i < resolver.queue().len() ==> #[trigger] is_wanted(
                    start,
                    known,
                    resolver.found(),
                    resolver.queue()[i],
                ),
            forall|k: int|
                0 <= k < resolver.found().len() ==> #[trigger] is_called_for(
                    start,
                    known,
                    resolver.found(),
                    k,
                ),
        ensures
            resolver.wf(),
            resolver.is_finished(),
            is_resolution(start, known, resolver.found()),
        decreases all.len() - resolver.visited().len(),
    {
        let ghost queue0 = resolver.queue();
        let ghost visited0 = resolver.visited();
        let ghost found0 = resolver.found();
        let id = match resolver.next_request() {
            Some(id) => id,
            None => {
                proof {
                    lemma_without_visited_end(queue0, visited0);
                    let found = resolver.found();
                    assert forall|i: int|
                        0 <= i < start.len() && answer_for(known, #[trigger] start[i])
                            is Some implies names_of(found).contains(start[i]) by {
                        lemma_queue_member_visited(queue0, visited0, start[i]);
                        let v = choose|v: int| 0 <= v < visited0.len() && visited0[v] == start[i];
                        assert(names_of(found).contains(visited0[v]));
                    }
                    assert forall|k: int, d: Seq<char>|
                        0 <= k < found.len() && #[trigger] requirements(known, found[k].0).contains(
                            d,
                        ) && answer_for(known, d) is Some implies names_of(found).contains(d) by {
                        lemma_queue_member_visited(queue0, visited0, d);
                        let v = choose|v: int| 0 <= v < visited0.len() && visited0[v] == d;
                        assert(names_of(found).contains(visited0[v]));
                    }
                }
                break ;
            },
        };
        let ghost rest = without_visited_end(queue0, visited0);
        let ghost queue1 = resolver.queue();
        let ghost visited1 = resolver.visited();
        let answer = known_answer(catalog, id.as_str());
        let ghost reply = answer_view(answer);
        resolver.supply(answer);
        proof {
            let queue2 = resolver.queue();
            let found2 = resolver.found();
            let asked = rest.last();
            lemma_without_visited_end(queue0, visited0);
            assert(queue0.contains(asked)) by {
                assert(queue0[rest.len() - 1] == asked);
            }
            let asked_at = choose|i: int| 0 <= i < queue0.len() && queue0[i] == asked;
            assert(all.contains(queue0[asked_at]));
            assert(is_wanted(start, known, found0, queue0[asked_at]));
            // What was in the queue or looked at still is, or was looked at now.
            assert forall|x: Seq<char>|
                visited0.contains(x) || queue0.contains(x) implies visited1.contains(x)
                || queue1.contains(x) by {
                lemma_step_keeps(queue0, visited0, x);
            }
            assert forall|x: Seq<char>| queue1.contains(x) implies #[trigger] queue2.contains(
                x,
            ) by {
                let i = choose|i: int| 0 <= i < queue1.len() && queue1[i] == x;
                assert(queue2[i] == x);
            }
            assert forall|i: int| 0 <= i < visited1.len() implies all.contains(
                #[trigger] visited1[i],
            ) by {
                if i < visited0.len() {
                    assert(visited1[i] == visited0[i]);
                }
            }
            lemma_distinct_within(visited1, all);
            match reply {
                Some((url, deps)) => {
                    let fresh = unvisited(deps, visited1, deps.len() as int);
                    lemma_unvisited(deps, visited1, deps.len() as int);
                    assert(deps.take(deps.len() as int) == deps);
                    assert(requirements(known, asked) == deps);
                    assert(found2[found0.len() as int] == (asked, url));
                    assert forall|i: int| 0 <= i < queue2.len() implies all.contains(
                        #[trigger] queue2[i],
                    ) && is_wanted(start, known, found2, queue2[i]) by {
                        if i < queue1.len() {
                            assert(queue2[i] == queue1[i]);
                            assert(queue1[i] == queue0[i]);
                            assert(is_wanted(start, known, found0, queue0[i]));
                            lemma_wanted_grows(start, known, found0, found2, queue0[i]);
                        } else {
                            let d = fresh[i - queue1.len()];
                            assert(queue2[i] == d);
                            assert(deps.contains(d));
                            assert(requirements(known, found2[found0.len() as int].0).contains(d));
                        }
                    }
                    assert forall|k: int| 0 <= k < found2.len() implies is_answered(
                        known,
                        #[trigger] found2[k],
                    ) by {
                        if k < found0.len() {
                            assert(found2[k] == found0[k]);
                        }
                    }
                    assert(names_of(found2) =~= names_of(found0).push(asked));
                    assert forall|i: int|
                        0 <= i < visited1.len() && answer_for(known, #[trigger] visited1[i])
                            is Some implies names_of(found2).contains(visited1[i]) by {
                        if i < visited0.len() {
                            assert(visited1[i] == visited0[i]);
                            let k = choose|k: int|
                                0 <= k < names_of(found0).len() && names_of(found0)[k]
                                    == visited0[i];
                            assert(names_of(found2)[k] == visited1[i]);
                        } else {
                            assert(names_of(found2)[found0.len() as int] == asked);
                        }
                    }
                    assert forall|k: int, d: Seq<char>|
                        0 <= k < found2.len() && #[trigger] requirements(
                            known,
                            found2[k].0,
                        ).contains(d) implies visited1.contains(d) || queue2.contains(d) by {
                        if k < found0.len() {
                            assert(found2[k] == found0[k]);
                            assert(visited0.contains(d) || queue0.contains(d));
                        } else {
                            let at = choose|at: int| 0 <= at < deps.len() && deps[at] == d;
                            if !visited1.contains(d) {
                                assert(fresh.contains(deps[at]));
                                let f = choose|f: int| 0 <= f < fresh.len() && fresh[f] == d;
                                assert(queue2[queue1.len() + f] == d);
                            }
                        }
                    }
                    assert forall|k: int| 0 <= k < found2.len() implies #[trigger] is_called_for(
                        start,
                        known,
                        found2,
                        k,
                    ) by {
                        if k < found0.len() {
                            assert(is_called_for(start, known, found0, k));
                            assert(found2[k] == found0[k]);
                            if !start.contains(found0[k].0) {
                                let j = choose|j: int|
                                    0 <= j < k && #[trigger] requirements(
                                        known,
                                        found0[j].0,
                                    ).contains(found0[k].0);
                                assert(found2[j] == found0[j]);
                            }
                        } else {
                            if !start.contains(asked) {
                                let j = choose|j: int|
                                    0 <= j < found0.len() && #[trigger] requirements(
                                        known,
                                        found0[j].0,
                                    ).contains(asked);
                                assert(found2[j] == found0[j]);
                            }
                        }
                    }
                },
                None => {
                    assert(found2 == found0);
                    assert(queue2 == queue1);
                    assert forall|i: int| 0 <= i < queue2.len() implies all.contains(
                        #[trigger] queue2[i],
                    ) && is_wanted(start, known, found2, queue2[i]) by {
                        assert(queue1[i] == queue0[i]);
                        assert(is_wanted(start, known, found0, queue0[i]));
                    }
                    assert forall|i: int|
                        0 <= i < visited1.len() && answer_for(known, #[trigger] visited1[i])
                            is Some implies names_of(found2).contains(visited1[i]) by {
                        if i < visited0.len() {
                            assert(visited1[i] == visited0[i]);
                        }
                    }
                },
            }
        }
    }
    resolver.finish()
}

/// Whether the identifier `id` has a reason to be looked at: it is a seed
/// or a download requires it.
pub open spec fn is_wanted(
    seeds: Seq<Seq<char>>,
    catalog: Seq<(Seq<char>, Seq<char>, Seq<Seq<char>>)>,
    found: Seq<(Seq<char>, Seq<char>)>,
    id: Seq<char>,
) -> bool {
    seeds.contains(id) || exists|j: int|
        0 <= j < found.len() && #[trigger] requirements(catalog, found[j].0).contains(id)
}

/// An identifier that has a reason to be looked at keeps it when downloads
/// are added.
pub proof fn lemma_wanted_grows(
    seeds: Seq<Seq<char>>,
    catalog: Seq<(Seq<char>, Seq<char>, Seq<Seq<char>>)>,
    found: Seq<(Seq<char>, Seq<char>)>,
    more: Seq<(Seq<char>, Seq<char>)>,
    id: Seq<char>,
)
    requires
        is_wanted(seeds, catalog, found, id),
        found.is_prefix_of(more),
    ensures
        is_wanted(seeds, catalog, more, id),
{
    if !seeds.contains(id) {
        let j = choose|j: int|
            0 <= j < found.len() && #[trigger] requirements(catalog, found[j].0).contains(id);
        assert(more[j] == found[j]);
    }
}

/// With nothing left in the queue that was not looked at, every member of
/// the queue was looked at.
pub proof fn lemma_queue_member_visited(
    queue: Seq<Seq<char>>,
    visited: Seq<Seq<char>>,
    id: Seq<char>,
)
    requires
        without_visited_end(queue, visited).len() == 0,
        visited.contains(id) || queue.contains(id),
    ensures
        visited.contains(id),
{
    lemma_without_visited_end(queue, visited);
    if queue.contains(id) {
        let i = choose|i: int| 0 <= i < queue.len() && queue[i] == id;
        assert(visited.contains(queue[i]));
    }
}

/// Taking the next identifier off the queue loses nothing: what was in the
/// queue or looked at is in the queue or looked at afterwards.
pub proof fn lemma_step_keeps(queue: Seq<Seq<char>>, visited: Seq<Seq<char>>, id: Seq<char>)
    requires
        without_visited_end(queue, visited).len() > 0,
        visited.contains(id) || queue.contains(id),
    ensures
        visited.push(without_visited_end(queue, visited).last()).contains(id)
            || without_visited_end(queue, visited).drop_last().contains(id),
{
    let rest = without_visited_end(queue, visited);
    let after = visited.push(rest.last());
    lemma_without_visited_end(queue, visited);
    if visited.contains(id) {
        let v = choose|v: int| 0 <= v < visited.len() && visited[v] == id;
        assert(after[v] == id);
    } else {
        let i = choose|i: int| 0 <= i < queue.len() && queue[i] == id;
        if i >= rest.len() {
            assert(visited.contains(queue[i]));
        } else if i == rest.len() - 1 {
            assert(after[visited.len() as int] == id);
        } else {
            assert(rest.drop_last()[i] == id);
        }
    }
}


} // verus!
