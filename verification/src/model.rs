//! Data model: rating observations, per-category histories, and the stored
//! record for one tracked player.

use vstd::prelude::*;

verus! {

/// Inclusive bounds on rating values the merge policy accepts.
///
/// Values are compared in a 64-bit order-preserving encoding chosen by the
/// caller; the library relies only on the `u64` ordering of that encoding.
#[derive(Clone, Copy, PartialEq, Eq, Structural, Debug)]
pub struct Bounds {
    pub min: u64,
    pub max: u64,
}

impl Bounds {
    /// A value is accepted when it lies inside the configured bounds.
    pub open spec fn spec_accepts(self, value: u64) -> bool {
        self.min <= value && value <= self.max
    }

    pub fn accepts(&self, value: u64) -> (r: bool)
        ensures
            r == self.spec_accepts(value),
    {
        self.min <= value && value <= self.max
    }
}

/// One timestamped rating value within a category's history.
#[derive(Clone, Copy, PartialEq, Eq, Structural, Debug)]
pub struct Observation {
    pub time: u64,
    pub value: u64,
}

/// The ordered observation sequence of one named category.
#[derive(Debug)]
pub struct CategoryHistory {
    pub name: String,
    pub observations: Vec<Observation>,
}

/// A rating history: for each category name, its observation sequence.
///
/// Stored as an association list; `wf()` demands that names are distinct, so
/// the list denotes the map `as_map()`.
#[derive(Debug)]
pub struct RatingHistory {
    pub categories: Vec<CategoryHistory>,
}

/// The map denoted by a sequence of named categories (later entries win,
/// though under `distinct_names` the order is immaterial).
pub open spec fn map_of(s: Seq<CategoryHistory>) -> Map<Seq<char>, Seq<Observation>>
    decreases s.len(),
{
    if s.len() == 0 {
        Map::empty()
    } else {
        map_of(s.drop_last()).insert(s.last().name@, s.last().observations@)
    }
}

/// No two categories share a name.
pub open spec fn distinct_names(s: Seq<CategoryHistory>) -> bool {
    forall|i: int, j: int| 0 <= i < j < s.len() ==> s[i].name@ != s[j].name@
}

/// The domain of `map_of(s)` is exactly the set of names occurring in `s`.
pub proof fn lemma_map_of_dom(s: Seq<CategoryHistory>, k: Seq<char>)
    ensures
        map_of(s).dom().contains(k) <==> exists|i: int| 0 <= i < s.len() && s[i].name@ == k,
    decreases s.len(),
{
    if s.len() > 0 {
        lemma_map_of_dom(s.drop_last(), k);
        if s.last().name@ == k {
            assert(s[s.len() - 1].name@ == k);
        } else if map_of(s).dom().contains(k) {
            let i = choose|i: int| 0 <= i < s.drop_last().len() && s.drop_last()[i].name@ == k;
            assert(s[i].name@ == k);
        } else if exists|i: int| 0 <= i < s.len() && s[i].name@ == k {
            let i = choose|i: int| 0 <= i < s.len() && s[i].name@ == k;
            assert(s.drop_last()[i].name@ == k);
        }
    }
}

/// Under distinct names, the map sends each listed name to its observations.
pub proof fn lemma_map_of_index(s: Seq<CategoryHistory>, i: int)
    requires
        distinct_names(s),
        0 <= i < s.len(),
    ensures
        map_of(s).dom().contains(s[i].name@),
        map_of(s)[s[i].name@] == s[i].observations@,
    decreases s.len(),
{
    lemma_map_of_dom(s, s[i].name@);
    if i < s.len() - 1 {
        assert(s[i].name@ != s.last().name@);
        assert(s.drop_last()[i] == s[i]);
        lemma_map_of_index(s.drop_last(), i);
    }
}

/// Appending a fresh category inserts its entry into the map.
pub proof fn lemma_map_of_push(s: Seq<CategoryHistory>, c: CategoryHistory)
    ensures
        map_of(s.push(c)) == map_of(s).insert(c.name@, c.observations@),
{
    assert(s.push(c).drop_last() =~= s);
    assert(s.push(c).last() == c);
}

/// Replacing the observations of category `i` (keeping its name) updates the
/// map at that name.
pub proof fn lemma_map_of_update(s: Seq<CategoryHistory>, i: int, c: CategoryHistory)
    requires
        distinct_names(s),
        0 <= i < s.len(),
        c.name@ == s[i].name@,
    ensures
        map_of(s.update(i, c)) == map_of(s).insert(c.name@, c.observations@),
    decreases s.len(),
{
    let t = s.update(i, c);
    if i == s.len() - 1 {
        assert(t.drop_last() =~= s.drop_last());
        assert(t.last() == c);
    } else {
        assert(t.drop_last() =~= s.drop_last().update(i, c));
        assert(t.last() == s.last());
        lemma_map_of_update(s.drop_last(), i, c);
        assert(c.name@ != s.last().name@);
        assert(map_of(t) == map_of(s.drop_last()).insert(c.name@, c.observations@).insert(
            s.last().name@,
            s.last().observations@,
        ));
        assert(map_of(s.drop_last()).insert(c.name@, c.observations@).insert(
            s.last().name@,
            s.last().observations@,
        ) =~= map_of(s).insert(c.name@, c.observations@));
    }
}

impl RatingHistory {
    /// Well-formed: category names are distinct, so the list denotes a map.
    pub open spec fn wf(self) -> bool {
        distinct_names(self.categories@)
    }

    /// The abstract value of the history: category name to observations.
    pub open spec fn as_map(self) -> Map<Seq<char>, Seq<Observation>> {
        map_of(self.categories@)
    }

    pub fn new() -> (r: RatingHistory)
        ensures
            r.wf(),
            r.as_map() == Map::<Seq<char>, Seq<Observation>>::empty(),
    {
        RatingHistory { categories: Vec::new() }
    }

    /// Index of the category with the given name, if one is listed.
    pub fn find(&self, name: &String) -> (r: Option<usize>)
        ensures
            match r {
                Some(i) => i < self.categories@.len() && self.categories@[i as int].name@
                    == name@,
                None => forall|i: int|
                    0 <= i < self.categories@.len() ==> self.categories@[i].name@ != name@,
            },
    {
        let n = self.categories.len();
        for i in 0..n
            invariant
                n == self.categories@.len(),
                forall|j: int| 0 <= j < i ==> self.categories@[j].name@ != name@,
        {
            if self.categories[i].name == *name {
                return Some(i);
            }
        }
        None
    }

    /// Whether the history is well-formed: no category name listed twice.
    /// Callers that obtain a history from outside the library check it here
    /// before handing it to the merge policy.
    pub fn is_wf(&self) -> (r: bool)
        ensures
            r == self.wf(),
    {
        let n = self.categories.len();
        let mut i: usize = 0;
        while i < n
            invariant
                i <= n,
                n == self.categories@.len(),
                forall|a: int, b: int|
                    0 <= a < b < self.categories@.len() && a < i ==> self.categories@[a].name@
                        != self.categories@[b].name@,
            decreases n - i,
        {
            let mut j = i + 1;
            while j < n
                invariant
                    i < j <= n,
                    n == self.categories@.len(),
                    forall|b: int|
                        i < b < j ==> self.categories@[i as int].name@ != self.categories@[b].name@,
                decreases n - j,
            {
                if self.categories[i].name == self.categories[j].name {
                    return false;
                }
                j = j + 1;
            }
            i = i + 1;
        }
        true
    }

    /// Observations of the named category, if present.
    pub fn get(&self, name: &String) -> (r: Option<&Vec<Observation>>)
        requires
            self.wf(),
        ensures
            match r {
                Some(obs) => self.as_map().dom().contains(name@) && obs@ == self.as_map()[name@],
                None => !self.as_map().dom().contains(name@),
            },
    {
        let found = self.find(name);
        proof {
            lemma_map_of_dom(self.categories@, name@);
        }
        match found {
            Some(i) => {
                proof {
                    lemma_map_of_index(self.categories@, i as int);
                }
                Some(&self.categories[i].observations)
            },
            None => None,
        }
    }
}

/// The stored record for one tracked player.
#[derive(Debug)]
pub struct Record {
    /// Normalized identifier: the store's primary key.
    pub key: String,
    /// Most recently observed human-readable name.
    pub display_name: String,
    /// Rating history by category.
    pub history: RatingHistory,
}

impl Record {
    pub open spec fn wf(self) -> bool {
        self.history.wf()
    }
}

} // verus!
