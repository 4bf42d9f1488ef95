//! The namespace prefix map: for each namespace, or for "no namespace", the
//! prefixes that were recorded for it, in the order of recording.

use vstd::prelude::*;
use crate::names::{opt_text, Namespace, Prefix, XML_NAMESPACE};
use crate::text::str_eq;

verus! {

/// What a `NamespacePrefixMap` stands for: the candidate prefixes of each
/// namespace that has any. The key `None` is "no namespace".
pub type PrefixMapView = Map<Option<Seq<char>>, Seq<Seq<char>>>;

/// The prefixes recorded for `ns`, oldest first; none where `ns` is no key.
pub open spec fn candidates(m: PrefixMapView, ns: Option<Seq<char>>) -> Seq<Seq<char>> {
    if m.dom().contains(ns) {
        m[ns]
    } else {
        Seq::empty()
    }
}

/// The prefix that stands for `ns`: `preferred` where it is a candidate, else
/// the candidate recorded last; nothing where `ns` has no candidate.
pub open spec fn preferred_prefix(
    m: PrefixMapView,
    ns: Option<Seq<char>>,
    preferred: Seq<char>,
) -> Option<Seq<char>> {
    let list = candidates(m, ns);
    if list.len() == 0 {
        None
    } else if list.contains(preferred) {
        Some(preferred)
    } else {
        Some(list.last())
    }
}

/// Whether `prefix` is a candidate of `ns`.
pub open spec fn found(m: PrefixMapView, ns: Option<Seq<char>>, prefix: Seq<char>) -> bool {
    candidates(m, ns).contains(prefix)
}

/// The map after `prefix` was recorded for `ns`, behind the candidates that
/// `ns` had.
pub open spec fn added(m: PrefixMapView, ns: Option<Seq<char>>, prefix: Seq<char>) -> PrefixMapView {
    m.insert(ns, candidates(m, ns).push(prefix))
}

/// The map that a document starts with: the prefix `xml` for the XML
/// namespace.
pub open spec fn default_prefix_map() -> PrefixMapView {
    Map::empty().insert(Some(XML_NAMESPACE@), seq!["xml"@])
}

/// The map that is left when the pairs in `pairs`, each a namespace and a
/// prefix, were added to `start` in their order.
pub open spec fn added_all(
    start: PrefixMapView,
    pairs: Seq<(Option<Seq<char>>, Seq<char>)>,
) -> PrefixMapView
    decreases pairs.len(),
{
    if pairs.len() == 0 {
        start
    } else {
        added(added_all(start, pairs.drop_last()), pairs.last().0, pairs.last().1)
    }
}

/// A namespace that was never added has no preferred prefix, and no prefix
/// is found for it: whatever else was added to the empty map.
pub proof fn lemma_never_added(
    pairs: Seq<(Option<Seq<char>>, Seq<char>)>,
    ns: Option<Seq<char>>,
    prefix: Seq<char>,
)
    requires
        forall|i: int| 0 <= i < pairs.len() ==> (#[trigger] pairs[i]).0 != ns,
    ensures
        preferred_prefix(added_all(Map::empty(), pairs), ns, prefix) is None,
        !found(added_all(Map::empty(), pairs), ns, prefix),
        !added_all(Map::empty(), pairs).dom().contains(ns),
    decreases pairs.len(),
{
    if pairs.len() > 0 {
        let before = pairs.drop_last();
        assert forall|i: int| 0 <= i < before.len() implies (#[trigger] before[i]).0 != ns by {
            assert(before[i] == pairs[i]);
        }
        lemma_never_added(before, ns, prefix);
        assert(pairs.last() == pairs[pairs.len() - 1]);
    }
}

/// A prefix that was added for a namespace is found for it.
pub proof fn lemma_added_is_found(m: PrefixMapView, ns: Option<Seq<char>>, prefix: Seq<char>)
    ensures
        found(added(m, ns, prefix), ns, prefix),
{
    let list = candidates(m, ns).push(prefix);
    assert(list[list.len() - 1] == prefix);
}

/// After `first` and then `second` were added for a namespace, `first` is
/// preferred where it is asked for, and `second`, the one added last, where
/// a prefix is asked for that was not recorded.
pub proof fn lemma_preferred_after_two(
    m: PrefixMapView,
    ns: Option<Seq<char>>,
    first: Seq<char>,
    second: Seq<char>,
    other: Seq<char>,
)
    ensures
        preferred_prefix(added(added(m, ns, first), ns, second), ns, first) == Some(first),
        !found(added(added(m, ns, first), ns, second), ns, other) ==> preferred_prefix(
            added(added(m, ns, first), ns, second),
            ns,
            other,
        ) == Some(second),
{
    let list = candidates(m, ns).push(first).push(second);
    assert(candidates(added(added(m, ns, first), ns, second), ns) == list);
    assert(list[list.len() - 2] == first);
    assert(list.last() == second);
}

/// Adding a pair twice leaves it twice among the candidates.
pub proof fn lemma_added_twice(m: PrefixMapView, ns: Option<Seq<char>>, prefix: Seq<char>)
    ensures
        candidates(added(added(m, ns, prefix), ns, prefix), ns) == candidates(m, ns).push(prefix).push(
            prefix,
        ),
        candidates(added(added(m, ns, prefix), ns, prefix), ns).len() == candidates(m, ns).len() + 2,
{
}

/// The texts of a list of prefixes.
pub open spec fn prefix_texts(prefixes: Seq<Prefix>) -> Seq<Seq<char>> {
    Seq::new(prefixes.len(), |i: int| prefixes[i]@)
}

#[derive(Debug)]
struct Candidates {
    ns: Option<Namespace>,
    prefixes: Vec<Prefix>,
}

/// Associates a namespace, or "no namespace", with the ordered list of the
/// prefixes recorded for it.
#[derive(Debug)]
pub struct NamespacePrefixMap {
    entries: Vec<Candidates>,
}

impl View for NamespacePrefixMap {
    type V = PrefixMapView;

    closed spec fn view(&self) -> PrefixMapView {
        Map::new(
            |ns: Option<Seq<char>>| self.has_key(ns),
            |ns: Option<Seq<char>>| prefix_texts(self.entries[self.position(ns)].prefixes@),
        )
    }
}

impl NamespacePrefixMap {
    spec fn key_at(&self, i: int) -> Option<Seq<char>> {
        opt_text(self.entries[i].ns)
    }

    spec fn has_key(&self, ns: Option<Seq<char>>) -> bool {
        exists|i: int| 0 <= i < self.entries.len() && self.key_at(i) == ns
    }

    spec fn position(&self, ns: Option<Seq<char>>) -> int {
        choose|i: int| 0 <= i < self.entries.len() && self.key_at(i) == ns
    }

    /// No namespace has two lists, and no list is empty.
    pub closed spec fn wf(&self) -> bool {
        &&& forall|i: int, j: int|
            0 <= i < j < self.entries.len() ==> self.key_at(i) != self.key_at(j)
        &&& forall|i: int| 0 <= i < self.entries.len() ==> (#[trigger] self.entries[i]).prefixes.len() > 0
    }

    /// Constructs a new empty `NamespacePrefixMap`.
    pub fn new() -> (map: NamespacePrefixMap)
        ensures
            map.wf(),
            map@ == Map::<Option<Seq<char>>, Seq<Seq<char>>>::empty(),
    {
        let map = NamespacePrefixMap { entries: Vec::new() };
        assert(map@ =~= Map::<Option<Seq<char>>, Seq<Seq<char>>>::empty());
        map
    }

    fn find(&self, ns: &Option<Namespace>) -> (at: Option<usize>)
        ensures
            match at {
                Some(i) => i < self.entries.len() && self.key_at(i as int) == opt_text(*ns),
                None => !self.has_key(opt_text(*ns)),
            },
    {
        let mut i: usize = 0;
        while i < self.entries.len()
            invariant
                i <= self.entries.len(),
                forall|j: int| 0 <= j < i ==> self.key_at(j) != opt_text(*ns),
            decreases self.entries.len() - i,
        {
            let same = match (&self.entries[i].ns, ns) {
                (Some(a), Some(b)) => str_eq(a.as_str(), b.as_str()),
                (None, None) => true,
                _ => false,
            };
            if same {
                return Some(i);
            }
            i += 1;
        }
        None
    }

    proof fn lemma_entry(&self, i: int)
        requires
            self.wf(),
            0 <= i < self.entries.len(),
        ensures
            self@.dom().contains(self.key_at(i)),
            self@[self.key_at(i)] == prefix_texts(self.entries[i].prefixes@),
            self@[self.key_at(i)].len() > 0,
    {
        let ns = self.key_at(i);
        assert(self.has_key(ns));
        assert(self.position(ns) == i);
    }

    /// Every namespace that is a key has at least one candidate.
    pub proof fn lemma_lists_not_empty(&self)
        requires
            self.wf(),
        ensures
            forall|ns: Option<Seq<char>>| #[trigger]
                self@.dom().contains(ns) ==> self@[ns].len() > 0,
    {
        assert forall|ns: Option<Seq<char>>| #[trigger] self@.dom().contains(ns) implies self@[ns].len()
            > 0 by {
            self.lemma_entry(self.position(ns));
        }
    }

    /// The prefix to write for `ns`: `preferred_prefix` where it was
    /// recorded for `ns`, else the prefix recorded last; nothing where no
    /// prefix was recorded for `ns`.
    pub fn retrieve_preferred_prefix(&self, ns: &Option<Namespace>, preferred_prefix: &Prefix) -> (r:
        Option<Prefix>)
        requires
            self.wf(),
        ensures
            opt_text(r) == self::preferred_prefix(self@, opt_text(*ns), preferred_prefix@),
    {
        match self.find(ns) {
            Some(i) => {
                proof {
                    self.lemma_entry(i as int);
                }
                let list = &self.entries[i].prefixes;
                let ghost texts = prefix_texts(list@);
                let mut k: usize = 0;
                while k < list.len()
                    invariant
                        k <= list.len(),
                        texts == prefix_texts(list@),
                        self@.dom().contains(opt_text(*ns)),
                        self@[opt_text(*ns)] == texts,
                        forall|j: int| 0 <= j < k ==> texts[j] != preferred_prefix@,
                    decreases list.len() - k,
                {
                    if str_eq(list[k].as_str(), preferred_prefix.as_str()) {
                        assert(texts[k as int] == preferred_prefix@);
                        return Some(list[k].clone());
                    }
                    k += 1;
                }
                Some(list[list.len() - 1].clone())
            },
            None => None,
        }
    }

    /// Whether `prefix` was recorded for `ns`.
    pub fn find_prefix(&self, ns: &Option<Namespace>, prefix: &Prefix) -> (r: bool)
        requires
            self.wf(),
        ensures
            r == found(self@, opt_text(*ns), prefix@),
    {
        match self.find(ns) {
            Some(i) => {
                proof {
                    self.lemma_entry(i as int);
                }
                let list = &self.entries[i].prefixes;
                let ghost texts = prefix_texts(list@);
                let mut k: usize = 0;
                while k < list.len()
                    invariant
                        k <= list.len(),
                        texts == prefix_texts(list@),
                        self@.dom().contains(opt_text(*ns)),
                        self@[opt_text(*ns)] == texts,
                        forall|j: int| 0 <= j < k ==> texts[j] != prefix@,
                    decreases list.len() - k,
                {
                    if str_eq(list[k].as_str(), prefix.as_str()) {
                        assert(texts[k as int] == prefix@);
                        return true;
                    }
                    k += 1;
                }
                false
            },
            None => false,
        }
    }

    /// The prefixes recorded for `ns`, oldest first.
    pub fn candidates(&self, ns: &Option<Namespace>) -> (list: Vec<Prefix>)
        requires
            self.wf(),
        ensures
            prefix_texts(list@) == self::candidates(self@, opt_text(*ns)),
    {
        let mut list: Vec<Prefix> = Vec::new();
        match self.find(ns) {
            Some(i) => {
                proof {
                    self.lemma_entry(i as int);
                }
                let from = &self.entries[i].prefixes;
                let mut k: usize = 0;
                while k < from.len()
                    invariant
                        k <= from.len(),
                        list.len() == k,
                        forall|j: int| 0 <= j < k ==> list[j]@ == from[j]@,
                    decreases from.len() - k,
                {
                    list.push(from[k].clone());
                    k += 1;
                }
                assert(prefix_texts(list@) =~= prefix_texts(from@));
            },
            None => {
                assert(prefix_texts(list@) =~= Seq::<Seq<char>>::empty());
            },
        }
        list
    }

    /// Adds `prefix` to the end of the candidates of `ns`; the list is
    /// created where `ns` had none. A prefix that is a candidate already
    /// is added once more.
    pub fn add(&mut self, ns: Option<Namespace>, prefix: Prefix)
        requires
            old(self).wf(),
        ensures
            final(self).wf(),
            final(self)@ == added(old(self)@, opt_text(ns), prefix@),
    {
        let ghost key = opt_text(ns);
        let ghost before = *self;
        match self.find(&ns) {
            Some(i) => {
                self.entries[i].prefixes.push(prefix);
                proof {
                    assert(self.entries.len() == before.entries.len());
                    assert(forall|j: int|
                        0 <= j < self.entries.len() ==> self.key_at(j) == before.key_at(j));
                    assert forall|j: int| 0 <= j < self.entries.len() implies (
                    #[trigger] self.entries[j]).prefixes.len() > 0 by {
                        if j != i {
                            assert(self.entries[j] == before.entries[j]);
                        }
                    }
                    assert forall|a: int, b: int| 0 <= a < b < self.entries.len() implies self.key_at(
                        a,
                    ) != self.key_at(b) by {
                        assert(before.key_at(a) != before.key_at(b));
                    }
                    assert(self.wf());
                    before.lemma_entry(i as int);
                    assert(prefix_texts(self.entries[i as int].prefixes@) =~= before@[key].push(
                        prefix@,
                    ));
                    assert forall|other: Option<Seq<char>>|
                        self@.dom().contains(other) == added(before@, key, prefix@).dom().contains(
                            other,
                        ) by {
                        if self.has_key(other) {
                            let j = self.position(other);
                            assert(before.key_at(j) == other);
                        }
                        if before.has_key(other) {
                            let j = before.position(other);
                            assert(self.key_at(j) == other);
                        }
                    }
                    assert forall|other: Option<Seq<char>>| #[trigger]
                        self@.dom().contains(other) implies self@[other] == added(
                        before@,
                        key,
                        prefix@,
                    )[other] by {
                        let j = self.position(other);
                        self.lemma_entry(j);
                        before.lemma_entry(j);
                    }
                    assert(self@ =~= added(before@, key, prefix@));
                }
            },
            None => {
                let mut prefixes = Vec::new();
                prefixes.push(prefix);
                self.entries.push(Candidates { ns, prefixes });
                proof {
                    let n = before.entries.len() as int;
                    assert(forall|j: int| 0 <= j < n ==> self.key_at(j) == before.key_at(j));
                    assert(self.key_at(n) == key);
                    assert forall|i: int, j: int| 0 <= i < j < self.entries.len() implies self.key_at(
                        i,
                    ) != self.key_at(j) by {
                        if j == n {
                            assert(before.key_at(i) == self.key_at(i));
                            if before.key_at(i) == key {
                                assert(before.has_key(key));
                            }
                        } else {
                            assert(before.key_at(i) != before.key_at(j));
                        }
                    }
                    assert forall|j: int| 0 <= j < self.entries.len() implies (
                    #[trigger] self.entries[j]).prefixes.len() > 0 by {
                        if j < n {
                            assert(self.entries[j] == before.entries[j]);
                        }
                    }
                    assert(self.wf());
                    self.lemma_entry(n);
                    assert(prefix_texts(self.entries[n].prefixes@) =~= Seq::<Seq<char>>::empty().push(
                        prefix@,
                    ));
                    assert forall|other: Option<Seq<char>>|
                        self@.dom().contains(other) == added(before@, key, prefix@).dom().contains(
                            other,
                        ) by {
                        if self.has_key(other) {
                            let j = self.position(other);
                            if j < n {
                                assert(before.key_at(j) == other);
                            }
                        }
                        if before.has_key(other) {
                            let j = before.position(other);
                            assert(self.key_at(j) == other);
                        }
                    }
                    assert forall|other: Option<Seq<char>>| #[trigger]
                        self@.dom().contains(other) implies self@[other] == added(
                        before@,
                        key,
                        prefix@,
                    )[other] by {
                        let j = self.position(other);
                        self.lemma_entry(j);
                        if j < n {
                            before.lemma_entry(j);
                        }
                    }
                    assert(self@ =~= added(before@, key, prefix@));
                }
            },
        }
    }
}

/// What a `LocalPrefixMap` stands for: the namespace that each prefix was
/// bound to, the empty text for "no namespace".
pub type LocalPrefixView = Map<Seq<char>, Seq<char>>;

/// The bindings that a list of declarations leaves; a later declaration of
/// a prefix replaces an earlier one.
pub open spec fn bindings_of(declared: Seq<(Prefix, Namespace)>) -> LocalPrefixView
    decreases declared.len(),
{
    if declared.len() == 0 {
        Map::empty()
    } else {
        bindings_of(declared.drop_last()).insert(declared.last().0@, declared.last().1@)
    }
}

/// The prefixes that the declarations on one element bind, each with its
/// namespace.
pub struct LocalPrefixMap {
    declared: Vec<(Prefix, Namespace)>,
}

impl View for LocalPrefixMap {
    type V = LocalPrefixView;

    closed spec fn view(&self) -> LocalPrefixView {
        bindings_of(self.declared@)
    }
}

impl LocalPrefixMap {
    /// A table without bindings.
    pub fn new() -> (table: LocalPrefixMap)
        ensures
            table@ == Map::<Seq<char>, Seq<char>>::empty(),
    {
        LocalPrefixMap { declared: Vec::new() }
    }

    /// Binds `prefix` to `ns`, in place of what it was bound to.
    pub fn insert(&mut self, prefix: Prefix, ns: Namespace)
        ensures
            final(self)@ == old(self)@.insert(prefix@, ns@),
    {
        let ghost before = self.declared@;
        self.declared.push((prefix, ns));
        assert(self.declared@.drop_last() == before);
    }

    /// The namespace that `prefix` is bound to, if it is bound.
    pub fn get(&self, prefix: &Prefix) -> (ns: Option<&Namespace>)
        ensures
            match ns {
                Some(bound) => self@.dom().contains(prefix@) && self@[prefix@] == bound@,
                None => !self@.dom().contains(prefix@),
            },
    {
        let mut i: usize = self.declared.len();
        assert(self.declared@.take(i as int) == self.declared@);
        while i > 0
            invariant
                i <= self.declared.len(),
                self@.dom().contains(prefix@) == bindings_of(self.declared@.take(i as int)).dom().contains(
                    prefix@,
                ),
                self@.dom().contains(prefix@) ==> self@[prefix@] == bindings_of(
                    self.declared@.take(i as int),
                )[prefix@],
            decreases i,
        {
            assert(self.declared@.take(i as int).drop_last() == self.declared@.take(i - 1));
            i -= 1;
            if str_eq(self.declared[i].0.as_str(), prefix.as_str()) {
                return Some(&self.declared[i].1);
            }
        }
        None
    }

    /// Whether `prefix` is bound.
    pub fn contains_key(&self, prefix: &Prefix) -> (r: bool)
        ensures
            r == self@.dom().contains(prefix@),
    {
        self.get(prefix).is_some()
    }
}

impl Default for NamespacePrefixMap {
    /// The map that a document starts with: `xml` for the XML namespace.
    fn default() -> (map: NamespacePrefixMap)
        ensures
            map.wf(),
            map@ == default_prefix_map(),
    {
        let mut map = NamespacePrefixMap::new();
        map.add(Some(XML_NAMESPACE.to_owned()), "xml".to_owned());
        assert(map@ =~= default_prefix_map());
        map
    }
}

impl Clone for NamespacePrefixMap {
    fn clone(&self) -> (map: NamespacePrefixMap)
        ensures
            self.wf() ==> map.wf() && map@ == self@,
    {
        let mut entries: Vec<Candidates> = Vec::new();
        let mut i: usize = 0;
        while i < self.entries.len()
            invariant
                i <= self.entries.len(),
                entries.len() == i,
                forall|j: int|
                    0 <= j < i ==> opt_text((#[trigger] entries[j]).ns) == opt_text(
                        self.entries[j].ns,
                    ) && prefix_texts(entries[j].prefixes@) == prefix_texts(
                        self.entries[j].prefixes@,
                    ),
            decreases self.entries.len() - i,
        {
            let from = &self.entries[i];
            let ns = match &from.ns {
                Some(text) => Some(text.clone()),
                None => None,
            };
            let mut prefixes: Vec<Prefix> = Vec::new();
            let mut k: usize = 0;
            while k < from.prefixes.len()
                invariant
                    k <= from.prefixes.len(),
                    prefixes.len() == k,
                    forall|j: int| 0 <= j < k ==> prefixes[j]@ == from.prefixes[j]@,
                decreases from.prefixes.len() - k,
            {
                prefixes.push(from.prefixes[k].clone());
                k += 1;
            }
            assert(prefix_texts(prefixes@) =~= prefix_texts(from.prefixes@));
            entries.push(Candidates { ns, prefixes });
            i += 1;
        }
        let map = NamespacePrefixMap { entries };
        proof {
            assert(forall|j: int| 0 <= j < map.entries.len() ==> map.key_at(j) == self.key_at(j));
            assert forall|ns: Option<Seq<char>>| map.has_key(ns) == self.has_key(ns) by {
                if map.has_key(ns) {
                    assert(self.key_at(map.position(ns)) == ns);
                }
                if self.has_key(ns) {
                    assert(map.key_at(self.position(ns)) == ns);
                }
            }
            if self.wf() {
                assert forall|j: int| 0 <= j < map.entries.len() implies (
                #[trigger] map.entries[j]).prefixes.len() > 0 by {
                    assert(self.entries[j].prefixes.len() > 0);
                    assert(prefix_texts(map.entries[j].prefixes@).len() == prefix_texts(
                        self.entries[j].prefixes@,
                    ).len());
                }
                assert forall|a: int, b: int| 0 <= a < b < map.entries.len() implies map.key_at(a)
                    != map.key_at(b) by {
                    assert(self.key_at(a) != self.key_at(b));
                }
                assert forall|ns: Option<Seq<char>>| #[trigger]
                    map@.dom().contains(ns) implies map@[ns] == self@[ns] by {
                    let j = map.position(ns);
                    map.lemma_entry(j);
                    self.lemma_entry(j);
                }
                assert(map@ =~= self@);
            }
        }
        map
    }
}

} // verus!
