//! Ordered maps from a client-visible model name to the provider model it
//! is routed to.

use vstd::prelude::*;
use vstd::string::*;

verus! {

/// The abstract value of an optional string.
pub open spec fn opt_str(o: Option<String>) -> Option<Seq<char>> {
    match o {
        Some(s) => Some(s@),
        None => None,
    }
}

/// Copies an optional string.
pub fn clone_opt_string(o: &Option<String>) -> (res: Option<String>)
    ensures
        opt_str(res) == opt_str(*o),
{
    match o {
        Some(s) => Some(s.clone()),
        None => None,
    }
}

/// Where requests for a model go: the provider's base URL, its API key,
/// and the model name that the provider knows.
pub struct ModelTarget {
    pub base_url: String,
    pub api_key: Option<String>,
    pub model: String,
}

/// The abstract value of a [`ModelTarget`].
pub struct ModelTargetView {
    pub base_url: Seq<char>,
    pub api_key: Option<Seq<char>>,
    pub model: Seq<char>,
}

impl View for ModelTarget {
    type V = ModelTargetView;

    open spec fn view(&self) -> ModelTargetView {
        ModelTargetView { base_url: self.base_url@, api_key: opt_str(self.api_key), model: self.model@ }
    }
}

impl ModelTarget {
    /// Builds a target from its three parts.
    pub fn new(base_url: String, api_key: Option<String>, model: String) -> (res: ModelTarget)
        ensures
            res@ == (ModelTargetView { base_url: base_url@, api_key: opt_str(api_key), model: model@ }),
    {
        ModelTarget { base_url, api_key, model }
    }

    /// A copy of this target.
    pub fn duplicate(&self) -> (res: ModelTarget)
        ensures
            res@ == self@,
    {
        ModelTarget {
            base_url: self.base_url.clone(),
            api_key: clone_opt_string(&self.api_key),
            model: self.model.clone(),
        }
    }
}

/// The abstract value of a model map: the names in the order in which they
/// were first inserted, and the target that each name currently maps to.
pub struct ModelMapView {
    pub names: Seq<Seq<char>>,
    pub targets: Map<Seq<char>, ModelTargetView>,
}

impl ModelMapView {
    pub open spec fn empty() -> ModelMapView {
        ModelMapView { names: Seq::empty(), targets: Map::empty() }
    }

    /// Every name occurs once, and the names are exactly the mapped keys.
    pub open spec fn wf(self) -> bool {
        &&& self.names.no_duplicates()
        &&& forall|k: Seq<char>| #[trigger] self.targets.contains_key(k) <==> self.names.contains(k)
    }

    /// Inserting `k -> v`: a new name goes to the end of the order, a known
    /// name keeps its place and gets the new target.
    pub open spec fn put(self, k: Seq<char>, v: ModelTargetView) -> ModelMapView {
        ModelMapView {
            names: if self.targets.contains_key(k) {
                self.names
            } else {
                self.names.push(k)
            },
            targets: self.targets.insert(k, v),
        }
    }

    pub open spec fn get(self, k: Seq<char>) -> Option<ModelTargetView> {
        if self.targets.contains_key(k) {
            Some(self.targets[k])
        } else {
            None
        }
    }

    /// The `(name, target)` pairs in name order.
    pub open spec fn entries(self) -> Seq<(Seq<char>, ModelTargetView)> {
        self.names.map_values(|k: Seq<char>| (k, self.targets[k]))
    }
}

/// Inserting each pair of `pairs` into `m`, in order.
pub open spec fn put_all(m: ModelMapView, pairs: Seq<(Seq<char>, ModelTargetView)>) -> ModelMapView
    decreases pairs.len(),
{
    if pairs.len() == 0 {
        m
    } else {
        put_all(m, pairs.drop_last()).put(pairs.last().0, pairs.last().1)
    }
}

/// `put` keeps a map well formed.
pub proof fn lemma_put_wf(m: ModelMapView, k: Seq<char>, v: ModelTargetView)
    requires
        m.wf(),
    ensures
        m.put(k, v).wf(),
{
    let r = m.put(k, v);
    assert forall|x: Seq<char>| #[trigger] r.targets.contains_key(x) <==> r.names.contains(x) by {
        if !m.targets.contains_key(k) {
            if m.names.contains(x) {
                let i = choose|i: int| 0 <= i < m.names.len() && m.names[i] == x;
                assert(r.names[i] == x);
            }
            if x == k {
                assert(r.names[m.names.len() as int] == k);
            }
        }
    }
}

/// Inserting a sequence of pairs keeps a map well formed.
pub proof fn lemma_put_all_wf(m: ModelMapView, pairs: Seq<(Seq<char>, ModelTargetView)>)
    requires
        m.wf(),
    ensures
        put_all(m, pairs).wf(),
    decreases pairs.len(),
{
    if pairs.len() > 0 {
        lemma_put_all_wf(m, pairs.drop_last());
        lemma_put_wf(put_all(m, pairs.drop_last()), pairs.last().0, pairs.last().1);
    }
}

/// In a sequence without duplicates, `index_of` finds the one position of an element.
pub proof fn lemma_index_of_unique<A>(s: Seq<A>, i: int)
    requires
        s.no_duplicates(),
        0 <= i < s.len(),
    ensures
        s.index_of(s[i]) == i,
{
    assert(s.contains(s[i]));
    let j = s.index_of(s[i]);
    assert(0 <= j < s.len() && s[j] == s[i]);
}

struct ModelEntry {
    name: String,
    target: ModelTarget,
}

/// An insertion-ordered map from model names to targets.
pub struct ModelMap {
    entries: Vec<ModelEntry>,
}

impl View for ModelMap {
    type V = ModelMapView;

    closed spec fn view(&self) -> ModelMapView {
        let names = self.entries@.map_values(|e: ModelEntry| e.name@);
        ModelMapView {
            names,
            targets: Map::new(
                |k: Seq<char>| names.contains(k),
                |k: Seq<char>| self.entries@[names.index_of(k)].target@,
            ),
        }
    }
}

impl ModelMap {
    /// The map is well formed: no name occurs twice.
    pub closed spec fn wf(&self) -> bool {
        self.entries@.map_values(|e: ModelEntry| e.name@).no_duplicates()
    }

    /// A well-formed map has a well-formed view.
    pub proof fn lemma_view_wf(&self)
        requires
            self.wf(),
        ensures
            self@.wf(),
    {
    }

    /// An empty map.
    pub fn new() -> (res: ModelMap)
        ensures
            res.wf(),
            res@ == ModelMapView::empty(),
    {
        let res = ModelMap { entries: Vec::new() };
        assert(res@.names =~= Seq::<Seq<char>>::empty());
        assert(res@.targets =~= Map::<Seq<char>, ModelTargetView>::empty());
        res
    }

    /// The position of `model`, if it is present.
    fn find(&self, model: &String) -> (res: Option<usize>)
        ensures
            match res {
                Some(i) => i < self.entries@.len() && self.entries@[i as int].name@ == model@,
                None => !self@.names.contains(model@),
            },
    {
        let n = self.entries.len();
        let mut i: usize = 0;
        while i < n
            invariant
                n == self.entries@.len(),
                i <= n,
                forall|j: int| 0 <= j < i ==> self.entries@[j].name@ != model@,
            decreases n - i,
        {
            if self.entries[i].name == *model {
                return Some(i);
            }
            i = i + 1;
        }
        assert forall|j: int| 0 <= j < self@.names.len() implies self@.names[j] != model@ by {
            assert(self@.names[j] == self.entries@[j].name@);
        }
        None
    }

    /// Maps `model` to `model_target`. Returns `true` when `model` was
    /// already present (its target is replaced and its place kept), `false`
    /// when it is new (it goes to the end of the order).
    pub fn insert(&mut self, model: &str, model_target: ModelTarget) -> (replaced: bool)
        requires
            old(self).wf(),
        ensures
            final(self).wf(),
            replaced == old(self)@.targets.contains_key(model@),
            final(self)@ == old(self)@.put(model@, model_target@),
    {
        let key = String::from_str(model);
        let ghost old_names = self@.names;
        let ghost old_targets = self@.targets;
        let ghost tv = model_target@;
        match self.find(&key) {
            Some(i) => {
                let entry = ModelEntry { name: key, target: model_target };
                self.entries.set(i, entry);
                proof {
                    let names = self@.names;
                    assert(names =~= old_names);
                    assert(old_names[i as int] == model@);
                    lemma_index_of_unique(old_names, i as int);
                    assert forall|k: Seq<char>| old_names.contains(k) implies #[trigger] self@.targets[k]
                        == old_targets.insert(model@, tv)[k] by {
                        let j = old_names.index_of(k);
                        assert(0 <= j < old_names.len() && old_names[j] == k);
                        if k != model@ {
                            assert(j != i);
                        }
                    }
                    assert(self@.targets =~= old_targets.insert(model@, tv));
                }
                true
            },
            None => {
                let ghost n = self.entries@.len();
                let entry = ModelEntry { name: key, target: model_target };
                self.entries.push(entry);
                proof {
                    let names = self@.names;
                    assert(names =~= old_names.push(model@));
                    assert forall|a: int, b: int|
                        0 <= a < names.len() && 0 <= b < names.len() && a != b implies names[a]
                        != names[b] by {
                        if a < n && b < n {
                            assert(names[a] == old_names[a] && names[b] == old_names[b]);
                        } else if a == n {
                            assert(old_names[b] == names[b]);
                        } else {
                            assert(old_names[a] == names[a]);
                        }
                    }
                    lemma_index_of_unique(names, n as int);
                    assert forall|k: Seq<char>| names.contains(k) implies #[trigger] self@.targets[k]
                        == old_targets.insert(model@, tv)[k] by {
                        if k != model@ {
                            let j = names.index_of(k);
                            assert(0 <= j < names.len() && names[j] == k);
                            assert(j != n);
                            assert(old_names[j] == k);
                            lemma_index_of_unique(old_names, j);
                        }
                    }
                    assert forall|k: Seq<char>| names.contains(k) <==> old_targets.insert(
                        model@,
                        tv,
                    ).contains_key(k) by {
                        if names.contains(k) && k != model@ {
                            let j = choose|j: int| 0 <= j < names.len() && names[j] == k;
                            assert(j != n);
                            assert(old_names[j] == k);
                        }
                        if old_names.contains(k) {
                            let j = choose|j: int| 0 <= j < old_names.len() && old_names[j] == k;
                            assert(names[j] == k);
                        }
                        if k == model@ {
                            assert(names[n as int] == k);
                        }
                    }
                    assert(self@.targets =~= old_targets.insert(model@, tv));
                }
                false
            },
        }
    }

    /// The target of `model`, if it is present.
    pub fn get(&self, model: &str) -> (res: Option<ModelTarget>)
        requires
            self.wf(),
        ensures
            match res {
                Some(t) => self@.get(model@) == Some(t@),
                None => self@.get(model@) is None,
            },
    {
        let key = String::from_str(model);
        match self.find(&key) {
            Some(i) => {
                proof {
                    lemma_index_of_unique(self@.names, i as int);
                }
                Some(self.entries[i].target.duplicate())
            },
            None => None,
        }
    }

    /// The model names in insertion order.
    pub fn models(&self) -> (res: Vec<String>)
        ensures
            res@.map_values(|s: String| s@) == self@.names,
    {
        let n = self.entries.len();
        let mut res: Vec<String> = Vec::new();
        let mut i: usize = 0;
        while i < n
            invariant
                n == self.entries@.len(),
                i <= n,
                res@.map_values(|s: String| s@) =~= self@.names.take(i as int),
            decreases n - i,
        {
            let name = self.entries[i].name.clone();
            proof {
                assert(self@.names[i as int] == self.entries@[i as int].name@);
            }
            res.push(name);
            proof {
                assert(res@.map_values(|s: String| s@) =~= self@.names.take(i as int).push(name@));
                assert(self@.names.take(i + 1) =~= self@.names.take(i as int).push(name@));
            }
            i = i + 1;
        }
        assert(self@.names.take(n as int) =~= self@.names);
        res
    }
}

} // verus!
