//! The dependency tree of `npm ls --all --json`, and the dependency chains
//! that lead from the project to given packages.

use vstd::prelude::*;
use crate::name_map::{NameMap, first_index, is_first, lookup, names_distinct, lemma_first_index_is, lemma_first_index_none, lemma_first_index_same_names, lemma_first_unique, lemma_exists_first};
use crate::text::str_eq;

verus! {

/// A node of the dependency tree: its dependencies, by name, in order.
#[derive(Debug, Default)]
pub struct DependencyTree {
    pub dependencies: Vec<(String, DependencyTree)>,
}

/// A chain of package names, from a direct dependency of the project down to a package.
pub type Chain = Seq<Seq<char>>;

/// Every chain of the tree `t` whose first names are `prefix`, in depth-first
/// pre-order: each node's chain comes before the chains of its dependencies.
pub open spec fn tree_chains(t: DependencyTree, prefix: Chain) -> Seq<Chain>
    decreases t, 1int,
{
    forest_chains(t.dependencies@, prefix)
}

/// The chains of the dependencies `deps` (and of everything below them),
/// under the chain `prefix`, in depth-first pre-order.
pub open spec fn forest_chains(deps: Seq<(String, DependencyTree)>, prefix: Chain) -> Seq<Chain>
    decreases deps, 0int,
{
    if deps.len() == 0 {
        Seq::empty()
    } else {
        let last = deps[deps.len() - 1];
        let here = prefix.push(last.0@);
        forest_chains(deps.subrange(0, deps.len() - 1), prefix) + seq![here] + tree_chains(last.1, here)
    }
}

/// The chains that end in one of `names`.
pub open spec fn chains_to(chains: Seq<Chain>, names: Seq<Seq<char>>) -> Seq<Chain> {
    chains.filter(|c: Chain| c.len() > 0 && names.contains(c.last()))
}

/// The groups after adding `c` to the group of its last name: the group is
/// extended, or a new group is appended at the end.
pub open spec fn add_chain(groups: Seq<(Seq<char>, Seq<Chain>)>, c: Chain) -> Seq<(Seq<char>, Seq<Chain>)> {
    match first_index(groups, c.last()) {
        Some(i) => groups.update(i, (c.last(), groups[i].1.push(c))),
        None => groups.push((c.last(), seq![c])),
    }
}

/// The groups after adding each of `chains`, in order, starting from `groups`.
pub open spec fn add_chains(groups: Seq<(Seq<char>, Seq<Chain>)>, chains: Seq<Chain>) -> Seq<(Seq<char>, Seq<Chain>)>
    decreases chains.len(),
{
    if chains.len() == 0 {
        groups
    } else {
        add_chain(add_chains(groups, chains.drop_last()), chains.last())
    }
}

/// The groups of a chain map, with each chain seen as a sequence of names.
pub open spec fn groups_of(m: &NameMap<Vec<Vec<String>>>) -> Seq<(Seq<char>, Seq<Chain>)> {
    m.pairs().map_values(|e: (Seq<char>, Vec<Vec<String>>)| (e.0, e.1.deep_view()))
}

/// What `collect_chains` returns for `t` and `names`: the chains that end in
/// one of `names`, grouped by that last name, groups in order of first
/// occurrence, chains in depth-first pre-order.
pub open spec fn chain_groups(t: DependencyTree, names: Seq<Seq<char>>) -> Seq<(Seq<char>, Seq<Chain>)> {
    add_chains(Seq::empty(), chains_to(tree_chains(t, Seq::empty()), names))
}

proof fn lemma_add_chains_concat(groups: Seq<(Seq<char>, Seq<Chain>)>, a: Seq<Chain>, b: Seq<Chain>)
    ensures
        add_chains(groups, a + b) == add_chains(add_chains(groups, a), b),
    decreases b.len(),
{
    if b.len() == 0 {
        assert(a + b =~= a);
    } else {
        lemma_add_chains_concat(groups, a, b.drop_last());
        assert((a + b).drop_last() =~= a + b.drop_last());
        assert((a + b).last() == b.last());
    }
}

/// `true` when `name` is one of `names`.
fn contains_name(names: &Vec<String>, name: &str) -> (r: bool)
    ensures
        r == names.deep_view().contains(name@),
{
    let n = names.len();
    let mut i: usize = 0;
    while i < n
        invariant
            n == names.deep_view().len(),
            i <= n,
            forall|j: int| 0 <= j < i ==> names.deep_view()[j] != name@,
        decreases n - i,
    {
        if str_eq(names[i].as_str(), name) {
            assert(names.deep_view()[i as int] == name@);
            return true;
        }
        i = i + 1;
    }
    false
}

/// A copy of a chain.
fn copy_chain(path: &Vec<String>) -> (r: Vec<String>)
    ensures
        r.deep_view() == path.deep_view(),
{
    let n = path.len();
    let mut out: Vec<String> = Vec::new();
    for i in 0..n
        invariant
            n == path@.len(),
            out.deep_view() == path.deep_view().take(i as int),
    {
        let item = path[i].clone();
        assert(item@ == path.deep_view()[i as int]);
        let ghost before = out.deep_view();
        out.push(item);
        assert(out.deep_view() =~= before.push(item@));
        assert(path.deep_view().take(i + 1) =~= path.deep_view().take(i as int).push(item@));
    }
    assert(path.deep_view().take(n as int) =~= path.deep_view());
    out
}

/// Adds `path` to the group of its last name.
fn push_chain(result: &mut NameMap<Vec<Vec<String>>>, path: Vec<String>)
    requires
        path@.len() > 0,
    ensures
        groups_of(final(result)) == add_chain(groups_of(old(result)), path.deep_view()),
{
    let last = path.len() - 1;
    let name = path[last].clone();
    let ghost c = path.deep_view();
    let ghost g0 = groups_of(result);
    assert(c.last() == name@);
    proof {
        lemma_first_index_same_names(result.pairs(), g0, name@);
    }
    match result.position(name.as_str()) {
        Some(i) => {
            let mut group = result.replace_value(i, Vec::new());
            let ghost before = group.deep_view();
            group.push(path);
            assert(group.deep_view() =~= before.push(c));
            result.replace_value(i, group);
            assert(groups_of(result) =~= add_chain(g0, c));
        },
        None => {
            let mut group: Vec<Vec<String>> = Vec::new();
            group.push(path);
            assert(group.deep_view() =~= seq![c]);
            result.insert(name, group);
            assert(groups_of(result) =~= add_chain(g0, c));
        },
    }
}

proof fn lemma_forest_step(deps: Seq<(String, DependencyTree)>, prefix: Chain, i: int)
    requires
        0 <= i < deps.len(),
    ensures
        forest_chains(deps.subrange(0, i + 1), prefix) == forest_chains(deps.subrange(0, i), prefix)
            + seq![prefix.push(deps[i].0@)] + tree_chains(deps[i].1, prefix.push(deps[i].0@)),
{
    let d = deps.subrange(0, i + 1);
    assert(d.subrange(0, d.len() - 1) =~= deps.subrange(0, i));
    assert(d[d.len() - 1] == deps[i]);
}

proof fn lemma_single_chain(g: Seq<(Seq<char>, Seq<Chain>)>, c: Chain, names: Seq<Seq<char>>)
    ensures
        add_chains(g, chains_to(seq![c], names)) == if c.len() > 0 && names.contains(c.last()) {
            add_chain(g, c)
        } else {
            g
        },
{
    reveal_with_fuel(Seq::<_>::filter, 2);
    reveal_with_fuel(add_chains, 2);
    assert(seq![c].drop_last() =~= Seq::<Chain>::empty());
    if c.len() > 0 && names.contains(c.last()) {
        assert(chains_to(seq![c], names) =~= seq![c]);
    } else {
        assert(chains_to(seq![c], names) =~= Seq::<Chain>::empty());
    }
}

impl DependencyTree {
    /// Every chain of this tree, below `path`, that ends in one of `names`,
    /// added to `result` in depth-first pre-order. `path` comes back as it was.
    fn walk(&self, names: &Vec<String>, path: &mut Vec<String>, result: &mut NameMap<Vec<Vec<String>>>)
        ensures
            final(path).deep_view() == old(path).deep_view(),
            groups_of(final(result)) == add_chains(
                groups_of(old(result)),
                chains_to(tree_chains(*self, old(path).deep_view()), names.deep_view()),
            ),
        decreases self,
    {
        let ghost prefix = path.deep_view();
        let ghost g0 = groups_of(result);
        let ghost deps = self.dependencies@;
        let ghost pred = |c: Chain| c.len() > 0 && names.deep_view().contains(c.last());
        let n = self.dependencies.len();
        assert(deps.subrange(0, 0) =~= Seq::<(String, DependencyTree)>::empty());
        assert(chains_to(Seq::<Chain>::empty(), names.deep_view()) =~= Seq::<Chain>::empty()) by {
            reveal_with_fuel(Seq::<_>::filter, 1);
        }
        for i in 0..n
            invariant
                n == deps.len(),
                deps == self.dependencies@,
                path.deep_view() == prefix,
                pred == (|c: Chain| c.len() > 0 && names.deep_view().contains(c.last())),
                groups_of(result) == add_chains(
                    g0,
                    chains_to(forest_chains(deps.subrange(0, i as int), prefix), names.deep_view()),
                ),
        {
            let entry = &self.dependencies[i];
            let ghost here = prefix.push(entry.0@);
            let ghost before = forest_chains(deps.subrange(0, i as int), prefix);
            let ghost g1 = groups_of(result);
            path.push(entry.0.clone());
            assert(path.deep_view() =~= here);
            let hit = contains_name(names, entry.0.as_str());
            if hit {
                let chain = copy_chain(path);
                push_chain(result, chain);
            }
            let ghost g2 = groups_of(result);
            proof {
                lemma_single_chain(g1, here, names.deep_view());
                assert(here.last() == entry.0@);
            }
            assert(decreases_to!(*self => self.dependencies@[i as int].1)) by {
                assert(decreases_to!(*self => self.dependencies));
                assert(decreases_to!(self.dependencies => self.dependencies@));
                assert(decreases_to!(self.dependencies@ => self.dependencies@[i as int]));
            }
            entry.1.walk(names, path, result);
            let ghost p1 = path@;
            assert(path.deep_view() == here);
            path.pop();
            assert(path@ =~= p1.drop_last());
            assert(path.deep_view() =~= prefix) by {
                assert forall|j: int| 0 <= j < prefix.len() implies path.deep_view()[j] == prefix[j] by {
                    assert(path@[j] == p1[j]);
                    assert(here[j] == prefix[j]);
                }
            }
            proof {
                lemma_forest_step(deps, prefix, i as int);
                let tail = tree_chains(deps[i as int].1, here);
                Seq::filter_distributes_over_add(before, seq![here], pred);
                Seq::filter_distributes_over_add(before + seq![here], tail, pred);
                lemma_add_chains_concat(g0, chains_to(before, names.deep_view()), chains_to(seq![here], names.deep_view()));
                lemma_add_chains_concat(
                    g0,
                    chains_to(before, names.deep_view()) + chains_to(seq![here], names.deep_view()),
                    chains_to(tail, names.deep_view()),
                );
            }
        }
        assert(deps.subrange(0, n as int) =~= deps);
    }

    /// For each of `names`, the chains of this tree that end in it, in
    /// depth-first pre-order; a name that ends no chain has no entry. Every
    /// path of the tree that ends in one of `names`, at any depth, is in
    /// the group of its last name, and every chain of a group is such a path.
    pub fn collect_chains(&self, names: &Vec<String>) -> (r: NameMap<Vec<Vec<String>>>)
        ensures
            groups_of(&r) == chain_groups(*self, names.deep_view()),
            forall|p: Chain|
                #![trigger is_path(*self, p)]
                is_path(*self, p) && names.deep_view().contains(p.last()) ==> (lookup(
                    groups_of(&r),
                    p.last(),
                ) matches Some(cs) && cs.contains(p)),
            forall|k: Seq<char>|
                match #[trigger] lookup(groups_of(&r), k) {
                    Some(cs) => {
                        &&& names.deep_view().contains(k)
                        &&& forall|j: int| 0 <= j < cs.len() ==> is_path(*self, #[trigger] cs[j]) && cs[j].last() == k
                    },
                    None => true,
                },
    {
        let mut result: NameMap<Vec<Vec<String>>> = NameMap::new();
        let mut path: Vec<String> = Vec::new();
        assert(groups_of(&result) =~= Seq::<(Seq<char>, Seq<Chain>)>::empty());
        assert(path.deep_view() =~= Seq::<Seq<char>>::empty());
        self.walk(names, &mut path, &mut result);
        proof {
            assert forall|p: Chain|
                #![trigger is_path(*self, p)]
                is_path(*self, p) && names.deep_view().contains(p.last()) implies (lookup(
                    groups_of(&result),
                    p.last(),
                ) matches Some(cs) && cs.contains(p)) by {
                lemma_chain_groups_complete(*self, names.deep_view(), p);
            }
            assert forall|k: Seq<char>|
                match #[trigger] lookup(groups_of(&result), k) {
                    Some(cs) => {
                        &&& names.deep_view().contains(k)
                        &&& forall|j: int| 0 <= j < cs.len() ==> is_path(*self, #[trigger] cs[j]) && cs[j].last() == k
                    },
                    None => true,
                } by {
                lemma_chain_groups_sound(*self, names.deep_view(), k);
            }
        }
        result
    }
}

proof fn lemma_filter_filter<A>(s: Seq<A>, p: spec_fn(A) -> bool, q: spec_fn(A) -> bool)
    ensures
        s.filter(p).filter(q) == s.filter(|x: A| p(x) && q(x)),
    decreases s.len(),
{
    reveal_with_fuel(Seq::<_>::filter, 1);
    if s.len() > 0 {
        lemma_filter_filter(s.drop_last(), p, q);
        let f = s.drop_last().filter(p);
        if p(s.last()) {
            assert(f.push(s.last()).drop_last() =~= f);
        }
    }
}

proof fn lemma_filter_none<A>(s: Seq<A>, p: spec_fn(A) -> bool)
    requires
        forall|x: A| !#[trigger] p(x),
    ensures
        s.filter(p) == Seq::<A>::empty(),
    decreases s.len(),
{
    reveal_with_fuel(Seq::<_>::filter, 1);
    if s.len() > 0 {
        lemma_filter_none(s.drop_last(), p);
    }
}

/// The chains of `chains` that end in `k`, in order.
pub open spec fn ending_in(chains: Seq<Chain>, k: Seq<char>) -> Seq<Chain> {
    chains.filter(ends_with(k))
}

/// The predicate "the chain ends in `k`".
pub open spec fn ends_with(k: Seq<char>) -> spec_fn(Chain) -> bool {
    |c: Chain| c.len() > 0 && c.last() == k
}

/// Adding a chain extends the group of its last name and leaves every other
/// group's lookup unchanged.
proof fn lemma_add_chain_lookup(g: Seq<(Seq<char>, Seq<Chain>)>, c: Chain, k: Seq<char>)
    ensures
        lookup(add_chain(g, c), k) == if c.last() == k {
            match lookup(g, k) {
                Some(cs) => Some(cs.push(c)),
                None => Some(seq![c]),
            }
        } else {
            lookup(g, k)
        },
{
    match first_index(g, c.last()) {
        Some(i) => {
            let g2 = g.update(i, (c.last(), g[i].1.push(c)));
            assert(is_first(g, c.last(), i)) by {
                let w = choose|w: int| #[trigger] is_first(g, c.last(), w);
                lemma_first_unique(g, c.last(), w, w);
            }
            lemma_first_index_same_names(g, g2, k);
            if c.last() == k {
                assert(is_first(g, k, i));
                lemma_first_index_is(g, k, i);
            }
        },
        None => {
            let g2 = g.push((c.last(), seq![c]));
            if exists|j: int| #[trigger] is_first(g, k, j) {
                let j = choose|j: int| #[trigger] is_first(g, k, j);
                lemma_first_index_is(g, k, j);
                assert(is_first(g2, k, j));
                lemma_first_index_is(g2, k, j);
                if c.last() == k {
                    assert(is_first(g, c.last(), j));
                }
            } else {
                assert(forall|j: int| 0 <= j < g.len() ==> g[j].0 != k) by {
                    assert forall|j: int| 0 <= j < g.len() implies g[j].0 != k by {
                        if g[j].0 == k {
                            lemma_exists_first(g, k, j);
                        }
                    }
                }
                lemma_first_index_none(g, k);
                if c.last() == k {
                    assert(is_first(g2, k, g.len() as int));
                    lemma_first_index_is(g2, k, g.len() as int);
                } else {
                    assert(forall|j: int| 0 <= j < g2.len() ==> g2[j].0 != k);
                    lemma_first_index_none(g2, k);
                }
            }
        },
    }
}

/// Grouping puts under each name exactly the chains that end in it, in order.
proof fn lemma_add_chains_lookup(chains: Seq<Chain>, k: Seq<char>)
    requires
        forall|i: int| 0 <= i < chains.len() ==> #[trigger] chains[i].len() > 0,
    ensures
        lookup(add_chains(Seq::empty(), chains), k) == if ending_in(chains, k).len() > 0 {
            Some(ending_in(chains, k))
        } else {
            None
        },
    decreases chains.len(),
{
    reveal_with_fuel(Seq::<_>::filter, 1);
    if chains.len() == 0 {
        lemma_first_index_none(Seq::<(Seq<char>, Seq<Chain>)>::empty(), k);
    } else {
        let t = chains.drop_last();
        let c = chains.last();
        lemma_add_chains_lookup(t, k);
        lemma_add_chain_lookup(add_chains(Seq::empty(), t), c, k);
    }
}

/// What `collect_chains` finds: the group of a name holds exactly the
/// chains of the tree that end in that name, in depth-first pre-order; a
/// name has a group only if it is one of `names` and ends some chain.
pub proof fn lemma_chain_groups_lookup(t: DependencyTree, names: Seq<Seq<char>>, k: Seq<char>)
    ensures
        lookup(chain_groups(t, names), k) == if names.contains(k) && ending_in(
            tree_chains(t, Seq::empty()),
            k,
        ).len() > 0 {
            Some(ending_in(tree_chains(t, Seq::empty()), k))
        } else {
            None
        },
{
    let all = tree_chains(t, Seq::empty());
    let p = |c: Chain| c.len() > 0 && names.contains(c.last());
    let q = ends_with(k);
    assert forall|i: int| 0 <= i < chains_to(all, names).len() implies #[trigger] chains_to(all, names)[i].len() > 0 by {
        all.lemma_filter_pred(p, i);
    }
    lemma_add_chains_lookup(chains_to(all, names), k);
    lemma_filter_filter(all, p, q);
    assert(chains_to(all, names) == all.filter(p));
    assert(ending_in(chains_to(all, names), k) == all.filter(p).filter(q));
    assert(ending_in(all, k) == all.filter(q));
    if names.contains(k) {
        assert((|x: Chain| p(x) && q(x)) =~= q);
        assert(ending_in(chains_to(all, names), k) == ending_in(all, k));
    } else {
        lemma_filter_none(all, |x: Chain| p(x) && q(x));
        assert(ending_in(chains_to(all, names), k).len() == 0);
    }
}

proof fn lemma_add_chain_distinct(g: Seq<(Seq<char>, Seq<Chain>)>, c: Chain)
    requires
        names_distinct(g),
    ensures
        names_distinct(add_chain(g, c)),
{
    match first_index(g, c.last()) {
        Some(i) => {
            let w = choose|w: int| #[trigger] is_first(g, c.last(), w);
            assert(is_first(g, c.last(), w));
        },
        None => {
            assert forall|j: int| 0 <= j < g.len() implies g[j].0 != c.last() by {
                if g[j].0 == c.last() {
                    lemma_exists_first(g, c.last(), j);
                }
            }
        },
    }
}

/// `collect_chains` gives each name at most one group.
pub proof fn lemma_chain_groups_distinct(t: DependencyTree, names: Seq<Seq<char>>)
    ensures
        names_distinct(chain_groups(t, names)),
{
    lemma_add_chains_distinct(chains_to(tree_chains(t, Seq::empty()), names));
}

proof fn lemma_add_chains_distinct(chains: Seq<Chain>)
    ensures
        names_distinct(add_chains(Seq::empty(), chains)),
    decreases chains.len(),
{
    if chains.len() > 0 {
        lemma_add_chains_distinct(chains.drop_last());
        lemma_add_chain_distinct(add_chains(Seq::empty(), chains.drop_last()), chains.last());
    }
}

/// No two dependencies of any node of the tree have the same name, as in
/// npm's JSON, where a node's dependencies are an object keyed by name.
pub open spec fn tree_wf(t: DependencyTree) -> bool
    decreases t, 1int,
{
    forest_wf(t.dependencies@)
}

/// The names of the dependencies in `deps`, in order.
pub open spec fn dependency_names(deps: Seq<(String, DependencyTree)>) -> Seq<Seq<char>> {
    deps.map_values(|e: (String, DependencyTree)| e.0@)
}

/// No two of `deps`, and no two dependencies of any node below them, have
/// the same name.
pub open spec fn forest_wf(deps: Seq<(String, DependencyTree)>) -> bool
    decreases deps, 0int,
{
    if deps.len() == 0 {
        true
    } else {
        let init = deps.subrange(0, deps.len() - 1);
        let last = deps[deps.len() - 1];
        &&& forest_wf(init)
        &&& !dependency_names(init).contains(last.0@)
        &&& tree_wf(last.1)
    }
}

/// Every chain of a tree extends `prefix` by at least one name.
proof fn lemma_tree_chains_shape(t: DependencyTree, prefix: Chain)
    ensures
        forall|j: int| 0 <= j < tree_chains(t, prefix).len() ==> {
            let c = #[trigger] tree_chains(t, prefix)[j];
            &&& c.len() > prefix.len()
            &&& c.subrange(0, prefix.len() as int) == prefix
            &&& dependency_names(t.dependencies@).contains(c[prefix.len() as int])
        },
    decreases t, 1int,
{
    lemma_forest_chains_shape(t.dependencies@, prefix);
    assert(tree_chains(t, prefix) == forest_chains(t.dependencies@, prefix));
}

/// Every chain of a forest extends `prefix` by the name of one of its roots.
proof fn lemma_forest_chains_shape(deps: Seq<(String, DependencyTree)>, prefix: Chain)
    ensures
        forall|j: int| 0 <= j < forest_chains(deps, prefix).len() ==> {
            let c = #[trigger] forest_chains(deps, prefix)[j];
            &&& c.len() > prefix.len()
            &&& c.subrange(0, prefix.len() as int) == prefix
            &&& dependency_names(deps).contains(c[prefix.len() as int])
        },
    decreases deps, 0int,
{
    if deps.len() > 0 {
        let n = deps.len() - 1;
        let init = deps.subrange(0, n);
        let last = deps[n];
        let here = prefix.push(last.0@);
        let f = forest_chains(init, prefix);
        let t = tree_chains(last.1, here);
        lemma_forest_chains_shape(init, prefix);
        lemma_tree_chains_shape(last.1, here);
        let all = forest_chains(deps, prefix);
        assert(all == f + seq![here] + t);
        assert(dependency_names(deps)[n] == last.0@);
        assert forall|j: int| 0 <= j < all.len() implies {
            let c = #[trigger] all[j];
            &&& c.len() > prefix.len()
            &&& c.subrange(0, prefix.len() as int) == prefix
            &&& dependency_names(deps).contains(c[prefix.len() as int])
        } by {
            let c = all[j];
            if j < f.len() {
                assert(c == f[j]);
                let k = choose|k: int| 0 <= k < dependency_names(init).len() && dependency_names(init)[k] == c[prefix.len() as int];
                assert(dependency_names(deps)[k] == dependency_names(init)[k]);
            } else if j == f.len() {
                assert(c == here);
                assert(here.subrange(0, prefix.len() as int) =~= prefix);
            } else {
                assert(c == t[j - f.len() - 1]);
                assert(c.subrange(0, here.len() as int) == here);
                assert(c[prefix.len() as int] == c.subrange(0, here.len() as int)[prefix.len() as int]);
                assert(c.subrange(0, prefix.len() as int) =~= here.subrange(0, prefix.len() as int));
                assert(here.subrange(0, prefix.len() as int) =~= prefix);
            }
        }
    }
}

/// In a tree whose nodes have distinctly named dependencies, each chain
/// occurs once.
pub proof fn lemma_tree_chains_unique(t: DependencyTree, prefix: Chain)
    requires
        tree_wf(t),
    ensures
        tree_chains(t, prefix).no_duplicates(),
    decreases t, 1int,
{
    lemma_forest_chains_unique(t.dependencies@, prefix);
}

/// In a forest whose nodes have distinctly named dependencies, each chain
/// occurs once.
pub proof fn lemma_forest_chains_unique(deps: Seq<(String, DependencyTree)>, prefix: Chain)
    requires
        forest_wf(deps),
    ensures
        forest_chains(deps, prefix).no_duplicates(),
    decreases deps, 0int,
{
    if deps.len() > 0 {
        let n = deps.len() - 1;
        let init = deps.subrange(0, n);
        let last = deps[n];
        let here = prefix.push(last.0@);
        let f = forest_chains(init, prefix);
        let t = tree_chains(last.1, here);
        lemma_forest_chains_unique(init, prefix);
        lemma_tree_chains_unique(last.1, here);
        lemma_forest_chains_shape(init, prefix);
        lemma_tree_chains_shape(last.1, here);
        let g = seq![here] + t;
        assert forall|a: int, b: int| 0 <= a < g.len() && 0 <= b < g.len() && a != b implies g[a] != g[b] by {
            if a == 0 {
                assert(g[b] == t[b - 1]);
            } else if b == 0 {
                assert(g[a] == t[a - 1]);
            } else {
                assert(g[a] == t[a - 1]);
                assert(g[b] == t[b - 1]);
            }
        }
        assert forall|a: int, b: int| 0 <= a < f.len() && 0 <= b < g.len() implies f[a] != g[b] by {
            let c = f[a];
            let k = choose|k: int| 0 <= k < dependency_names(init).len() && dependency_names(init)[k] == c[prefix.len() as int];
            let d = g[b];
            if b == 0 {
                assert(d[prefix.len() as int] == last.0@);
            } else {
                assert(d == t[b - 1]);
                assert(d.subrange(0, here.len() as int) == here);
                assert(d[prefix.len() as int] == d.subrange(0, here.len() as int)[prefix.len() as int]);
                assert(d[prefix.len() as int] == last.0@);
            }
            if c == d {
                assert(dependency_names(init).contains(last.0@));
            }
        }
        vstd::seq_lib::lemma_no_dup_in_concat(f, g);
        assert(forest_chains(deps, prefix) =~= f + g);
    }
}

proof fn lemma_filter_no_dup<A>(s: Seq<A>, p: spec_fn(A) -> bool)
    requires
        s.no_duplicates(),
    ensures
        s.filter(p).no_duplicates(),
    decreases s.len(),
{
    reveal_with_fuel(Seq::<_>::filter, 1);
    if s.len() > 0 {
        let init = s.drop_last();
        assert(init.no_duplicates()) by {
            assert forall|a: int, b: int| 0 <= a < init.len() && 0 <= b < init.len() && a != b implies init[a] != init[b] by {
                assert(init[a] == s[a]);
                assert(init[b] == s[b]);
            }
        }
        lemma_filter_no_dup(init, p);
        if p(s.last()) {
            let f = init.filter(p);
            assert forall|k: int| 0 <= k < f.len() implies f[k] != s.last() by {
                broadcast use vstd::seq_lib::group_filter_ensures;
                assert(f.contains(f[k]));
                assert(init.contains(f[k])) by {
                    init.lemma_filter_contains_rev(p, f[k]);
                }
                let m = choose|m: int| 0 <= m < init.len() && init[m] == f[k];
                assert(s[m] == init[m]);
                assert(s[s.len() - 1] == s.last());
            }
            vstd::seq_lib::lemma_no_dup_in_concat(f, seq![s.last()]);
            assert(f.push(s.last()) =~= f + seq![s.last()]);
        }
    }
}

/// On a tree whose nodes have distinctly named dependencies, the group that
/// `collect_chains` gives a name holds each chain once.
pub proof fn lemma_chain_groups_unique(t: DependencyTree, names: Seq<Seq<char>>, k: Seq<char>)
    requires
        tree_wf(t),
    ensures
        lookup(chain_groups(t, names), k) matches Some(cs) ==> cs.no_duplicates(),
{
    lemma_chain_groups_lookup(t, names, k);
    lemma_tree_chains_unique(t, Seq::empty());
    lemma_filter_no_dup(tree_chains(t, Seq::empty()), ends_with(k));
}

/// `p` is a path of the tree `t`: its first name is a dependency of the
/// root, and each further name a dependency of the node before it.
pub open spec fn is_path(t: DependencyTree, p: Chain) -> bool
    decreases p.len(), 1int,
{
    leads_through(t.dependencies@, p)
}

/// `p` starts at one of the dependencies `deps` and goes on down from it.
pub open spec fn leads_through(deps: Seq<(String, DependencyTree)>, p: Chain) -> bool
    decreases p.len(), 0int,
{
    p.len() > 0 && exists|i: int|
        0 <= i < deps.len() && (#[trigger] deps[i]).0@ == p[0] && (p.len() == 1 || is_path(
            deps[i].1,
            p.drop_first(),
        ))
}

/// The chains of a forest hold the chain of each of its roots, and every
/// chain below that root.
proof fn lemma_forest_holds(deps: Seq<(String, DependencyTree)>, prefix: Chain, i: int)
    requires
        0 <= i < deps.len(),
    ensures
        forest_chains(deps, prefix).contains(prefix.push(deps[i].0@)),
        forall|c: Chain| #[trigger] tree_chains(deps[i].1, prefix.push(deps[i].0@)).contains(c)
            ==> forest_chains(deps, prefix).contains(c),
    decreases deps.len(),
{
    let n = deps.len() - 1;
    let init = deps.subrange(0, n);
    let last = deps[n];
    let here = prefix.push(last.0@);
    let f = forest_chains(init, prefix);
    let t = tree_chains(last.1, here);
    let all = forest_chains(deps, prefix);
    assert(all == f + seq![here] + t);
    if i == n {
        assert(all[f.len() as int] == here);
        assert forall|c: Chain| #[trigger] t.contains(c) implies all.contains(c) by {
            let k = choose|k: int| 0 <= k < t.len() && t[k] == c;
            assert(all[f.len() + 1 + k] == c);
        }
    } else {
        lemma_forest_holds(init, prefix, i);
        assert(init[i] == deps[i]);
        let h = prefix.push(deps[i].0@);
        let k = choose|k: int| 0 <= k < f.len() && f[k] == h;
        assert(all[k] == h);
        assert forall|c: Chain| #[trigger] tree_chains(deps[i].1, h).contains(c) implies all.contains(c) by {
            assert(f.contains(c));
            let m = choose|m: int| 0 <= m < f.len() && f[m] == c;
            assert(all[m] == c);
        }
    }
}

/// Every path of the tree is one of its chains.
proof fn lemma_paths_are_chains(t: DependencyTree, prefix: Chain, p: Chain)
    requires
        is_path(t, p),
    ensures
        tree_chains(t, prefix).contains(prefix + p),
    decreases p.len(),
{
    let deps = t.dependencies@;
    let i = choose|i: int|
        0 <= i < deps.len() && (#[trigger] deps[i]).0@ == p[0] && (p.len() == 1 || is_path(
            deps[i].1,
            p.drop_first(),
        ));
    let here = prefix.push(p[0]);
    lemma_forest_holds(deps, prefix, i);
    assert(tree_chains(t, prefix) == forest_chains(deps, prefix));
    if p.len() == 1 {
        assert(prefix + p =~= here);
    } else {
        lemma_paths_are_chains(deps[i].1, here, p.drop_first());
        assert(here + p.drop_first() =~= prefix + p);
        assert(tree_chains(deps[i].1, here).contains(prefix + p));
    }
}

/// Every chain of a tree extends `prefix` by a path of the tree.
proof fn lemma_tree_chains_are_paths(t: DependencyTree, prefix: Chain)
    ensures
        forall|j: int| 0 <= j < tree_chains(t, prefix).len() ==> {
            let c = #[trigger] tree_chains(t, prefix)[j];
            &&& c.len() > prefix.len()
            &&& c.subrange(0, prefix.len() as int) == prefix
            &&& is_path(t, c.subrange(prefix.len() as int, c.len() as int))
        },
    decreases t, 1int,
{
    lemma_forest_chains_are_paths(t.dependencies@, prefix);
    assert(tree_chains(t, prefix) == forest_chains(t.dependencies@, prefix));
}

/// Every chain of a forest extends `prefix` by a path that starts at one of
/// its roots.
proof fn lemma_forest_chains_are_paths(deps: Seq<(String, DependencyTree)>, prefix: Chain)
    ensures
        forall|j: int| 0 <= j < forest_chains(deps, prefix).len() ==> {
            let c = #[trigger] forest_chains(deps, prefix)[j];
            &&& c.len() > prefix.len()
            &&& c.subrange(0, prefix.len() as int) == prefix
            &&& leads_through(deps, c.subrange(prefix.len() as int, c.len() as int))
        },
    decreases deps, 0int,
{
    if deps.len() > 0 {
        let n = deps.len() - 1;
        let init = deps.subrange(0, n);
        let last = deps[n];
        let here = prefix.push(last.0@);
        let f = forest_chains(init, prefix);
        let t = tree_chains(last.1, here);
        lemma_forest_chains_are_paths(init, prefix);
        lemma_tree_chains_are_paths(last.1, here);
        let all = forest_chains(deps, prefix);
        assert(all == f + seq![here] + t);
        assert forall|j: int| 0 <= j < all.len() implies {
            let c = #[trigger] all[j];
            &&& c.len() > prefix.len()
            &&& c.subrange(0, prefix.len() as int) == prefix
            &&& leads_through(deps, c.subrange(prefix.len() as int, c.len() as int))
        } by {
            let c = all[j];
            let q = c.subrange(prefix.len() as int, c.len() as int);
            if j < f.len() {
                assert(c == f[j]);
                assert(leads_through(init, q));
                let k = choose|k: int|
                    0 <= k < init.len() && (#[trigger] init[k]).0@ == q[0] && (q.len() == 1 || is_path(
                        init[k].1,
                        q.drop_first(),
                    ));
                assert(deps[k] == init[k]);
            } else if j == f.len() {
                assert(c == here);
                assert(here.subrange(0, prefix.len() as int) =~= prefix);
                assert(q =~= seq![last.0@]);
                assert(deps[n].0@ == q[0]);
            } else {
                assert(c == t[j - f.len() - 1]);
                let r = c.subrange(here.len() as int, c.len() as int);
                assert(c.subrange(0, here.len() as int) == here);
                assert(is_path(last.1, r));
                assert(c[prefix.len() as int] == c.subrange(0, here.len() as int)[prefix.len() as int]);
                assert(c.subrange(0, prefix.len() as int) =~= here.subrange(0, prefix.len() as int));
                assert(here.subrange(0, prefix.len() as int) =~= prefix);
                assert(q.drop_first() =~= r);
                assert(q[0] == last.0@);
                assert(deps[n].0@ == q[0]);
            }
        }
    }
}

/// `collect_chains` misses no path: every path of the tree, however deep,
/// that ends in one of `names` is in the group of its last name.
pub proof fn lemma_chain_groups_complete(t: DependencyTree, names: Seq<Seq<char>>, p: Chain)
    requires
        is_path(t, p),
        names.contains(p.last()),
    ensures
        lookup(chain_groups(t, names), p.last()) matches Some(cs) && cs.contains(p),
{
    let all = tree_chains(t, Seq::empty());
    lemma_paths_are_chains(t, Seq::empty(), p);
    assert(Seq::<Seq<char>>::empty() + p =~= p);
    let k = choose|k: int| 0 <= k < all.len() && all[k] == p;
    lemma_filter_keeps(all, ends_with(p.last()), k);
    lemma_chain_groups_lookup(t, names, p.last());
}

/// `collect_chains` makes nothing up: a group belongs to one of `names`,
/// and each of its chains is a path of the tree that ends in that name.
pub proof fn lemma_chain_groups_sound(t: DependencyTree, names: Seq<Seq<char>>, k: Seq<char>)
    ensures
        lookup(chain_groups(t, names), k) matches Some(cs) ==> {
            &&& names.contains(k)
            &&& forall|j: int| 0 <= j < cs.len() ==> is_path(t, #[trigger] cs[j]) && cs[j].last() == k
        },
{
    let all = tree_chains(t, Seq::empty());
    lemma_chain_groups_lookup(t, names, k);
    lemma_tree_chains_are_paths(t, Seq::empty());
    if let Some(cs) = lookup(chain_groups(t, names), k) {
        assert forall|j: int| 0 <= j < cs.len() implies is_path(t, #[trigger] cs[j]) && cs[j].last() == k by {
            broadcast use vstd::seq_lib::group_filter_ensures;
            all.lemma_filter_pred(ends_with(k), j);
            assert(cs[j] == all.filter(ends_with(k))[j]);
            assert(all.filter(ends_with(k)).contains(cs[j]));
            all.lemma_filter_contains_rev(ends_with(k), cs[j]);
            let m = choose|m: int| 0 <= m < all.len() && all[m] == cs[j];
            assert(all[m].subrange(0, all[m].len() as int) =~= all[m]);
            assert(all[m].subrange(0, 0) =~= Seq::<Seq<char>>::empty());
        }
    }
}

proof fn lemma_filter_keeps<A>(s: Seq<A>, p: spec_fn(A) -> bool, k: int)
    requires
        0 <= k < s.len(),
        p(s[k]),
    ensures
        s.filter(p).contains(s[k]),
{
    broadcast use vstd::seq_lib::group_filter_ensures;
    assert(s.contains(s[k]));
}

} // verus!
