//! Graph separation boosting, after Alon, Gonen, Hazan and Moran,
//! "Boosting Simple Learners".
//!
//! The booster keeps a graph over the rows of the sample. At the start
//! two rows are joined where their targets differ. Each round asks the
//! weak learner for a hypothesis under the distribution that weighs a
//! row by its degree, and removes every edge whose ends the hypothesis
//! tells apart. The hypotheses decide together by an unweighted vote.
use crate::booster::driver::continued;
use crate::booster::driver::is_run;
use crate::booster::driver::Booster;
use crate::hypothesis::are_copies;
use crate::hypothesis::copy_all;
use crate::hypothesis::Classifier;
use crate::hypothesis::NaiveAggregation;
use crate::research::Research;
use crate::sample::feature::decimal;
use crate::sample::feature::decimal_string;
use crate::sample::Sample;
use crate::weak_learner::is_distribution;
use crate::weak_learner::total_weight;
use crate::weak_learner::WeakLearner;
use std::collections::HashSet;
use std::ops::ControlFlow;
use vstd::prelude::*;

verus! {

broadcast use vstd::std_specs::hash::group_hash_axioms;

/// Whether the targets of rows `i` and `j` differ.
pub open spec fn differ(sample: &Sample, i: int, j: int) -> bool {
    !sample.labels()[i].same(sample.labels()[j])
}

/// Whether `h` predicts the same label for rows `i` and `j`.
pub open spec fn agree<F: Classifier>(h: F, sample: &Sample, i: int, j: int) -> bool {
    h.confidence_of(sample, i).sign() == h.confidence_of(sample, j).sign()
}

/// Whether no hypothesis tells rows `i` and `j` apart.
pub open spec fn unseparated<F: Classifier>(
    hypotheses: Seq<F>,
    sample: &Sample,
    i: int,
    j: int,
) -> bool {
    forall|t: int| 0 <= t < hypotheses.len() ==> agree(#[trigger] hypotheses[t], sample, i, j)
}

/// Whether rows `i` and `j` are joined once the given hypotheses have
/// been applied: they are two rows, their targets differ, and no
/// hypothesis tells them apart.
pub open spec fn is_edge<F: Classifier>(hypotheses: Seq<F>, sample: &Sample, i: int, j: int) -> bool {
    i != j && differ(sample, i, j) && unseparated(hypotheses, sample, i, j)
}

/// The sum of the degrees of the first `upto` vertices.
pub open spec fn degree_sum(graph: Seq<Set<usize>>, upto: int) -> int
    decreases upto,
{
    if upto <= 0 || upto > graph.len() {
        0
    } else {
        degree_sum(graph, upto - 1) + graph[upto - 1].len()
    }
}

/// The degrees of the vertices, in order.
pub open spec fn degrees(graph: Seq<Set<usize>>) -> Seq<usize> {
    Seq::new(graph.len(), |k: int| graph[k].len() as usize)
}

/// The neighbour sets of an adjacency list.
pub open spec fn neighbours(edges: Seq<HashSet<usize>>) -> Seq<Set<usize>> {
    Seq::new(edges.len(), |k: int| edges[k]@)
}

/// Whether the pair of rows `a` and `b` comes before the pair `(i, j)`
/// in the order in which the pairs are visited.
pub open spec fn visited(a: int, b: int, i: int, j: int) -> bool {
    let lo = if a < b { a } else { b };
    let hi = if a < b { b } else { a };
    lo < i || (lo == i && hi < j)
}

/// Whether every neighbour in the graph is one of `n` rows, and every
/// neighbour set is finite.
pub open spec fn bounded(graph: Seq<Set<usize>>, n: nat) -> bool {
    &&& graph.len() == n
    &&& forall|a: int| 0 <= a < n ==> (#[trigger] graph[a]).finite()
    &&& forall|a: int, x: usize| 0 <= a < n && (#[trigger] graph[a].contains(x)) ==> x < n
}

/// The graph separation booster.
pub struct GraphSepBoost<'a, F> {
    sample: &'a Sample,
    edges: Vec<HashSet<usize>>,
    hypotheses: Vec<F>,
    n_edges: usize,
    max_iter: usize,
}

/// A finite set of numbers below `m` has at most `m` elements.
pub proof fn lemma_bounded_set_len(s: Set<usize>, m: nat)
    requires
        s.finite(),
        forall|x: usize| s.contains(x) ==> x < m,
    ensures
        s.len() <= m,
    decreases m,
{
    if m == 0 {
        assert(s =~= Set::empty());
    } else {
        let top = (m - 1) as usize;
        let rest = s.remove(top);
        assert forall|x: usize| rest.contains(x) implies x < m - 1 by {
            assert(s.contains(x));
        }
        lemma_bounded_set_len(rest, (m - 1) as nat);
    }
}

/// The degrees of `upto` vertices of a graph on `n` rows add up to at
/// most `upto * n`.
pub proof fn lemma_degree_sum_bound(graph: Seq<Set<usize>>, n: nat, upto: int)
    requires
        bounded(graph, n),
        0 <= upto <= n,
    ensures
        0 <= degree_sum(graph, upto) <= upto * n,
    decreases upto,
{
    if upto > 0 {
        lemma_degree_sum_bound(graph, n, upto - 1);
        lemma_bounded_set_len(graph[upto - 1], n);
        assert((upto - 1) * n + n == upto * n) by (nonlinear_arith);
    }
}

/// Where every neighbour set of `small` lies within that of `large`,
/// the degrees of `small` add up to no more than those of `large`.
pub proof fn lemma_degree_sum_monotone(small: Seq<Set<usize>>, large: Seq<Set<usize>>, upto: int)
    requires
        small.len() == large.len(),
        0 <= upto <= large.len(),
        forall|a: int| 0 <= a < large.len() ==> (#[trigger] large[a]).finite(),
        forall|a: int| 0 <= a < large.len() ==> (#[trigger] small[a]).subset_of(large[a]),
    ensures
        degree_sum(small, upto) <= degree_sum(large, upto),
    decreases upto,
{
    if upto > 0 {
        lemma_degree_sum_monotone(small, large, upto - 1);
        assert(small[upto - 1].subset_of(large[upto - 1]));
        vstd::set_lib::lemma_len_subset(small[upto - 1], large[upto - 1]);
    }
}

/// Where the degrees add up to zero, no vertex has a neighbour.
pub proof fn lemma_no_edges(graph: Seq<Set<usize>>, n: nat, upto: int, a: int)
    requires
        bounded(graph, n),
        0 <= a < upto <= n,
        degree_sum(graph, upto) == 0,
    ensures
        graph[a].len() == 0,
        graph[a] =~= Set::empty(),
    decreases upto,
{
    lemma_degree_sum_bound(graph, n, upto - 1);
    if a < upto - 1 {
        lemma_no_edges(graph, n, upto - 1, a);
    } else {
        assert(graph[a].len() == 0);
        assert(graph[a].finite());
    }
}

/// The degrees add up as the weights of a distribution do.
pub proof fn lemma_degrees_total(graph: Seq<Set<usize>>, n: nat, upto: int)
    requires
        bounded(graph, n),
        0 <= upto <= n,
        n * n <= usize::MAX,
    ensures
        total_weight(degrees(graph), upto) == degree_sum(graph, upto),
    decreases upto,
{
    if upto > 0 {
        lemma_degrees_total(graph, n, upto - 1);
        lemma_bounded_set_len(graph[upto - 1], n);
        assert(n <= n * n) by (nonlinear_arith)
            requires
                n >= 1,
        ;
    }
}

/// Adds up the degrees of a graph on `n` rows.
fn count_edges(edges: &Vec<HashSet<usize>>, n: usize) -> (r: usize)
    requires
        bounded(neighbours(edges@), n as nat),
        n * n <= usize::MAX,
    ensures
        r == degree_sum(neighbours(edges@), n as int),
{
    let ghost graph = neighbours(edges@);
    let mut sum: usize = 0;
    let mut k: usize = 0;
    while k < n
        invariant
            graph == neighbours(edges@),
            bounded(graph, n as nat),
            n * n <= usize::MAX,
            k <= n,
            sum == degree_sum(graph, k as int),
        decreases n - k,
    {
        proof {
            lemma_degree_sum_bound(graph, n as nat, k as int + 1);
            assert((k + 1) * n <= n * n) by (nonlinear_arith)
                requires
                    k + 1 <= n,
            ;
        }
        sum = sum + edges[k].len();
        k += 1;
    }
    sum
}

/// The degree of every vertex of a graph on `n` rows.
fn degree_list(edges: &Vec<HashSet<usize>>, n: usize) -> (r: Vec<usize>)
    requires
        edges@.len() == n,
    ensures
        r@ == degrees(neighbours(edges@)),
{
    let mut out: Vec<usize> = Vec::new();
    let mut k: usize = 0;
    while k < n
        invariant
            edges@.len() == n,
            k <= n,
            out@.len() == k,
            forall|a: int| 0 <= a < k ==> out@[a] == edges@[a]@.len(),
        decreases n - k,
    {
        out.push(edges[k].len());
        k += 1;
    }
    assert(out@ =~= degrees(neighbours(edges@)));
    out
}

impl<'a, F: Classifier> GraphSepBoost<'a, F> {
    /// The training sample.
    pub closed spec fn training(&self) -> &Sample {
        self.sample
    }

    /// The neighbour set of every row.
    pub closed spec fn graph(&self) -> Seq<Set<usize>> {
        neighbours(self.edges@)
    }

    /// The hypotheses obtained so far, in order.
    pub closed spec fn rounds(&self) -> Seq<F> {
        self.hypotheses@
    }

    /// The sum of the degrees at the end of the last round.
    pub closed spec fn edge_count(&self) -> nat {
        self.n_edges as nat
    }

    /// The last round that may ask the weak learner.
    pub closed spec fn round_limit(&self) -> nat {
        self.max_iter as nat
    }

    /// The sample is well-formed, has a target, and is small enough for
    /// the number of its pairs of rows to be counted.
    pub open spec fn usable(&self) -> bool {
        &&& self.training().wf()
        &&& self.training().has_target()
        &&& self.training().rows() * self.training().rows() <= usize::MAX
    }

    /// Between two rounds: rows `i` and `j` are joined exactly when their
    /// targets differ and no hypothesis so far tells them apart, and the
    /// edge count is the sum of the degrees.
    pub open spec fn separating(&self) -> bool {
        &&& self.usable()
        &&& bounded(self.graph(), self.training().rows())
        &&& forall|i: int, j: int|
            0 <= i < self.training().rows() && 0 <= j < self.training().rows() ==> (
            #[trigger] self.graph()[i].contains(j as usize) <==> is_edge(
                self.rounds(),
                self.training(),
                i,
                j,
            ))
        &&& self.edge_count() == degree_sum(self.graph(), self.training().rows() as int)
    }

    /// A booster for `sample`, with no limit on the number of rounds.
    pub fn init(sample: &'a Sample) -> (r: Self)
        ensures
            r.training() == sample,
            r.rounds().len() == 0,
            r.graph().len() == 0,
            r.edge_count() == usize::MAX,
            r.round_limit() == usize::MAX,
    {
        GraphSepBoost {
            sample,
            hypotheses: Vec::new(),
            edges: Vec::new(),
            n_edges: usize::MAX,
            max_iter: usize::MAX,
        }
    }

    /// The name of the algorithm.
    pub fn name(&self) -> (r: &'static str)
        ensures
            r@ == "Graph Separation Boosting"@,
    {
        "Graph Separation Boosting"
    }

    /// What there is to say of the booster before a run: the number of
    /// examples and the number of features of its sample.
    pub fn info(&self) -> (r: Vec<(&'static str, String)>)
        ensures
            r@.len() == 2,
            r@[0].0@ == "# of examples"@,
            r@[0].1@ == decimal(self.training().rows()),
            r@[1].0@ == "# of features"@,
            r@[1].1@ == decimal(self.training().width()),
    {
        let shape = self.sample.shape();
        let mut out: Vec<(&'static str, String)> = Vec::new();
        out.push(("# of examples", decimal_string(shape.0)));
        out.push(("# of features", decimal_string(shape.1)));
        out
    }

    /// Sets the last round that may ask the weak learner.
    pub fn max_iter(self, max_iter: usize) -> (r: Self)
        ensures
            r.training() == self.training(),
            r.rounds() == self.rounds(),
            r.graph() == self.graph(),
            r.edge_count() == self.edge_count(),
            r.round_limit() == max_iter,
    {
        let mut this = self;
        this.max_iter = max_iter;
        this
    }

    /// The graph in which two rows are joined exactly when their targets
    /// differ.
    fn initial_edges(sample: &Sample) -> (edges: Vec<HashSet<usize>>)
        requires
            sample.wf(),
            sample.has_target(),
        ensures
            bounded(neighbours(edges@), sample.rows()),
            forall|a: int, b: int|
                0 <= a < sample.rows() && 0 <= b < sample.rows() ==> (
                #[trigger] edges@[a]@.contains(b as usize) <==> a != b && differ(sample, a, b)),
    {
        let n: usize = sample.shape().0;
        let target = sample.target();
        let mut edges: Vec<HashSet<usize>> = Vec::new();
        let mut k: usize = 0;
        while k < n
            invariant
                k <= n,
                edges@.len() == k,
                forall|a: int| 0 <= a < k ==> (#[trigger] edges@[a])@ =~= Set::<usize>::empty(),
                forall|a: int| 0 <= a < k ==> (#[trigger] edges@[a])@.finite(),
            decreases n - k,
        {
            edges.push(HashSet::new());
            k += 1;
        }
        let mut i: usize = 0;
        while i < n
            invariant
                n == sample.rows(),
                target@ == sample.labels(),
                target@.len() == n,
                i <= n,
                edges@.len() == n,
                forall|a: int| 0 <= a < n ==> (#[trigger] edges@[a])@.finite(),
                forall|a: int, x: usize| 0 <= a < n && (#[trigger] edges@[a]@.contains(x)) ==> x < n,
                forall|a: int, b: int|
                    0 <= a < n && 0 <= b < n ==> (#[trigger] edges@[a]@.contains(b as usize) <==> a
                        != b && differ(sample, a, b) && visited(a, b, i as int, 0)),
            decreases n - i,
        {
            let mut j: usize = i + 1;
            assert forall|a: int, b: int| 0 <= a < n && 0 <= b < n implies (visited(
                a,
                b,
                i as int,
                0,
            ) <==> visited(a, b, i as int, i as int + 1)) || a == b by {}
            while j < n
                invariant
                    n == sample.rows(),
                    target@ == sample.labels(),
                    target@.len() == n,
                    i < n,
                    i < j <= n,
                    edges@.len() == n,
                    forall|a: int| 0 <= a < n ==> (#[trigger] edges@[a])@.finite(),
                    forall|a: int, x: usize|
                        0 <= a < n && (#[trigger] edges@[a]@.contains(x)) ==> x < n,
                    forall|a: int, b: int|
                        0 <= a < n && 0 <= b < n ==> (#[trigger] edges@[a]@.contains(b as usize)
                            <==> a != b && differ(sample, a, b) && visited(
                            a,
                            b,
                            i as int,
                            j as int,
                        )),
                decreases n - j,
            {
                if !target[i].equals(target[j]) {
                    edges[i].insert(j);
                    edges[j].insert(i);
                }
                j += 1;
            }
            i += 1;
        }
        proof {
            assert forall|a: int| 0 <= a < n implies (#[trigger] neighbours(edges@)[a]).finite() by {
                assert(edges@[a]@.finite());
            }
        }
        edges
    }

    /// Removes every edge whose ends `h` tells apart.
    fn update_params(&mut self, h: &F)
        requires
            old(self).separating(),
        ensures
            final(self).training() == old(self).training(),
            final(self).rounds() == old(self).rounds(),
            final(self).round_limit() == old(self).round_limit(),
            final(self).edge_count() == old(self).edge_count(),
            bounded(final(self).graph(), final(self).training().rows()),
            forall|a: int, b: int|
                0 <= a < final(self).training().rows() && 0 <= b < final(self).training().rows() ==> (
                #[trigger] final(self).graph()[a].contains(b as usize) <==> is_edge(
                    old(self).rounds().push(*h),
                    old(self).training(),
                    a,
                    b,
                )),
            forall|a: int|
                0 <= a < final(self).training().rows() ==> (#[trigger] final(self).graph()[a]).subset_of(
                    old(self).graph()[a],
                ),
    {
        let predictions: Vec<i64> = h.predict_all(self.sample);
        let n: usize = self.sample.shape().0;
        let ghost before = self.edges@;
        let ghost sample = self.sample;
        let ghost hyps = self.hypotheses@;
        proof {
            assert forall|a: int| 0 <= a < n implies (#[trigger] self.edges@[a])@.finite() by {
                assert(self.graph()[a].finite());
            }
        }
        let mut i: usize = 0;
        while i < n
            invariant
                self.sample == sample,
                self.hypotheses@ == hyps,
                self.max_iter == old(self).max_iter,
                self.n_edges == old(self).n_edges,
                n == sample.rows(),
                predictions@.len() == n,
                i <= n,
                before.len() == n,
                self.edges@.len() == n,
                forall|a: int| 0 <= a < n ==> (#[trigger] self.edges@[a])@.finite(),
                forall|a: int, b: int|
                    0 <= a < n && 0 <= b < n ==> (#[trigger] self.edges@[a]@.contains(b as usize)
                        <==> before[a]@.contains(b as usize) && (visited(a, b, i as int, 0)
                        ==> predictions@[a] == predictions@[b])),
                forall|a: int, x: usize|
                    0 <= a < n && (#[trigger] self.edges@[a]@.contains(x)) ==> before[a]@.contains(x),
            decreases n - i,
        {
            let mut j: usize = i + 1;
            assert forall|a: int, b: int| 0 <= a < n && 0 <= b < n implies (visited(
                a,
                b,
                i as int,
                0,
            ) <==> visited(a, b, i as int, i as int + 1)) || a == b by {}
            while j < n
                invariant
                    self.sample == sample,
                    self.hypotheses@ == hyps,
                    self.max_iter == old(self).max_iter,
                    self.n_edges == old(self).n_edges,
                    n == sample.rows(),
                    predictions@.len() == n,
                    i < n,
                    i < j <= n,
                    before.len() == n,
                    self.edges@.len() == n,
                    forall|a: int| 0 <= a < n ==> (#[trigger] self.edges@[a])@.finite(),
                    forall|a: int, b: int|
                        0 <= a < n && 0 <= b < n ==> (#[trigger] self.edges@[a]@.contains(
                            b as usize,
                        ) <==> before[a]@.contains(b as usize) && (visited(a, b, i as int, j as int)
                            ==> predictions@[a] == predictions@[b])),
                    forall|a: int, x: usize|
                        0 <= a < n && (#[trigger] self.edges@[a]@.contains(x)) ==> before[a]@.contains(
                            x,
                        ),
                decreases n - j,
            {
                if predictions[i] != predictions[j] {
                    self.edges[i].remove(&j);
                    self.edges[j].remove(&i);
                }
                j += 1;
            }
            i += 1;
        }
        proof {
            let graph = neighbours(self.edges@);
            let earlier = neighbours(before);
            assert(earlier == old(self).graph());
            assert forall|a: int| 0 <= a < n implies (#[trigger] graph[a]).finite() by {
                assert(self.edges@[a]@.finite());
            }
            assert forall|a: int, x: usize| 0 <= a < n && (#[trigger] graph[a].contains(x)) implies x
                < n by {
                assert(self.edges@[a]@.contains(x));
                assert(earlier[a].contains(x));
            }
            assert forall|a: int, b: int| 0 <= a < n && 0 <= b < n implies (
            #[trigger] graph[a].contains(b as usize) <==> is_edge(hyps.push(*h), sample, a, b)) by {
                let more = hyps.push(*h);
                assert(self.edges@[a]@.contains(b as usize) == graph[a].contains(b as usize));
                assert(earlier[a].contains(b as usize) <==> is_edge(hyps, sample, a, b));
                assert(predictions@[a] == h.confidence_of(sample, a).sign());
                assert(predictions@[b] == h.confidence_of(sample, b).sign());
                if unseparated(more, sample, a, b) {
                    assert(more[hyps.len() as int] == *h);
                    assert(agree(more[hyps.len() as int], sample, a, b));
                    assert forall|t: int| 0 <= t < hyps.len() implies agree(
                        #[trigger] hyps[t],
                        sample,
                        a,
                        b,
                    ) by {
                        assert(more[t] == hyps[t]);
                    }
                }
                if unseparated(hyps, sample, a, b) && agree(*h, sample, a, b) {
                    assert forall|t: int| 0 <= t < more.len() implies agree(
                        #[trigger] more[t],
                        sample,
                        a,
                        b,
                    ) by {
                        if t < hyps.len() {
                            assert(more[t] == hyps[t]);
                        }
                    }
                }
                if a != b {
                    assert(visited(a, b, n as int, 0));
                }
            }
            assert forall|a: int| 0 <= a < n implies (#[trigger] graph[a]).subset_of(
                earlier[a],
            ) by {
                assert forall|x: usize| graph[a].contains(x) implies earlier[a].contains(x) by {
                    assert(self.edges@[a]@.contains(x));
                }
            }
        }
    }
}


impl<'a, F: Classifier + Clone, W: WeakLearner<Hypothesis = F>> Booster<W> for GraphSepBoost<'a, F> {
    type Output = NaiveAggregation<F>;

    open spec fn ready(&self) -> bool {
        self.usable()
    }

    open spec fn running(&self) -> bool {
        self.separating()
    }

    /// The sample and the round limit stay, no hypothesis is left, and
    /// two rows are joined exactly when their targets differ.
    open spec fn restarts(pre: Self, post: Self) -> bool {
        &&& post.training() == pre.training()
        &&& post.round_limit() == pre.round_limit()
        &&& post.rounds().len() == 0
        &&& post.separating()
    }

    /// With no edge left, or past the round limit, the round changes
    /// nothing and breaks with its own number. Otherwise the state gains
    /// one hypothesis and loses the edges that it separates, and no edge
    /// is added; the round breaks with the next number where no edge was
    /// lost and signals to continue where one was.
    open spec fn advances(pre: Self, iteration: usize, post: Self, flow: ControlFlow<usize>) -> bool {
        if pre.edge_count() == 0 || pre.round_limit() < iteration {
            post == pre && flow == ControlFlow::<usize, ()>::Break(iteration)
        } else {
            &&& post.training() == pre.training()
            &&& post.round_limit() == pre.round_limit()
            &&& post.rounds().len() == pre.rounds().len() + 1
            &&& post.rounds().drop_last() == pre.rounds()
            &&& post.separating()
            &&& forall|a: int|
                0 <= a < pre.graph().len() ==> (#[trigger] post.graph()[a]).subset_of(pre.graph()[a])
            &&& post.edge_count() <= pre.edge_count()
            &&& flow == if post.edge_count() == pre.edge_count() {
                ControlFlow::<usize, ()>::Break((iteration + 1) as usize)
            } else {
                ControlFlow::<usize, ()>::Continue(())
            }
        }
    }

    /// The booster stays as it is, and the aggregation holds a copy of
    /// each of its hypotheses, in order.
    open spec fn delivers(pre: Self, post: Self, out: NaiveAggregation<F>) -> bool {
        &&& post == pre
        &&& are_copies(pre.rounds(), out.hypotheses@)
    }

    fn preprocess(&mut self, _weak_learner: &W) {
        let n: usize = self.sample.shape().0;
        self.edges = Self::initial_edges(self.sample);
        self.n_edges = count_edges(&self.edges, n);
        self.hypotheses = Vec::new();
        proof {
            let sample = self.sample;
            assert forall|i: int, j: int| 0 <= i < n && 0 <= j < n implies (
            #[trigger] self.graph()[i].contains(j as usize) <==> is_edge(
                self.rounds(),
                sample,
                i,
                j,
            )) by {
                assert(self.edges@[i]@.contains(j as usize) == self.graph()[i].contains(j as usize));
            }
        }
    }

    fn boost(&mut self, weak_learner: &W, iteration: usize) -> (flow: ControlFlow<usize>) {
        if self.n_edges == 0 || self.max_iter < iteration {
            return ControlFlow::Break(iteration);
        }
        let n: usize = self.sample.shape().0;
        let dist: Vec<usize> = degree_list(&self.edges, n);
        proof {
            lemma_degrees_total(self.graph(), n as nat, n as int);
        }
        let h = weak_learner.produce(self.sample, &dist, self.n_edges);
        let ghost earlier = self.graph();
        self.update_params(&h);
        self.hypotheses.push(h);
        proof {
            lemma_degree_sum_monotone(self.graph(), earlier, n as int);
            assert(self.rounds().drop_last() =~= old(self).rounds());
        }
        let n_edges: usize = count_edges(&self.edges, n);
        if self.n_edges == n_edges {
            return ControlFlow::Break(iteration + 1);
        }
        self.n_edges = n_edges;
        ControlFlow::Continue(())
    }

    fn postprocess(&mut self, _weak_learner: &W) -> (out: NaiveAggregation<F>) {
        NaiveAggregation::new(copy_all(&self.hypotheses))
    }
}

impl<'a, F: Classifier + Clone> Research for GraphSepBoost<'a, F> {
    type Output = NaiveAggregation<F>;

    /// The aggregation of copies of the hypotheses obtained so far.
    fn current_hypothesis(&self) -> (out: NaiveAggregation<F>)
        ensures
            are_copies(self.rounds(), out.hypotheses@),
    {
        NaiveAggregation::new(copy_all(&self.hypotheses))
    }
}

/// Once no edge is left, every pair of rows whose targets differ has
/// been told apart by one of the hypotheses.
pub proof fn lemma_separated_when_done<'a, F: Classifier>(
    booster: GraphSepBoost<'a, F>,
    i: int,
    j: int,
)
    requires
        booster.separating(),
        booster.edge_count() == 0,
        0 <= i < booster.training().rows(),
        0 <= j < booster.training().rows(),
        i != j,
        differ(booster.training(), i, j),
    ensures
        exists|t: int|
            0 <= t < booster.rounds().len() && !agree(
                #[trigger] booster.rounds()[t],
                booster.training(),
                i,
                j,
            ),
{
    let n = booster.training().rows();
    lemma_no_edges(booster.graph(), n, n as int, i);
    assert(!booster.graph()[i].contains(j as usize));
    assert(!is_edge(booster.rounds(), booster.training(), i, j));
}

/// Where a run ends with no edge left, the booster holds, for every
/// pair of rows whose targets differ, a hypothesis that predicts
/// different labels for the two, and the aggregation that the run hands
/// back holds a copy of it at the same place.
pub proof fn lemma_run_separates<'a, F: Classifier + Clone, W: WeakLearner<Hypothesis = F>>(
    last: GraphSepBoost<'a, F>,
    end: GraphSepBoost<'a, F>,
    out: NaiveAggregation<F>,
    i: int,
    j: int,
)
    requires
        last.separating(),
        <GraphSepBoost<'a, F> as Booster<W>>::delivers(last, end, out),
        end.edge_count() == 0,
        0 <= i < last.training().rows(),
        0 <= j < last.training().rows(),
        i != j,
        differ(last.training(), i, j),
    ensures
        exists|t: int|
            {
                &&& 0 <= t < end.rounds().len()
                &&& t < out.hypotheses@.len()
                &&& !agree(#[trigger] end.rounds()[t], end.training(), i, j)
                &&& cloned::<F>(end.rounds()[t], out.hypotheses@[t])
            },
{
    lemma_separated_when_done(last, i, j);
    let t = choose|t: int|
        0 <= t < last.rounds().len() && !agree(#[trigger] last.rounds()[t], last.training(), i, j);
    assert(cloned::<F>(last.rounds()[t], out.hypotheses@[t]));
    assert(!agree(end.rounds()[t], end.training(), i, j));
}

/// In every round that asks the weak learner, the degrees form a
/// distribution over the rows: they add up to the edge count, and no
/// degree exceeds it.
pub proof fn lemma_degrees_form_distribution<'a, F: Classifier>(booster: GraphSepBoost<'a, F>, i: int)
    requires
        booster.separating(),
        booster.edge_count() > 0,
        0 <= i < booster.training().rows(),
    ensures
        is_distribution(
            booster.training(),
            degrees(booster.graph()),
            booster.edge_count() as usize,
        ),
        0 <= degrees(booster.graph())[i] <= booster.edge_count(),
{
    let n = booster.training().rows();
    lemma_degrees_total(booster.graph(), n, n as int);
    crate::weak_learner::lemma_weight_within_total(degrees(booster.graph()), n as int, i);
}


/// In a run, every round that signals to continue has removed an edge:
/// after `k` such rounds the edge count has fallen by `k` or more.
pub proof fn lemma_edges_fall<'a, F: Classifier + Clone, W: WeakLearner<Hypothesis = F>>(
    start: GraphSepBoost<'a, F>,
    trace: Seq<GraphSepBoost<'a, F>>,
    k: int,
)
    requires
        is_run::<W, GraphSepBoost<'a, F>>(start, trace),
        0 <= k <= trace.len() - 2,
    ensures
        trace[k].edge_count() + k <= trace[0].edge_count(),
    decreases k,
{
    if k > 0 {
        lemma_edges_fall::<F, W>(start, trace, k - 1);
        assert(continued::<W, GraphSepBoost<'a, F>>(trace, k - 1));
    }
}

/// A run asks the weak learner at most once more than there are edges
/// at its start, whatever the round limit.
pub proof fn lemma_run_is_short<'a, F: Classifier + Clone, W: WeakLearner<Hypothesis = F>>(
    start: GraphSepBoost<'a, F>,
    trace: Seq<GraphSepBoost<'a, F>>,
)
    requires
        is_run::<W, GraphSepBoost<'a, F>>(start, trace),
    ensures
        trace.len() - 1 <= trace[0].edge_count() + 1,
{
    lemma_edges_fall::<F, W>(start, trace, trace.len() - 2);
}


/// A run ends for one of four reasons: no edge was left, the last round
/// lay past the round limit, the last round lost no edge, or the rounds
/// have used up the numbers a counter can hold.
pub proof fn lemma_run_ends<'a, F: Classifier + Clone, W: WeakLearner<Hypothesis = F>>(
    start: GraphSepBoost<'a, F>,
    trace: Seq<GraphSepBoost<'a, F>>,
)
    requires
        is_run::<W, GraphSepBoost<'a, F>>(start, trace),
    ensures
        ({
            let before = trace[trace.len() - 2];
            let after = trace[trace.len() - 1];
            ||| before.edge_count() == 0
            ||| before.round_limit() < trace.len() - 1
            ||| after.edge_count() == before.edge_count()
            ||| trace.len() == usize::MAX
        }),
{
    let before = trace[trace.len() - 2];
    let after = trace[trace.len() - 1];
    let flow = choose|flow: ControlFlow<usize>|
        {
            &&& #[trigger] <GraphSepBoost<'a, F> as Booster<W>>::advances(
                before,
                (trace.len() - 1) as usize,
                after,
                flow,
            )
            &&& (flow is Break || trace.len() == usize::MAX)
        };
}


/// The graph is symmetric and has no loop: a row is never its own
/// neighbour, and two rows are neighbours of each other or not at all.
pub proof fn lemma_graph_is_symmetric<'a, F: Classifier>(booster: GraphSepBoost<'a, F>, i: int, j: int)
    requires
        booster.separating(),
        0 <= i < booster.training().rows(),
        0 <= j < booster.training().rows(),
    ensures
        !booster.graph()[i].contains(i as usize),
        booster.graph()[i].contains(j as usize) == booster.graph()[j].contains(i as usize),
{
    let hypotheses = booster.rounds();
    let sample = booster.training();
    assert(booster.graph()[i].contains(i as usize) == is_edge(hypotheses, sample, i, i));
    assert(booster.graph()[i].contains(j as usize) == is_edge(hypotheses, sample, i, j));
    assert(booster.graph()[j].contains(i as usize) == is_edge(hypotheses, sample, j, i));
    if unseparated(hypotheses, sample, i, j) {
        assert forall|t: int| 0 <= t < hypotheses.len() implies agree(
            #[trigger] hypotheses[t],
            sample,
            j,
            i,
        ) by {
            assert(agree(hypotheses[t], sample, i, j));
        }
    }
    if unseparated(hypotheses, sample, j, i) {
        assert forall|t: int| 0 <= t < hypotheses.len() implies agree(
            #[trigger] hypotheses[t],
            sample,
            i,
            j,
        ) by {
            assert(agree(hypotheses[t], sample, j, i));
        }
    }
}

/// At the start of a run two rows are joined exactly when they are two
/// rows whose targets differ.
pub proof fn lemma_initial_graph<'a, F: Classifier + Clone, W: WeakLearner<Hypothesis = F>>(
    start: GraphSepBoost<'a, F>,
    first: GraphSepBoost<'a, F>,
    i: int,
    j: int,
)
    requires
        <GraphSepBoost<'a, F> as Booster<W>>::restarts(start, first),
        0 <= i < first.training().rows(),
        0 <= j < first.training().rows(),
    ensures
        first.graph()[i].contains(j as usize) == (i != j && differ(first.training(), i, j)),
{
    assert(first.graph()[i].contains(j as usize) == is_edge(
        first.rounds(),
        first.training(),
        i,
        j,
    ));
}


} // verus!
