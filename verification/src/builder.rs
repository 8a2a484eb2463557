//! The stratified multi-split sampler: a global deduplicated set of accepted
//! entries shared by every split, a running shape histogram for rarity, and
//! per-split sample lists that alternate the wanted truth value so each
//! split comes out class-balanced. Splits never share an entry, because
//! acceptance always goes through the one global seen list.

use vstd::prelude::*;

use crate::eval::spec_evaluate;
use crate::expr::{Expr, ExprStructure};
use crate::generator::{
    generate_state, lemma_state_covers, spec_alphabet_ok, spec_state_keys, ExprGenerator,
};
use crate::rng::{choose_distinct_chars, rng_from_seed};
use rand_xorshift::XorShiftRng;

verus! {

broadcast use vstd::seq_lib::group_seq_properties;

/// One labeled sample: an expression, the sampled assignment over exactly
/// its variables, and the evaluation result.
#[derive(Debug)]
pub struct Entry {
    pub expr: Expr,
    pub state: Vec<(char, bool)>,
    pub ret: bool,
}

/// Structural equality of entries: same expression, same assignment in the
/// same order, same result. This is the identity by which the global seen
/// set deduplicates.
pub open spec fn spec_entry_eqv(a: Entry, b: Entry) -> bool {
    a.expr == b.expr && a.state@ == b.state@ && a.ret == b.ret
}

/// A well-formed entry: the assignment covers exactly the variables of the
/// expression, once each; the result is the evaluation; the expression is
/// printable and its complexity fits a machine word.
pub open spec fn spec_entry_wf(e: Entry) -> bool {
    &&& spec_state_keys(e.state@).no_duplicates()
    &&& spec_state_keys(e.state@).to_set() == e.expr.spec_vars()
    &&& e.ret == spec_evaluate(e.expr, e.state@)
    &&& e.expr.spec_valid()
    &&& e.expr.spec_complexity() <= usize::MAX
}

/// Whether the seen list already holds an equivalent entry.
pub open spec fn spec_seen_contains(s: Seq<Entry>, e: Entry) -> bool {
    exists|j: int| 0 <= j < s.len() && spec_entry_eqv(s[j], e)
}

/// How many entries of the list have the given shape.
pub open spec fn spec_count_shape(s: Seq<Entry>, st: ExprStructure) -> nat
    decreases s.len(),
{
    if s.len() == 0 {
        0
    } else {
        spec_count_shape(s.drop_last(), st) + if s.last().expr.spec_structure() == st {
            1nat
        } else {
            0nat
        }
    }
}

/// One acceptance record of a split: where the entry sits in the global
/// seen list, and how many entries of its shape had been seen at the moment
/// it was accepted (itself included). The total seen at that moment is
/// `index + 1`, so the record carries the running rarity statistic.
#[derive(Debug, Clone, Copy, PartialEq, Eq, Structural)]
pub struct Accepted {
    pub index: usize,
    pub shape_count: usize,
}

/// One output partition: its acceptance records, the truth value it wants
/// next, and the number of entries it must reach.
#[derive(Debug)]
pub struct SplitState {
    pub entries: Vec<Accepted>,
    pub wanted: bool,
    pub target: usize,
}

/// How many accepted entries of a split have result `true`.
pub open spec fn spec_trues(seen: Seq<Entry>, recs: Seq<Accepted>) -> nat
    decreases recs.len(),
{
    if recs.len() == 0 {
        0
    } else {
        spec_trues(seen, recs.drop_last()) + if 0 <= recs.last().index < seen.len() && seen[
            recs.last().index as int
        ].ret {
            1nat
        } else {
            0nat
        }
    }
}

/// The number of entries accepted over all splits.
pub open spec fn spec_total_len(splits: Seq<SplitState>) -> nat
    decreases splits.len(),
{
    if splits.len() == 0 {
        0
    } else {
        spec_total_len(splits.drop_last()) + splits.last().entries@.len()
    }
}

/// No two acceptance records anywhere point at the same seen entry.
pub open spec fn spec_indices_distinct(splits: Seq<SplitState>) -> bool {
    forall|s1: int, i1: int, s2: int, i2: int|
        #![trigger splits[s1].entries@[i1], splits[s2].entries@[i2]]
        0 <= s1 < splits.len() && 0 <= i1 < splits[s1].entries@.len() && 0 <= s2 < splits.len()
            && 0 <= i2 < splits[s2].entries@.len() && (s1 != s2 || i1 != i2)
            ==> splits[s1].entries@[i1].index != splits[s2].entries@[i2].index
}

/// Builds disjoint, deduplicated, class-balanced sample sets, one per
/// split, over one shared seen list and shape histogram.
#[derive(Debug)]
pub struct DatasetBuilder {
    pub seen: Vec<Entry>,
    pub shapes: Vec<(ExprStructure, usize)>,
    pub splits: Vec<SplitState>,
}

impl DatasetBuilder {
    /// One split's part of the invariant: its records point at distinct
    /// well-formed seen entries, carry the shape statistics of their moment
    /// of acceptance, and the accepted results alternate so that the split
    /// is balanced up to one entry, the surplus matching the wanted flag.
    pub open spec fn split_wf(self, s: int) -> bool {
        let sp = self.splits@[s];
        &&& sp.entries@.len() <= sp.target
        &&& forall|i: int|
            0 <= i < sp.entries@.len() ==> (#[trigger] sp.entries@[i]).index < self.seen@.len()
        &&& forall|i: int|
            0 <= i < sp.entries@.len() ==> (#[trigger] sp.entries@[i]).shape_count
                == spec_count_shape(
                self.seen@.take(sp.entries@[i].index + 1),
                self.seen@[sp.entries@[i].index as int].expr.spec_structure(),
            )
        &&& (sp.wanted ==> 2 * spec_trues(self.seen@, sp.entries@) == sp.entries@.len())
        &&& (!sp.wanted ==> 2 * spec_trues(self.seen@, sp.entries@) == sp.entries@.len() + 1)
    }

    /// The builder invariant: the seen list is deduplicated and well
    /// formed, the histogram counts it exactly with one row per shape, the
    /// splits partition a prefix-closed portion of it, and every split is
    /// well formed.
    pub open spec fn wf(self) -> bool {
        &&& forall|j: int, k: int|
            #![trigger self.seen@[j], self.seen@[k]]
            0 <= j < self.seen@.len() && 0 <= k < self.seen@.len() && j != k ==> !spec_entry_eqv(
                self.seen@[j],
                self.seen@[k],
            )
        &&& forall|j: int| 0 <= j < self.seen@.len() ==> spec_entry_wf(#[trigger] self.seen@[j])
        &&& forall|j: int, k: int|
            #![trigger self.shapes@[j], self.shapes@[k]]
            0 <= j < self.shapes@.len() && 0 <= k < self.shapes@.len() && j != k
                ==> self.shapes@[j].0 != self.shapes@[k].0
        &&& forall|j: int|
            0 <= j < self.shapes@.len() ==> (#[trigger] self.shapes@[j]).1 == spec_count_shape(
                self.seen@,
                self.shapes@[j].0,
            ) && self.shapes@[j].1 >= 1
        &&& forall|k: int|
            0 <= k < self.seen@.len() ==> spec_shape_listed(
                self.shapes@,
                (#[trigger] self.seen@[k]).expr.spec_structure(),
            )
        &&& forall|s: int| 0 <= s < self.splits@.len() ==> self.split_wf(s)
        &&& self.seen@.len() == spec_total_len(self.splits@)
        &&& spec_indices_distinct(self.splits@)
    }

    /// Starts a run: one split per target count, each wanting `true` first,
    /// nothing seen yet.
    pub fn new(targets: &Vec<usize>) -> (res: DatasetBuilder)
        ensures
            res.wf(),
            res.seen@.len() == 0,
            res.splits@.len() == targets@.len(),
            forall|s: int|
                0 <= s < targets@.len() ==> (#[trigger] res.splits@[s]).target == targets@[s]
                    && res.splits@[s].entries@.len() == 0 && res.splits@[s].wanted == true,
    {
        let mut splits: Vec<SplitState> = Vec::new();
        let mut i: usize = 0;
        while i < targets.len()
            invariant
                i <= targets@.len(),
                splits@.len() == i,
                forall|s: int|
                    0 <= s < i ==> (#[trigger] splits@[s]).target == targets@[s]
                        && splits@[s].entries@.len() == 0 && splits@[s].wanted == true,
            decreases targets@.len() - i,
        {
            splits.push(SplitState { entries: Vec::new(), wanted: true, target: targets[i] });
            i = i + 1;
        }
        let res = DatasetBuilder { seen: Vec::new(), shapes: Vec::new(), splits };
        proof {
            lemma_total_len_all_empty(res.splits@);
        }
        res
    }

    /// Offers a candidate to a split that is not yet full. It is accepted
    /// exactly when its result is the one the split wants next and no
    /// equivalent entry has ever been accepted anywhere; acceptance appends
    /// it to the seen list and the split and flips the wanted value, and a
    /// rejection changes nothing.
    #[verifier::rlimit(100)]
    #[verifier::spinoff_prover]
    pub fn offer(&mut self, i: usize, entry: Entry) -> (accepted: bool)
        requires
            old(self).wf(),
            i < old(self).splits@.len(),
            spec_entry_wf(entry),
            old(self).splits@[i as int].entries@.len() < old(self).splits@[i as int].target,
            old(self).seen@.len() < usize::MAX,
        ensures
            final(self).wf(),
            accepted == (entry.ret == old(self).splits@[i as int].wanted && !spec_seen_contains(
                old(self).seen@,
                entry,
            )),
            !accepted ==> *final(self) == *old(self),
            accepted ==> final(self).seen@ == old(self).seen@.push(entry),
            final(self).splits@.len() == old(self).splits@.len(),
            forall|s: int|
                0 <= s < old(self).splits@.len() && s != i ==> final(self).splits@[s] == old(
                    self,
                ).splits@[s],
            accepted ==> final(self).splits@[i as int].entries@ == old(
                self,
            ).splits@[i as int].entries@.push(
                Accepted {
                    index: old(self).seen@.len() as usize,
                    shape_count: (spec_count_shape(
                        old(self).seen@.push(entry),
                        entry.expr.spec_structure(),
                    )) as usize,
                },
            ),
            accepted ==> final(self).splits@[i as int].wanted == !entry.ret,
            final(self).splits@[i as int].target == old(self).splits@[i as int].target,
            accepted ==> final(self).splits@[i as int].entries@.len() == old(
                self,
            ).splits@[i as int].entries@.len() + 1,
            !accepted ==> final(self).splits@[i as int] == old(self).splits@[i as int],
    {
        let want = self.splits[i].wanted;
        if entry.ret != want {
            return false;
        }
        if seen_contains(&self.seen, &entry) {
            return false;
        }
        let ghost oldself = *self;
        let ghost eshape = entry.expr.spec_structure();
        let st = entry.expr.to_structure();
        let new_count: usize = match find_shape(&self.shapes, &st) {
            Some(k) => {
                proof {
                    lemma_count_le_len(self.seen@, self.shapes@[k as int].0);
                }
                let c = self.shapes[k].1;
                let st2 = entry.expr.to_structure();
                self.shapes.set(k, (st2, c + 1));
                proof {
                    assert(self.shapes@[k as int].0 == eshape);
                    assert(spec_shape_listed(self.shapes@, eshape));
                }
                c + 1
            },
            None => {
                proof {
                    lemma_count_zero_if_unlisted(
                        self.seen@,
                        self.shapes@,
                        entry.expr.spec_structure(),
                    );
                }
                self.shapes.push((st, 1));
                proof {
                    assert(self.shapes@[self.shapes@.len() - 1].0 == eshape);
                    assert(spec_shape_listed(self.shapes@, eshape));
                }
                1
            },
        };
        proof {
            assert(spec_shape_listed(self.shapes@, eshape));
            assert forall|j: int|
                0 <= j < oldself.shapes@.len() implies spec_shape_listed(
                self.shapes@,
                (#[trigger] oldself.shapes@[j]).0,
            ) by {
                assert(0 <= j < self.shapes@.len());
                if self.shapes@[j].0 == oldself.shapes@[j].0 {
                } else {
                    assert(spec_shape_listed(self.shapes@, eshape));
                }
            }
        }
        let index = self.seen.len();
        self.seen.push(entry);
        let rec = Accepted { index, shape_count: new_count };
        let mut sp = self.splits.remove(i);
        let ghost oldrecs = sp.entries@;
        sp.entries.push(rec);
        sp.wanted = !want;
        self.splits.insert(i, sp);
        proof {
            let os = oldself.seen@;
            let ns = self.seen@;
            assert(ns == os.push(entry));
            assert(self.splits@ =~= oldself.splits@.update(
                i as int,
                SplitState {
                    entries: self.splits@[i as int].entries,
                    wanted: !want,
                    target: oldself.splits@[i as int].target,
                },
            ));
            assert(self.splits@[i as int].entries@ == oldrecs.push(rec));
            assert forall|st2: ExprStructure|
                true implies #[trigger] spec_count_shape(ns, st2) == spec_count_shape(os, st2) + (
            if st2 == eshape {
                1int
            } else {
                0int
            }) by {
                lemma_count_shape_push(os, entry, st2);
            }
            // The histogram row of the accepted shape was bumped (or
            // created at one) and every other row kept its count.
            assert forall|j: int|
                0 <= j < self.shapes@.len() implies (#[trigger] self.shapes@[j]).1
                == spec_count_shape(ns, self.shapes@[j].0) && self.shapes@[j].1 >= 1 by {
                if j < oldself.shapes@.len() {
                    assert(oldself.shapes@[j].1 == spec_count_shape(os, oldself.shapes@[j].0));
                }
            }
            // Take-prefixes of the old seen list are untouched by the push,
            // so every stored rarity statistic stays exact.
            assert forall|k: int| 0 <= k <= os.len() implies #[trigger] ns.take(k) == os.take(
                k,
            ) by {
                assert(ns.take(k) =~= os.take(k));
            }
            assert(ns.take(os.len() as int + 1) =~= ns);
            // Counting trues over records that point into the old seen list
            // is unaffected by the push.
            assert forall|s: int|
                0 <= s < oldself.splits@.len() implies spec_trues(
                ns,
                oldself.splits@[s].entries@,
            ) == spec_trues(os, oldself.splits@[s].entries@) by {
                assert(oldself.split_wf(s));
                lemma_trues_seen_push(os, entry, oldself.splits@[s].entries@);
            }
            assert(spec_trues(ns, oldrecs.push(rec)) == spec_trues(ns, oldrecs) + (
            if entry.ret {
                1int
            } else {
                0int
            })) by {
                assert(oldrecs.push(rec).drop_last() =~= oldrecs);
                assert(ns[rec.index as int] == entry);
            }
            lemma_total_len_update(
                oldself.splits@,
                i as int,
                self.splits@[i as int],
            );
            assert forall|s: int| 0 <= s < self.splits@.len() implies self.split_wf(s) by {
                assert(oldself.split_wf(s));
            }
            // A fresh index can collide with nothing already recorded.
            assert(spec_indices_distinct(self.splits@)) by {
                assert forall|s1: int, i1: int, s2: int, i2: int|
                    #![trigger self.splits@[s1].entries@[i1], self.splits@[s2].entries@[i2]]
                    0 <= s1 < self.splits@.len() && 0 <= i1 < self.splits@[s1].entries@.len() && 0
                        <= s2 < self.splits@.len() && 0 <= i2 < self.splits@[s2].entries@.len() && (
                    s1 != s2 || i1 != i2) implies self.splits@[s1].entries@[i1].index
                    != self.splits@[s2].entries@[i2].index by {
                    assert(oldself.split_wf(s1));
                    assert(oldself.split_wf(s2));
                    if s1 == i as int && i1 == oldrecs.len() {
                        assert(self.splits@[s1].entries@[i1] == rec);
                    } else {
                        assert(self.splits@[s1].entries@[i1] == oldself.splits@[s1].entries@[i1]);
                    }
                    if s2 == i as int && i2 == oldrecs.len() {
                        assert(self.splits@[s2].entries@[i2] == rec);
                    } else {
                        assert(self.splits@[s2].entries@[i2] == oldself.splits@[s2].entries@[i2]);
                    }
                }
            }
            // Every shape in the extended seen list still has its
            // histogram row.
            assert forall|k: int|
                0 <= k < self.seen@.len() implies spec_shape_listed(
                self.shapes@,
                (#[trigger] self.seen@[k]).expr.spec_structure(),
            ) by {
                if k < os.len() {
                    let stk = os[k].expr.spec_structure();
                    assert(spec_shape_listed(oldself.shapes@, stk));
                    let j = choose|j: int|
                        0 <= j < oldself.shapes@.len() && oldself.shapes@[j].0 == stk;
                    assert(spec_shape_listed(self.shapes@, oldself.shapes@[j].0));
                } else {
                    assert(self.seen@[k] == entry);
                }
            }
        }
        true
    }
}

/// One finished row handed to the sink: the canonical text, the label, the
/// complexity score, and the rarity statistic of the moment of acceptance
/// (`shape_count` entries of the same shape among the `seen_count` entries
/// seen so far).
#[derive(Debug)]
pub struct DatasetRow {
    pub expression: String,
    pub result: bool,
    pub complexity: usize,
    pub shape_count: usize,
    pub seen_count: usize,
}

impl DatasetBuilder {
    /// The number of splits.
    pub fn split_count(&self) -> (res: usize)
        ensures
            res == self.splits@.len(),
    {
        self.splits.len()
    }

    /// The number of entries a split has accepted.
    pub fn split_len(&self, s: usize) -> (res: usize)
        requires
            s < self.splits@.len(),
        ensures
            res == self.splits@[s as int].entries@.len(),
    {
        self.splits[s].entries.len()
    }

    /// The target count of a split.
    pub fn split_target(&self, s: usize) -> (res: usize)
        requires
            s < self.splits@.len(),
        ensures
            res == self.splits@[s as int].target,
    {
        self.splits[s].target
    }

    /// Whether a split has reached its target.
    pub fn split_complete(&self, s: usize) -> (res: bool)
        requires
            self.wf(),
            s < self.splits@.len(),
        ensures
            res == (self.splits@[s as int].entries@.len() == self.splits@[s as int].target),
    {
        self.splits[s].entries.len() == self.splits[s].target
    }

    /// The number of entries accepted over the whole run.
    pub fn total_seen(&self) -> (res: usize)
        ensures
            res == self.seen@.len(),
    {
        self.seen.len()
    }

    /// How many accepted entries share the shape of the given expression.
    pub fn shape_count(&self, e: &Expr) -> (res: usize)
        requires
            self.wf(),
        ensures
            res == spec_count_shape(self.seen@, e.spec_structure()),
    {
        let st = e.to_structure();
        match find_shape(&self.shapes, &st) {
            Some(k) => self.shapes[k].1,
            None => {
                proof {
                    lemma_count_zero_if_unlisted(self.seen@, self.shapes@, e.spec_structure());
                }
                0
            },
        }
    }

    /// A split's accepted entry, by position.
    pub fn split_entry(&self, s: usize, j: usize) -> (res: &Entry)
        requires
            self.wf(),
            s < self.splits@.len(),
            j < self.splits@[s as int].entries@.len(),
        ensures
            *res == self.seen@[self.splits@[s as int].entries@[j as int].index as int],
            spec_entry_wf(*res),
    {
        proof {
            assert(self.split_wf(s as int));
        }
        let rec = self.splits[s].entries[j];
        &self.seen[rec.index]
    }

    /// A split's finished row, by position: the canonical text, the label,
    /// the complexity, and the rarity statistic recorded at acceptance.
    pub fn split_row(&self, s: usize, j: usize) -> (res: DatasetRow)
        requires
            self.wf(),
            s < self.splits@.len(),
            j < self.splits@[s as int].entries@.len(),
        ensures
            ({
                let rec = self.splits@[s as int].entries@[j as int];
                let e = self.seen@[rec.index as int];
                &&& res.expression@ == crate::text::spec_row_text(e.expr, e.state@)
                &&& res.result == e.ret
                &&& res.complexity == e.expr.spec_complexity()
                &&& res.shape_count == rec.shape_count
                &&& res.seen_count == rec.index + 1
            }),
    {
        proof {
            assert(self.split_wf(s as int));
        }
        let rec = self.splits[s].entries[j];
        let total = self.seen.len();
        let e = &self.seen[rec.index];
        proof {
            assert(rec.index < total);
            assert(spec_entry_wf(self.seen@[rec.index as int]));
        }
        DatasetRow {
            expression: crate::text::row_text(&e.expr, e.state.as_slice()),
            result: e.ret,
            complexity: e.expr.complexity(),
            shape_count: rec.shape_count,
            seen_count: rec.index + 1,
        }
    }
}

/// Balance: a full split with an even target holds exactly half `true`
/// entries, and the remainder of its entries are `false`. The alternation
/// invariant leaves no other possibility: were the split one `true` ahead,
/// its length would be odd.
pub proof fn lemma_split_balance(b: DatasetBuilder, s: int)
    requires
        b.wf(),
        0 <= s < b.splits@.len(),
        b.splits@[s].entries@.len() == b.splits@[s].target,
        b.splits@[s].target % 2 == 0,
    ensures
        2 * spec_trues(b.seen@, b.splits@[s].entries@) == b.splits@[s].target,
        2 * (b.splits@[s].entries@.len() - spec_trues(b.seen@, b.splits@[s].entries@))
            == b.splits@[s].target,
{
    assert(b.split_wf(s));
}

/// Disjointness: two acceptance records of different splits point at
/// different seen entries, and those entries are structurally different.
pub proof fn lemma_splits_disjoint(b: DatasetBuilder, s1: int, i1: int, s2: int, i2: int)
    requires
        b.wf(),
        0 <= s1 < b.splits@.len(),
        0 <= s2 < b.splits@.len(),
        s1 != s2,
        0 <= i1 < b.splits@[s1].entries@.len(),
        0 <= i2 < b.splits@[s2].entries@.len(),
    ensures
        b.splits@[s1].entries@[i1].index != b.splits@[s2].entries@[i2].index,
        !spec_entry_eqv(
            b.seen@[b.splits@[s1].entries@[i1].index as int],
            b.seen@[b.splits@[s2].entries@[i2].index as int],
        ),
{
    assert(b.split_wf(s1));
    assert(b.split_wf(s2));
}

/// Deduplication: within one split no two positions hold equivalent
/// entries, so inserting the same entry twice can never produce two copies.
pub proof fn lemma_split_dedup(b: DatasetBuilder, s: int, i1: int, i2: int)
    requires
        b.wf(),
        0 <= s < b.splits@.len(),
        0 <= i1 < b.splits@[s].entries@.len(),
        0 <= i2 < b.splits@[s].entries@.len(),
        i1 != i2,
    ensures
        b.splits@[s].entries@[i1].index != b.splits@[s].entries@[i2].index,
        !spec_entry_eqv(
            b.seen@[b.splits@[s].entries@[i1].index as int],
            b.seen@[b.splits@[s].entries@[i2].index as int],
        ),
{
    assert(b.split_wf(s));
}

/// An entry within the budgets of one run: the expression's nesting height
/// stays under the height budget, and its distinct variables are drawn
/// from the run's alphabet, no more of them than the variable budget
/// allows.
pub open spec fn spec_entry_bounded(
    e: Entry,
    max_depth: usize,
    max_vars: usize,
    alphabet: Seq<char>,
) -> bool {
    &&& e.expr.spec_height() <= max_depth
    &&& e.expr.spec_vars().finite()
    &&& e.expr.spec_vars().len() <= max_vars
    &&& forall|c: char| e.expr.spec_vars().contains(c) ==> alphabet.contains(c)
}

/// The sum of the target counts.
pub open spec fn spec_sum_nat(ts: Seq<usize>) -> nat
    decreases ts.len(),
{
    if ts.len() == 0 {
        0
    } else {
        (spec_sum_nat(ts.drop_last()) + ts.last()) as nat
    }
}

/// A failed run: the split that could not be filled within the attempt
/// ceiling, and how many entries it still needed.
#[derive(Debug, Clone, Copy, PartialEq, Eq, Structural)]
pub struct BuildError {
    pub split: usize,
    pub deficit: usize,
}

/// Runs the whole sampling loop from a seed. Round after round, every
/// split that is not yet full gets one candidate: a fresh alphabet subset
/// is drawn, an expression is synthesized, its assignment is sampled and
/// evaluated, and the entry is offered to the split. The run succeeds when
/// every split reaches its target, and fails loudly, naming the stalled
/// split and its remaining deficit, once the attempt ceiling is spent.
pub fn build_dataset(
    generator: &ExprGenerator,
    alphabet: &[char],
    targets: &Vec<usize>,
    max_attempts: usize,
    seed: u64,
) -> (res: Result<DatasetBuilder, BuildError>)
    requires
        spec_alphabet_ok(alphabet@, generator.max_vars),
        generator.max_depth <= 30,
        spec_sum_nat(targets@) < usize::MAX,
        max_attempts < usize::MAX,
    ensures
        match res {
            Ok(b) => {
                &&& b.wf()
                &&& b.splits@.len() == targets@.len()
                &&& forall|s: int|
                    0 <= s < targets@.len() ==> (#[trigger] b.splits@[s]).target == targets@[s]
                        && b.splits@[s].entries@.len() == targets@[s]
                &&& forall|j: int|
                    0 <= j < b.seen@.len() ==> spec_entry_bounded(
                        #[trigger] b.seen@[j],
                        generator.max_depth,
                        generator.max_vars,
                        alphabet@,
                    )
            },
            Err(e) => e.split < targets@.len() && 1 <= e.deficit <= targets@[e.split as int],
        },
{
    let mut b = DatasetBuilder::new(targets);
    let mut rng = rng_from_seed(seed);
    let mut attempts: usize = 0;
    loop
        invariant
            b.wf(),
            b.splits@.len() == targets@.len(),
            forall|s: int|
                0 <= s < targets@.len() ==> (#[trigger] b.splits@[s]).target == targets@[s],
            forall|j: int|
                0 <= j < b.seen@.len() ==> spec_entry_bounded(
                    #[trigger] b.seen@[j],
                    generator.max_depth,
                    generator.max_vars,
                    alphabet@,
                ),
            attempts <= max_attempts,
            spec_alphabet_ok(alphabet@, generator.max_vars),
            generator.max_depth <= 30,
            spec_sum_nat(targets@) < usize::MAX,
            max_attempts < usize::MAX,
        decreases max_attempts - attempts,
    {
        let s0 = match first_incomplete(&b) {
            None => {
                return Ok(b);
            },
            Some(s) => s,
        };
        let ghost round_start = attempts;
        let n = b.split_count();
        let mut i: usize = 0;
        while i < n
            invariant
                b.wf(),
                b.splits@.len() == targets@.len(),
                forall|s: int|
                    0 <= s < targets@.len() ==> (#[trigger] b.splits@[s]).target == targets@[s],
                forall|j: int|
                    0 <= j < b.seen@.len() ==> spec_entry_bounded(
                        #[trigger] b.seen@[j],
                        generator.max_depth,
                        generator.max_vars,
                        alphabet@,
                    ),
                n == b.splits@.len(),
                i <= n,
                s0 < n,
                round_start <= attempts <= max_attempts,
                i <= s0 ==> b.splits@[s0 as int].entries@.len() < b.splits@[s0 as int].target,
                i > s0 ==> attempts > round_start,
                spec_alphabet_ok(alphabet@, generator.max_vars),
                generator.max_depth <= 30,
                spec_sum_nat(targets@) < usize::MAX,
                max_attempts < usize::MAX,
            decreases n - i,
        {
            if !b.split_complete(i) {
                if attempts >= max_attempts {
                    proof {
                        assert(b.split_wf(i as int));
                    }
                    let deficit = b.split_target(i) - b.split_len(i);
                    return Err(BuildError { split: i, deficit });
                }
                attempts = attempts + 1;
                let entry = draw_candidate(generator, alphabet, &mut rng);
                proof {
                    assert forall|s2: int|
                        0 <= s2 < b.splits@.len() implies (#[trigger] b.splits@[s2]).entries@.len()
                        <= b.splits@[s2].target && b.splits@[s2].target == targets@[s2] by {
                        assert(b.split_wf(s2));
                    }
                    lemma_total_len_le(b.splits@, targets@);
                }
                b.offer(i, entry);
            }
            i = i + 1;
        }
    }
}

/// Draws one candidate entry: a fresh alphabet subset, a synthesized
/// expression, a sampled assignment, and its evaluation.
fn draw_candidate(generator: &ExprGenerator, alphabet: &[char], rng: &mut XorShiftRng) -> (res:
    Entry)
    requires
        spec_alphabet_ok(alphabet@, generator.max_vars),
        generator.max_depth <= 30,
    ensures
        spec_entry_wf(res),
        spec_entry_bounded(res, generator.max_depth, generator.max_vars, alphabet@),
{
    let range = choose_distinct_chars(rng, alphabet, generator.max_vars);
    proof {
        assert(range@.len() == generator.max_vars);
        assert forall|i: int|
            0 <= i < range@.len() implies crate::expr::spec_is_letter(range@[i]) by {
            assert(alphabet@.contains(range@[i]));
            let w = choose|w: int| 0 <= w < alphabet@.len() && alphabet@[w] == range@[i];
            assert(crate::expr::spec_is_letter(alphabet@[w]));
        }
    }
    let expr = generator.generate(range.as_slice(), rng);
    let state = generate_state(&expr, rng);
    proof {
        lemma_state_covers(expr, state@);
    }
    let ret = crate::eval::evaluate(&expr, state.as_slice());
    let entry = Entry { expr, state, ret };
    proof {
        crate::expr::lemma_complexity_bounded(entry.expr, generator.max_depth as nat);
    }
    entry
}

/// The first split that has not reached its target, if any is left.
fn first_incomplete(b: &DatasetBuilder) -> (res: Option<usize>)
    requires
        b.wf(),
    ensures
        match res {
            Some(s) => s < b.splits@.len() && b.splits@[s as int].entries@.len() < b.splits@[
                s as int
            ].target,
            None => forall|s: int|
                0 <= s < b.splits@.len() ==> (#[trigger] b.splits@[s]).entries@.len()
                    == b.splits@[s].target,
        },
{
    let mut s: usize = 0;
    while s < b.splits.len()
        invariant
            b.wf(),
            s <= b.splits@.len(),
            forall|j: int|
                0 <= j < s ==> (#[trigger] b.splits@[j]).entries@.len() == b.splits@[j].target,
        decreases b.splits@.len() - s,
    {
        proof {
            assert(b.split_wf(s as int));
        }
        if b.splits[s].entries.len() < b.splits[s].target {
            return Some(s);
        }
        s = s + 1;
    }
    None
}

/// The accepted total over all splits never exceeds the sum of the
/// targets.
proof fn lemma_total_len_le(splits: Seq<SplitState>, ts: Seq<usize>)
    requires
        splits.len() == ts.len(),
        forall|s: int|
            0 <= s < splits.len() ==> (#[trigger] splits[s]).entries@.len() <= splits[s].target
                && splits[s].target == ts[s],
    ensures
        spec_total_len(splits) <= spec_sum_nat(ts),
    decreases splits.len(),
{
    if splits.len() > 0 {
        assert(splits[splits.len() - 1] == splits.last());
        assert(ts[ts.len() - 1] == ts.last());
        assert(forall|s: int|
            0 <= s < splits.drop_last().len() ==> splits.drop_last()[s] == splits[s]);
        assert(forall|s: int| 0 <= s < ts.drop_last().len() ==> ts.drop_last()[s] == ts[s]);
        lemma_total_len_le(splits.drop_last(), ts.drop_last());
    }
}

/// Whether the histogram has a row for the shape.
pub open spec fn spec_shape_listed(shapes: Seq<(ExprStructure, usize)>, st: ExprStructure) -> bool {
    exists|j: int| 0 <= j < shapes.len() && shapes[j].0 == st
}

/// Finds the histogram row of a shape, if one exists.
fn find_shape(shapes: &Vec<(ExprStructure, usize)>, st: &ExprStructure) -> (res: Option<usize>)
    ensures
        match res {
            Some(k) => k < shapes@.len() && shapes@[k as int].0 == st,
            None => !spec_shape_listed(shapes@, *st),
        },
{
    let mut k: usize = 0;
    while k < shapes.len()
        invariant
            k <= shapes@.len(),
            forall|j: int| 0 <= j < k ==> shapes@[j].0 != st,
        decreases shapes@.len() - k,
    {
        if structure_eq(&shapes[k].0, st) {
            return Some(k);
        }
        k = k + 1;
    }
    proof {
        if spec_shape_listed(shapes@, *st) {
            let j = choose|j: int| 0 <= j < shapes@.len() && shapes@[j].0 == *st;
            assert(shapes@[j].0 != *st);
        }
    }
    None
}

/// Whether the seen list already holds an equivalent entry.
fn seen_contains(seen: &Vec<Entry>, e: &Entry) -> (res: bool)
    ensures
        res == spec_seen_contains(seen@, *e),
{
    let mut j: usize = 0;
    while j < seen.len()
        invariant
            j <= seen@.len(),
            forall|k: int| 0 <= k < j ==> !spec_entry_eqv(seen@[k], *e),
        decreases seen@.len() - j,
    {
        if entry_eq(&seen[j], e) {
            return true;
        }
        j = j + 1;
    }
    proof {
        if spec_seen_contains(seen@, *e) {
            let k = choose|k: int| 0 <= k < seen@.len() && spec_entry_eqv(seen@[k], *e);
            assert(!spec_entry_eqv(seen@[k], *e));
        }
    }
    false
}

/// Structural equality of expressions, decided recursively.
pub fn expr_eq(a: &Expr, b: &Expr) -> (res: bool)
    ensures
        res == (a == b),
    decreases *a,
{
    match (a, b) {
        (Expr::Var(c1), Expr::Var(c2)) => *c1 == *c2,
        (Expr::Not(e1), Expr::Not(e2)) => expr_eq(e1, e2),
        (Expr::BinaryOp(b1), Expr::BinaryOp(b2)) => b1.ty == b2.ty && expr_eq(&b1.l, &b2.l)
            && expr_eq(&b1.r, &b2.r),
        _ => false,
    }
}

/// Structural equality of shapes, decided recursively.
pub fn structure_eq(a: &ExprStructure, b: &ExprStructure) -> (res: bool)
    ensures
        res == (a == b),
    decreases *a,
{
    match (a, b) {
        (ExprStructure::Var, ExprStructure::Var) => true,
        (ExprStructure::Not(e1), ExprStructure::Not(e2)) => structure_eq(e1, e2),
        (ExprStructure::BinaryOp(b1), ExprStructure::BinaryOp(b2)) => b1.ty == b2.ty
            && structure_eq(&b1.l, &b2.l) && structure_eq(&b1.r, &b2.r),
        _ => false,
    }
}

/// Equality of assignments, element by element.
pub fn state_eq(a: &Vec<(char, bool)>, b: &Vec<(char, bool)>) -> (res: bool)
    ensures
        res == (a@ == b@),
{
    if a.len() != b.len() {
        return false;
    }
    let mut j: usize = 0;
    while j < a.len()
        invariant
            a@.len() == b@.len(),
            j <= a@.len(),
            forall|k: int| 0 <= k < j ==> a@[k] == b@[k],
        decreases a@.len() - j,
    {
        let (c1, v1) = a[j];
        let (c2, v2) = b[j];
        if c1 != c2 || v1 != v2 {
            return false;
        }
        j = j + 1;
    }
    proof {
        assert(a@ =~= b@);
    }
    true
}

/// Structural equality of entries, the identity used for deduplication.
pub fn entry_eq(a: &Entry, b: &Entry) -> (res: bool)
    ensures
        res == spec_entry_eqv(*a, *b),
{
    expr_eq(&a.expr, &b.expr) && state_eq(&a.state, &b.state) && a.ret == b.ret
}

/// Appending an entry raises the count of its shape by one and no other.
proof fn lemma_count_shape_push(s: Seq<Entry>, e: Entry, st: ExprStructure)
    ensures
        spec_count_shape(s.push(e), st) == spec_count_shape(s, st) + (
        if e.expr.spec_structure() == st {
            1int
        } else {
            0int
        }),
{
    assert(s.push(e).drop_last() =~= s);
    assert(s.push(e).last() == e);
}

/// A shape's count never exceeds the length of the list.
proof fn lemma_count_le_len(s: Seq<Entry>, st: ExprStructure)
    ensures
        spec_count_shape(s, st) <= s.len(),
    decreases s.len(),
{
    if s.len() > 0 {
        lemma_count_le_len(s.drop_last(), st);
    }
}

/// A shape that no histogram row lists has never been seen, so its count is
/// zero.
proof fn lemma_count_zero_if_unlisted(
    s: Seq<Entry>,
    shapes: Seq<(ExprStructure, usize)>,
    st: ExprStructure,
)
    requires
        !spec_shape_listed(shapes, st),
        forall|k: int|
            0 <= k < s.len() ==> spec_shape_listed(shapes, (#[trigger] s[k]).expr.spec_structure()),
    ensures
        spec_count_shape(s, st) == 0,
    decreases s.len(),
{
    if s.len() > 0 {
        assert(s[s.len() - 1] == s.last());
        assert(forall|k: int|
            0 <= k < s.drop_last().len() ==> s.drop_last()[k] == s[k]);
        lemma_count_zero_if_unlisted(s.drop_last(), shapes, st);
    }
}

/// Counting trues through records that point below the old length is not
/// changed by appending to the seen list.
proof fn lemma_trues_seen_push(s: Seq<Entry>, e: Entry, recs: Seq<Accepted>)
    requires
        forall|i: int| 0 <= i < recs.len() ==> (#[trigger] recs[i]).index < s.len(),
    ensures
        spec_trues(s.push(e), recs) == spec_trues(s, recs),
    decreases recs.len(),
{
    if recs.len() > 0 {
        assert(recs[recs.len() - 1] == recs.last());
        assert(forall|i: int| 0 <= i < recs.drop_last().len() ==> recs.drop_last()[i] == recs[i]);
        lemma_trues_seen_push(s, e, recs.drop_last());
        assert(s.push(e)[recs.last().index as int] == s[recs.last().index as int]);
    }
}

/// Replacing one split changes the total accepted count by the difference
/// of that split's lengths.
proof fn lemma_total_len_update(splits: Seq<SplitState>, i: int, v: SplitState)
    requires
        0 <= i < splits.len(),
    ensures
        spec_total_len(splits.update(i, v)) == spec_total_len(splits) - splits[i].entries@.len()
            + v.entries@.len(),
    decreases splits.len(),
{
    let u = splits.update(i, v);
    if i == splits.len() - 1 {
        assert(u.drop_last() =~= splits.drop_last());
        assert(u.last() == v);
    } else {
        assert(u.drop_last() =~= splits.drop_last().update(i, v));
        assert(u.last() == splits.last());
        lemma_total_len_update(splits.drop_last(), i, v);
    }
}

/// A run starts with nothing accepted anywhere.
proof fn lemma_total_len_all_empty(splits: Seq<SplitState>)
    requires
        forall|s: int| 0 <= s < splits.len() ==> (#[trigger] splits[s]).entries@.len() == 0,
    ensures
        spec_total_len(splits) == 0,
    decreases splits.len(),
{
    if splits.len() > 0 {
        assert(splits[splits.len() - 1] == splits.last());
        assert(forall|s: int|
            0 <= s < splits.drop_last().len() ==> splits.drop_last()[s] == splits[s]);
        lemma_total_len_all_empty(splits.drop_last());
    }
}

} // verus!
