//! The recursive bar-group layout engine.

use vstd::prelude::*;

use crate::bar_label::BarLabel;

verus! {

broadcast use vstd::std_specs::vec::group_vec_axioms;

/// The children of a layout node: either child groups or leaf labels,
/// never both.
pub enum BarLabelChildren {
    /// The node is an internal node with child groups.
    SubGroups(Vec<BarGroup>),
    /// The node is a parent of leaf labels.
    Labels(Vec<BarLabel>),
}

/// An output value of the layout: a leaf's key and its inclusive 1-based
/// pixel span.
#[derive(Clone, Copy, PartialEq, Eq, Structural, Debug)]
pub struct BarPosition {
    /// The leaf label's key.
    pub key: usize,
    /// The first pixel of the bar, 1-based.
    pub position_start: usize,
    /// The last pixel of the bar, inclusive.
    pub position_end: usize,
}

/// A node of the layout tree: a name, three margins of its own, and either
/// child groups or leaf labels.
pub struct BarGroup {
    /// The display name of the group.
    pub label: String,
    /// Pixels before the first child.
    pub margin_before: usize,
    /// Pixels after the last child.
    pub margin_after: usize,
    /// Pixels between adjacent children.
    pub margin_between: usize,
    /// The children, groups or labels.
    pub children: BarLabelChildren,
}

impl BarGroup {
    /// The child groups of an internal node.
    pub open spec fn subgroups(self) -> Seq<BarGroup>
        recommends
            self.children is SubGroups,
    {
        self.children->SubGroups_0@
    }

    /// The leaf labels of a leaf-parent node.
    pub open spec fn leaf_labels(self) -> Seq<BarLabel>
        recommends
            self.children is Labels,
    {
        self.children->Labels_0@
    }

    /// The number of immediate children, of either kind.
    pub open spec fn child_count_spec(self) -> int {
        match self.children {
            BarLabelChildren::SubGroups(gs) => gs@.len() as int,
            BarLabelChildren::Labels(ls) => ls@.len() as int,
        }
    }

    /// The pixels this node's own margins consume:
    /// `margin_before + margin_between × (children − 1) + margin_after`,
    /// with the between-term vanishing for zero or one child.
    pub open spec fn margin_total_spec(self) -> int {
        self.margin_before + (if self.child_count_spec() >= 1 {
            (self.child_count_spec() - 1) * self.margin_between
        } else {
            0
        }) + self.margin_after
    }

    /// Every leaf label in the subtree, depth first, left to right.
    pub open spec fn labels_spec(self) -> Seq<BarLabel>
        decreases self,
    {
        match self.children {
            BarLabelChildren::Labels(ls) => ls@,
            BarLabelChildren::SubGroups(gs) => labels_of_groups(gs@),
        }
    }
}

/// The concatenated leaf labels of a sequence of groups.
pub open spec fn labels_of_groups(gs: Seq<BarGroup>) -> Seq<BarLabel>
    decreases gs,
{
    if gs.len() == 0 {
        Seq::empty()
    } else {
        gs[0].labels_spec() + labels_of_groups(gs.drop_first())
    }
}

impl BarGroup {
    /// An empty internal node: no children, zero margins, empty name.
    fn empty_node() -> (r: Self)
        ensures
            r.label@ == Seq::<char>::empty(),
            r.margin_before == 0,
            r.margin_after == 0,
            r.margin_between == 0,
            r.children is SubGroups,
            r.subgroups() == Seq::<BarGroup>::empty(),
    {
        BarGroup {
            label: String::new(),
            margin_before: 0,
            margin_after: 0,
            margin_between: 0,
            children: BarLabelChildren::SubGroups(Vec::new()),
        }
    }

    /// An empty internal node carrying the given name.
    pub fn new(label: &str) -> (r: Self)
        ensures
            r.label@ == label@,
            r.margin_before == 0,
            r.margin_after == 0,
            r.margin_between == 0,
            r.children is SubGroups,
            r.subgroups() == Seq::<BarGroup>::empty(),
            r.labels_spec() == Seq::<BarLabel>::empty(),
    {
        let mut result = Self::empty_node();
        result.label = label.to_owned();
        result
    }

    /// Sets the margin before the first child.
    pub fn with_margin_before(self, before: usize) -> (r: Self)
        ensures
            r == (BarGroup { margin_before: before, ..self }),
    {
        BarGroup { margin_before: before, ..self }
    }

    /// Sets the margin after the last child.
    pub fn with_margin_after(self, after: usize) -> (r: Self)
        ensures
            r == (BarGroup { margin_after: after, ..self }),
    {
        BarGroup { margin_after: after, ..self }
    }

    /// Sets the margin between adjacent children.
    pub fn with_margin_between(self, between: usize) -> (r: Self)
        ensures
            r == (BarGroup { margin_between: between, ..self }),
    {
        BarGroup { margin_between: between, ..self }
    }

    /// Sets all three margins at once.
    pub fn with_margins(self, before: usize, between: usize, after: usize) -> (r: Self)
        ensures
            r == (BarGroup { margin_before: before, margin_between: between, margin_after: after, ..self }),
    {
        self.with_margin_before(before).with_margin_between(between).with_margin_after(after)
    }

    /// Makes this node an internal node with the given child groups,
    /// replacing any prior children of either kind.
    pub fn define_groups(self, groups: Vec<BarGroup>) -> (r: Self)
        ensures
            r.label == self.label,
            r.margin_before == self.margin_before,
            r.margin_after == self.margin_after,
            r.margin_between == self.margin_between,
            r.children is SubGroups,
            r.subgroups() == groups@,
    {
        BarGroup {
            label: self.label,
            margin_before: self.margin_before,
            margin_after: self.margin_after,
            margin_between: self.margin_between,
            children: BarLabelChildren::SubGroups(groups),
        }
    }

    /// Makes this node a parent of the given leaf labels, replacing any
    /// prior children of either kind.
    pub fn define_labels(self, labels: Vec<BarLabel>) -> (r: Self)
        ensures
            r.label == self.label,
            r.margin_before == self.margin_before,
            r.margin_after == self.margin_after,
            r.margin_between == self.margin_between,
            r.children is Labels,
            r.leaf_labels() == labels@,
            r.labels_spec() == labels@,
    {
        BarGroup {
            label: self.label,
            margin_before: self.margin_before,
            margin_after: self.margin_after,
            margin_between: self.margin_between,
            children: BarLabelChildren::Labels(labels),
        }
    }

    /// The number of immediate children, of either kind.
    pub fn child_count(&self) -> (r: usize)
        ensures
            r == self.child_count_spec(),
    {
        match &self.children {
            BarLabelChildren::SubGroups(subgroups) => subgroups.len(),
            BarLabelChildren::Labels(labels) => labels.len(),
        }
    }

    /// The pixels this node's own margins consume.
    pub fn margin_total(&self) -> (r: usize)
        requires
            self.margin_total_spec() <= usize::MAX,
        ensures
            r == self.margin_total_spec(),
    {
        let count = self.child_count();
        let between_total = if count >= 1 {
            (count - 1) * self.margin_between
        } else {
            0
        };
        self.margin_before + between_total + self.margin_after
    }
}

/// The values behind a sequence of label references.
pub open spec fn deref_labels(s: Seq<&BarLabel>) -> Seq<BarLabel> {
    Seq::new(s.len(), |i: int| *s[i])
}

/// The values behind a sequence of group references.
pub open spec fn deref_groups(s: Seq<&BarGroup>) -> Seq<BarGroup> {
    Seq::new(s.len(), |i: int| *s[i])
}

/// The sum of the `width_for_spec` of each group.
pub open spec fn widths_sum(gs: Seq<BarGroup>, bar_width: int) -> int
    decreases gs,
{
    if gs.len() == 0 {
        0
    } else {
        width_for_spec(gs[0], bar_width) + widths_sum(gs.drop_first(), bar_width)
    }
}

/// The total pixel width a node occupies for a given bar width: its own
/// margins, plus its children's widths — `count × bar width` for leaf
/// labels, the children's own totals for child groups.
pub open spec fn width_for_spec(g: BarGroup, bar_width: int) -> int
    decreases g,
{
    g.margin_total_spec() + (match g.children {
        BarLabelChildren::Labels(ls) => ls@.len() * bar_width,
        BarLabelChildren::SubGroups(gs) => widths_sum(gs@, bar_width),
    })
}

/// The sum of the `margin_total_spec` of each group.
pub open spec fn margins_sum(gs: Seq<BarGroup>) -> int
    decreases gs,
{
    if gs.len() == 0 {
        0
    } else {
        gs[0].margin_total_spec() + margins_sum(gs.drop_first())
    }
}

impl BarGroup {
    /// The margins `calculate_bar_width` subtracts: this node's own margin
    /// total plus those of its immediate child groups — and only those;
    /// margins nested deeper are not included.
    pub open spec fn margin_dimension_spec(self) -> int {
        self.margin_total_spec() + (match self.children {
            BarLabelChildren::SubGroups(gs) => margins_sum(gs@),
            BarLabelChildren::Labels(_) => 0,
        })
    }

    /// The bar width for a target dimension: the pixels left after the
    /// margin subtraction, divided evenly (rounding down) over every leaf
    /// label of the subtree; zero when there is no label.
    pub open spec fn bar_width_spec(self, dimension: int) -> int {
        if self.labels_spec().len() == 0 {
            0
        } else {
            (dimension - self.margin_dimension_spec()) / (self.labels_spec().len() as int)
        }
    }
}

/// A node's own margin total is never negative.
proof fn lemma_margin_total_nonneg(g: BarGroup)
    ensures
        g.margin_total_spec() >= 0,
{
    if g.child_count_spec() >= 1 {
        assert((g.child_count_spec() - 1) * g.margin_between >= 0) by (nonlinear_arith)
            requires
                g.child_count_spec() >= 1,
                g.margin_between >= 0,
        ;
    }
}

/// Group margin sums are never negative.
proof fn lemma_margins_sum_nonneg(gs: Seq<BarGroup>)
    ensures
        margins_sum(gs) >= 0,
    decreases gs,
{
    if gs.len() > 0 {
        lemma_margin_total_nonneg(gs[0]);
        lemma_margins_sum_nonneg(gs.drop_first());
    }
}

/// Occupied widths are never negative for a non-negative bar width.
proof fn lemma_width_for_nonneg(g: BarGroup, bar_width: int)
    requires
        bar_width >= 0,
    ensures
        width_for_spec(g, bar_width) >= 0,
    decreases g,
{
    lemma_margin_total_nonneg(g);
    match g.children {
        BarLabelChildren::Labels(ls) => {
            assert(ls@.len() * bar_width >= 0) by (nonlinear_arith)
                requires
                    bar_width >= 0,
            ;
        },
        BarLabelChildren::SubGroups(gs) => {
            lemma_widths_sum_nonneg(gs@, bar_width);
        },
    }
}

/// Width sums are never negative for a non-negative bar width.
proof fn lemma_widths_sum_nonneg(gs: Seq<BarGroup>, bar_width: int)
    requires
        bar_width >= 0,
    ensures
        widths_sum(gs, bar_width) >= 0,
    decreases gs,
{
    if gs.len() > 0 {
        lemma_width_for_nonneg(gs[0], bar_width);
        lemma_widths_sum_nonneg(gs.drop_first(), bar_width);
    }
}

/// Extending the prefix by one group appends its labels.
proof fn lemma_labels_of_groups_take_step(gs: Seq<BarGroup>, j: int)
    requires
        0 <= j < gs.len(),
    ensures
        labels_of_groups(gs.take(j + 1)) == labels_of_groups(gs.take(j)) + gs[j].labels_spec(),
    decreases j,
{
    let t1 = gs.take(j + 1);
    if j == 0 {
        assert(t1[0] == gs[0]);
        assert(t1.drop_first() =~= gs.take(0));
        assert(labels_of_groups(t1) =~= labels_of_groups(gs.take(0)) + gs[0].labels_spec());
    } else {
        assert(t1[0] == gs[0]);
        assert(t1.drop_first() =~= gs.drop_first().take(j));
        assert(gs.take(j)[0] == gs[0]);
        assert(gs.take(j).drop_first() =~= gs.drop_first().take(j - 1));
        assert(gs.drop_first()[j - 1] == gs[j]);
        lemma_labels_of_groups_take_step(gs.drop_first(), j - 1);
        assert(labels_of_groups(t1) =~= labels_of_groups(gs.take(j)) + gs[j].labels_spec());
    }
}

/// Extending the prefix by one group adds its width.
proof fn lemma_widths_sum_take_step(gs: Seq<BarGroup>, bar_width: int, j: int)
    requires
        0 <= j < gs.len(),
    ensures
        widths_sum(gs.take(j + 1), bar_width) == widths_sum(gs.take(j), bar_width)
            + width_for_spec(gs[j], bar_width),
    decreases j,
{
    let t1 = gs.take(j + 1);
    if j == 0 {
        assert(t1[0] == gs[0]);
        assert(t1.drop_first() =~= gs.take(0));
    } else {
        assert(t1[0] == gs[0]);
        assert(t1.drop_first() =~= gs.drop_first().take(j));
        assert(gs.take(j)[0] == gs[0]);
        assert(gs.take(j).drop_first() =~= gs.drop_first().take(j - 1));
        assert(gs.drop_first()[j - 1] == gs[j]);
        lemma_widths_sum_take_step(gs.drop_first(), bar_width, j - 1);
    }
}

/// A width sum splits at any point into prefix and suffix.
proof fn lemma_widths_sum_split(gs: Seq<BarGroup>, bar_width: int, j: int)
    requires
        0 <= j <= gs.len(),
    ensures
        widths_sum(gs, bar_width) == widths_sum(gs.take(j), bar_width) + widths_sum(
            gs.skip(j),
            bar_width,
        ),
    decreases j,
{
    if j == 0 {
        assert(gs.take(0).len() == 0);
        assert(gs.skip(0) =~= gs);
    } else {
        assert(gs.take(j)[0] == gs[0]);
        assert(gs.take(j).drop_first() =~= gs.drop_first().take(j - 1));
        assert(gs.skip(j) =~= gs.drop_first().skip(j - 1));
        lemma_widths_sum_split(gs.drop_first(), bar_width, j - 1);
    }
}

/// Extending the prefix by one group adds its margin total.
proof fn lemma_margins_sum_take_step(gs: Seq<BarGroup>, j: int)
    requires
        0 <= j < gs.len(),
    ensures
        margins_sum(gs.take(j + 1)) == margins_sum(gs.take(j)) + gs[j].margin_total_spec(),
    decreases j,
{
    let t1 = gs.take(j + 1);
    if j == 0 {
        assert(t1[0] == gs[0]);
        assert(t1.drop_first() =~= gs.take(0));
    } else {
        assert(t1[0] == gs[0]);
        assert(t1.drop_first() =~= gs.drop_first().take(j));
        assert(gs.take(j)[0] == gs[0]);
        assert(gs.take(j).drop_first() =~= gs.drop_first().take(j - 1));
        assert(gs.drop_first()[j - 1] == gs[j]);
        lemma_margins_sum_take_step(gs.drop_first(), j - 1);
    }
}

/// A margin sum splits at any point into prefix and suffix.
proof fn lemma_margins_sum_split(gs: Seq<BarGroup>, j: int)
    requires
        0 <= j <= gs.len(),
    ensures
        margins_sum(gs) == margins_sum(gs.take(j)) + margins_sum(gs.skip(j)),
    decreases j,
{
    if j == 0 {
        assert(gs.take(0).len() == 0);
        assert(gs.skip(0) =~= gs);
    } else {
        assert(gs.take(j)[0] == gs[0]);
        assert(gs.take(j).drop_first() =~= gs.drop_first().take(j - 1));
        assert(gs.skip(j) =~= gs.drop_first().skip(j - 1));
        lemma_margins_sum_split(gs.drop_first(), j - 1);
    }
}

/// Pushing a reference appends the value behind it.
proof fn lemma_deref_labels_push(s: Seq<&BarLabel>, r: &BarLabel)
    ensures
        deref_labels(s.push(r)) == deref_labels(s).push(*r),
{
    assert forall|i: int| 0 <= i < s.len() + 1 implies deref_labels(s.push(r))[i] == deref_labels(
        s,
    ).push(*r)[i] by {
        if i < s.len() {
            assert(s.push(r)[i] == s[i]);
            assert(deref_labels(s)[i] == *s[i]);
        }
    }
    assert(deref_labels(s.push(r)) =~= deref_labels(s).push(*r));
}

/// Pushing a reference appends the value behind it.
proof fn lemma_deref_groups_push(s: Seq<&BarGroup>, r: &BarGroup)
    ensures
        deref_groups(s.push(r)) == deref_groups(s).push(*r),
{
    assert forall|i: int| 0 <= i < s.len() + 1 implies deref_groups(s.push(r))[i] == deref_groups(
        s,
    ).push(*r)[i] by {
        if i < s.len() {
            assert(s.push(r)[i] == s[i]);
            assert(deref_groups(s)[i] == *s[i]);
        }
    }
    assert(deref_groups(s.push(r)) =~= deref_groups(s).push(*r));
}

/// Collects references to every leaf label of `g`'s subtree, depth first.
#[verifier::loop_isolation(false)]
fn collect_labels<'a>(g: &'a BarGroup, out: &mut Vec<&'a BarLabel>)
    ensures
        deref_labels(final(out)@) == deref_labels(old(out)@) + g.labels_spec(),
    decreases *g,
{
    let ghost base = deref_labels(out@);
    match &g.children {
        BarLabelChildren::Labels(ls) => {
            let n = ls.len();
            let mut j: usize = 0;
            while j < n
                invariant
                    j <= n,
                    n == ls@.len(),
                    deref_labels(out@) == base + ls@.take(j as int),
                decreases n - j,
            {
                let ghost pre = out@;
                let item = &ls[j];
                out.push(item);
                proof {
                    lemma_deref_labels_push(pre, item);
                    assert(deref_labels(out@) =~= base + ls@.take(j as int + 1));
                }
                j += 1;
            }
            proof {
                assert(ls@.take(n as int) =~= ls@);
            }
        },
        BarLabelChildren::SubGroups(gs) => {
            let n = gs.len();
            let mut j: usize = 0;
            while j < n
                invariant
                    j <= n,
                    n == gs@.len(),
                    deref_labels(out@) == base + labels_of_groups(gs@.take(j as int)),
                decreases n - j,
            {
                let child = &gs[j];
                proof {
                    assert(decreases_to!(*g => g.children));
                    assert(decreases_to!(g.children => g.children->SubGroups_0));
                    assert(decreases_to!(g.children->SubGroups_0 => gs@[j as int]));
                    assert(decreases_to!(*g => *child));
                }
                collect_labels(child, out);
                proof {
                    lemma_labels_of_groups_take_step(gs@, j as int);
                    assert(deref_labels(out@) =~= base + labels_of_groups(gs@.take(j as int + 1)));
                }
                j += 1;
            }
            proof {
                assert(gs@.take(n as int) =~= gs@);
            }
        },
    }
}

impl BarGroup {
    /// References to every leaf label in the subtree, depth first, left to
    /// right.
    pub fn labels(&self) -> (r: Vec<&BarLabel>)
        ensures
            deref_labels(r@) == self.labels_spec(),
            r@.len() == self.labels_spec().len(),
    {
        let mut out: Vec<&BarLabel> = Vec::new();
        proof {
            assert(deref_labels(out@) =~= Seq::<BarLabel>::empty());
        }
        collect_labels(self, &mut out);
        proof {
            assert(deref_labels(out@) =~= self.labels_spec());
        }
        out
    }

    /// References to the immediate child groups; empty for a leaf-parent
    /// node.
    pub fn groups(&self) -> (r: Vec<&BarGroup>)
        ensures
            self.children is SubGroups ==> deref_groups(r@) == self.subgroups(),
            self.children is Labels ==> r@.len() == 0,
    {
        let mut out: Vec<&BarGroup> = Vec::new();
        match &self.children {
            BarLabelChildren::SubGroups(gs) => {
                let n = gs.len();
                let mut j: usize = 0;
                while j < n
                    invariant
                        j <= n,
                        n == gs@.len(),
                        deref_groups(out@) == gs@.take(j as int),
                    decreases n - j,
                {
                    let ghost pre = out@;
                    let item = &gs[j];
                    out.push(item);
                    proof {
                        lemma_deref_groups_push(pre, item);
                        assert(deref_groups(out@) =~= gs@.take(j as int + 1));
                    }
                    j += 1;
                }
                proof {
                    assert(gs@.take(n as int) =~= gs@);
                }
            },
            BarLabelChildren::Labels(_) => {},
        }
        out
    }

    /// The total pixel width this node occupies for an already-decided bar
    /// width: its own margin total, plus each child group's own occupied
    /// width, or `child count × bar width` for leaf labels.
    #[verifier::loop_isolation(false)]
    pub fn width_for_bar_width(&self, bar_width: usize) -> (r: usize)
        requires
            width_for_spec(*self, bar_width as int) <= usize::MAX,
        ensures
            r == width_for_spec(*self, bar_width as int),
        decreases *self,
    {
        proof {
            lemma_margin_total_nonneg(*self);
            match &self.children {
                BarLabelChildren::Labels(ls) => {
                    assert(ls@.len() * bar_width >= 0) by (nonlinear_arith);
                },
                BarLabelChildren::SubGroups(gs) => {
                    lemma_widths_sum_nonneg(gs@, bar_width as int);
                },
            }
        }
        let margin = self.margin_total();
        match &self.children {
            BarLabelChildren::Labels(ls) => {
                let count = ls.len();
                margin + count * bar_width
            },
            BarLabelChildren::SubGroups(gs) => {
                let ghost total = widths_sum(gs@, bar_width as int);
                let n = gs.len();
                let mut acc: usize = 0;
                let mut j: usize = 0;
                while j < n
                    invariant
                        j <= n,
                        n == gs@.len(),
                        bar_width <= usize::MAX,
                        total == widths_sum(gs@, bar_width as int),
                        total <= usize::MAX,
                        acc == widths_sum(gs@.take(j as int), bar_width as int),
                    decreases n - j,
                {
                    proof {
                        lemma_widths_sum_take_step(gs@, bar_width as int, j as int);
                        lemma_widths_sum_split(gs@, bar_width as int, j as int + 1);
                        lemma_widths_sum_nonneg(gs@.skip(j as int + 1), bar_width as int);
                        lemma_widths_sum_nonneg(gs@.take(j as int), bar_width as int);
                        lemma_width_for_nonneg(gs@[j as int], bar_width as int);
                    }
                    let child = &gs[j];
                    proof {
                        assert(decreases_to!(*self => self.children));
                        assert(decreases_to!(self.children => self.children->SubGroups_0));
                        assert(decreases_to!(self.children->SubGroups_0 => gs@[j as int]));
                        assert(decreases_to!(*self => *child));
                    }
                    let w = child.width_for_bar_width(bar_width);
                    acc = acc + w;
                    j += 1;
                }
                proof {
                    assert(gs@.take(n as int) =~= gs@);
                }
                margin + acc
            },
        }
    }

    /// The bar width for a target pixel dimension: this node's and its
    /// immediate child groups' margins are subtracted, and what remains is
    /// divided evenly over every leaf label of the subtree, rounding down.
    /// With no label anywhere the width is zero.
    pub fn calculate_bar_width(&self, dimension: usize) -> (r: usize)
        requires
            self.margin_dimension_spec() <= dimension,
        ensures
            r == self.bar_width_spec(dimension as int),
    {
        proof {
            lemma_margin_total_nonneg(*self);
            match &self.children {
                BarLabelChildren::SubGroups(gs) => {
                    lemma_margins_sum_nonneg(gs@);
                },
                BarLabelChildren::Labels(_) => {},
            }
        }
        let own = self.margin_total();
        let mut margin_dimension = own;
        match &self.children {
            BarLabelChildren::SubGroups(gs) => {
                let n = gs.len();
                let mut j: usize = 0;
                while j < n
                    invariant
                        j <= n,
                        n == gs@.len(),
                        self.margin_total_spec() + margins_sum(gs@) <= usize::MAX,
                        self.margin_total_spec() >= 0,
                        margin_dimension == self.margin_total_spec() + margins_sum(
                            gs@.take(j as int),
                        ),
                    decreases n - j,
                {
                    proof {
                        lemma_margins_sum_take_step(gs@, j as int);
                        lemma_margins_sum_split(gs@, j as int + 1);
                        lemma_margins_sum_nonneg(gs@.skip(j as int + 1));
                        lemma_margins_sum_nonneg(gs@.take(j as int));
                        lemma_margin_total_nonneg(gs@[j as int]);
                    }
                    let m = gs[j].margin_total();
                    margin_dimension = margin_dimension + m;
                    j += 1;
                }
                proof {
                    assert(gs@.take(n as int) =~= gs@);
                }
            },
            BarLabelChildren::Labels(_) => {},
        }
        let count = self.labels().len();
        if count == 0 {
            0
        } else {
            (dimension - margin_dimension) / count
        }
    }
}

/// The spans of a run of sibling leaf labels: label `i` starts at
/// `pos + i × (bar width + between)` and covers `bar width` pixels,
/// inclusive.
pub open spec fn positions_of_labels(ls: Seq<BarLabel>, pos: int, bw: int, between: int) -> Seq<
    (int, int, int),
> {
    Seq::new(
        ls.len(),
        |i: int|
            (ls[i].key as int, pos + i * (bw + between), pos + i * (bw + between) + bw - 1),
    )
}

impl BarGroup {
    /// The `(key, start, end)` spans this node emits when its first
    /// child's content begins at `pos`.
    pub open spec fn positions_spec(self, pos: int, bw: int) -> Seq<(int, int, int)>
        decreases self,
    {
        match self.children {
            BarLabelChildren::Labels(ls) => positions_of_labels(
                ls@,
                pos,
                bw,
                self.margin_between as int,
            ),
            BarLabelChildren::SubGroups(gs) => positions_of_groups(
                gs@,
                pos,
                bw,
                self.margin_between as int,
            ),
        }
    }
}

/// The spans of a run of sibling child groups, threading the pixel cursor:
/// a child's content starts after its own margin-before; once a child is
/// done the cursor stands one past its last emitted pixel (or stays, for a
/// child that emitted nothing), plus the child's margin-after and the
/// parent's margin-between.
pub open spec fn positions_of_groups(gs: Seq<BarGroup>, cursor: int, bw: int, between: int) -> Seq<
    (int, int, int),
>
    decreases gs,
{
    if gs.len() == 0 {
        Seq::empty()
    } else {
        let child = gs[0];
        let emitted = child.positions_spec(cursor + child.margin_before, bw);
        let next = if emitted.len() == 0 {
            cursor + child.margin_after + between
        } else {
            emitted.last().2 + 1 + child.margin_after + between
        };
        emitted + positions_of_groups(gs.drop_first(), next, bw, between)
    }
}

impl BarGroup {
    /// Whether the whole layout from `pos`, with the given bar width,
    /// stays within `usize` range.
    pub open spec fn fits(self, pos: int, bw: int) -> bool
        decreases self,
    {
        match self.children {
            BarLabelChildren::Labels(ls) => 1 <= pos && pos + ls@.len() * (bw
                + self.margin_between) <= usize::MAX,
            BarLabelChildren::SubGroups(gs) => 1 <= pos <= usize::MAX && groups_fit(
                gs@,
                pos,
                bw,
                self.margin_between as int,
            ),
        }
    }
}

/// `fits`, threaded over a run of sibling child groups.
pub open spec fn groups_fit(gs: Seq<BarGroup>, cursor: int, bw: int, between: int) -> bool
    decreases gs,
{
    if gs.len() == 0 {
        true
    } else {
        let child = gs[0];
        let emitted = child.positions_spec(cursor + child.margin_before, bw);
        let next = if emitted.len() == 0 {
            cursor + child.margin_after + between
        } else {
            emitted.last().2 + 1 + child.margin_after + between
        };
        &&& cursor + child.margin_before <= usize::MAX
        &&& child.fits(cursor + child.margin_before, bw)
        &&& 1 <= next <= usize::MAX
        &&& groups_fit(gs.drop_first(), next, bw, between)
    }
}

/// The integer view of emitted positions.
pub open spec fn positions_view(s: Seq<BarPosition>) -> Seq<(int, int, int)> {
    Seq::new(
        s.len(),
        |i: int| (s[i].key as int, s[i].position_start as int, s[i].position_end as int),
    )
}

/// Pushing a position appends its integer view.
proof fn lemma_positions_view_push(s: Seq<BarPosition>, p: BarPosition)
    ensures
        positions_view(s.push(p)) == positions_view(s).push(
            (p.key as int, p.position_start as int, p.position_end as int),
        ),
{
    assert forall|i: int| 0 <= i < s.len() + 1 implies positions_view(s.push(p))[i]
        == positions_view(s).push(
        (p.key as int, p.position_start as int, p.position_end as int),
    )[i] by {
        if i < s.len() {
            assert(s.push(p)[i] == s[i]);
            assert(positions_view(s)[i] == (
                s[i].key as int,
                s[i].position_start as int,
                s[i].position_end as int,
            ));
        }
    }
    assert(positions_view(s.push(p)) =~= positions_view(s).push(
        (p.key as int, p.position_start as int, p.position_end as int),
    ));
}

/// Emits the spans of `g`'s subtree, starting at `pos`, onto `out`.
#[verifier::loop_isolation(false)]
fn emit_positions(g: &BarGroup, pos: usize, bar_width: usize, out: &mut Vec<BarPosition>)
    requires
        g.fits(pos as int, bar_width as int),
    ensures
        positions_view(final(out)@) == positions_view(old(out)@) + g.positions_spec(
            pos as int,
            bar_width as int,
        ),
    decreases *g,
{
    let ghost base = positions_view(out@);
    let ghost bw = bar_width as int;
    match &g.children {
        BarLabelChildren::Labels(ls) => {
            let ghost spec_spans = positions_of_labels(ls@, pos as int, bw, g.margin_between as int);
            let ghost step = bw + g.margin_between;
            let n = ls.len();
            let mut cursor: usize = pos;
            let mut j: usize = 0;
            while j < n
                invariant
                    j <= n,
                    cursor == pos + j * step,
                    1 <= cursor,
                    cursor <= usize::MAX,
                    positions_view(out@) == base + spec_spans.take(j as int),
                decreases n - j,
            {
                proof {
                    assert((j + 1) * step == j * step + step) by (nonlinear_arith);
                    assert((j + 1) * step <= n * step) by (nonlinear_arith)
                        requires
                            j + 1 <= n,
                            step >= 0,
                    ;
                }
                let ghost pre = out@;
                let position = BarPosition {
                    key: ls[j].key,
                    position_start: cursor,
                    position_end: cursor + bar_width - 1,
                };
                out.push(position);
                proof {
                    lemma_positions_view_push(pre, position);
                    assert(spec_spans[j as int] == (
                        position.key as int,
                        position.position_start as int,
                        position.position_end as int,
                    ));
                    assert(positions_view(out@) =~= base + spec_spans.take(j as int + 1));
                }
                cursor = cursor + bar_width + g.margin_between;
                j += 1;
            }
            proof {
                assert(spec_spans.take(n as int) =~= spec_spans);
            }
        },
        BarLabelChildren::SubGroups(gs) => {
            let n = gs.len();
            let mut cursor: usize = pos;
            let mut j: usize = 0;
            proof {
                assert(gs@.skip(0) =~= gs@);
                assert(g.positions_spec(pos as int, bw) == positions_of_groups(
                    gs@,
                    pos as int,
                    bw,
                    g.margin_between as int,
                ));
            }
            while j < n
                invariant
                    j <= n,
                    1 <= cursor <= usize::MAX,
                    groups_fit(
                        gs@.skip(j as int),
                        cursor as int,
                        bw,
                        g.margin_between as int,
                    ),
                    base + g.positions_spec(pos as int, bw) == positions_view(out@)
                        + positions_of_groups(
                        gs@.skip(j as int),
                        cursor as int,
                        bw,
                        g.margin_between as int,
                    ),
                decreases n - j,
            {
                proof {
                    assert(gs@.skip(j as int)[0] == gs@[j as int]);
                    assert(gs@.skip(j as int).drop_first() =~= gs@.skip(j as int + 1));
                }
                let child = &gs[j];
                proof {
                    assert(decreases_to!(*g => g.children));
                    assert(decreases_to!(g.children => g.children->SubGroups_0));
                    assert(decreases_to!(g.children->SubGroups_0 => gs@[j as int]));
                    assert(decreases_to!(*g => *child));
                }
                let ghost emitted = child.positions_spec(
                    cursor as int + child.margin_before as int,
                    bw,
                );
                let ghost next = if emitted.len() == 0 {
                    cursor as int + child.margin_after + g.margin_between
                } else {
                    emitted.last().2 + 1 + child.margin_after + g.margin_between
                };
                let child_pos = cursor + child.margin_before;
                let before_len = out.len();
                let ghost pre_call = out@;
                emit_positions(child, child_pos, bar_width, out);
                proof {
                    assert(positions_view(pre_call).len() == pre_call.len());
                    assert(positions_view(out@).len() == out@.len());
                    assert(emitted.len() == out@.len() - before_len);
                }
                if out.len() > before_len {
                    let last = out[out.len() - 1];
                    proof {
                        assert(positions_view(out@)[out@.len() - 1] == emitted.last());
                        assert(last.position_end as int == emitted.last().2);
                    }
                    cursor = last.position_end + 1 + child.margin_after + g.margin_between;
                } else {
                    proof {
                        assert(emitted.len() == 0);
                    }
                    cursor = cursor + child.margin_after + g.margin_between;
                }
                proof {
                    assert(cursor as int == next);
                    assert(base + g.positions_spec(pos as int, bw) =~= positions_view(out@)
                        + positions_of_groups(
                        gs@.skip(j as int + 1),
                        cursor as int,
                        bw,
                        g.margin_between as int,
                    ));
                }
                j += 1;
            }
            proof {
                assert(gs@.skip(n as int).len() == 0);
                assert(positions_view(out@) =~= base + g.positions_spec(pos as int, bw));
            }
        },
    }
}

impl BarGroup {
    /// The pixel span of every leaf label for a target dimension: the bar
    /// width comes from `calculate_bar_width`, the walk starts at pixel
    /// `1 + margin_before`, and the spans come in `labels` order.
    pub fn bar_positions(&self, dimension: usize) -> (r: Vec<BarPosition>)
        requires
            self.margin_dimension_spec() <= dimension,
            self.margin_before < usize::MAX,
            self.fits(1 + self.margin_before as int, self.bar_width_spec(dimension as int)),
        ensures
            positions_view(r@) == self.positions_spec(
                1 + self.margin_before as int,
                self.bar_width_spec(dimension as int),
            ),
            r@.len() == self.labels_spec().len(),
    {
        proof {
            lemma_positions_match_labels(
                *self,
                1 + self.margin_before as int,
                self.bar_width_spec(dimension as int),
            );
        }
        let bar_width = self.calculate_bar_width(dimension);
        let mut out: Vec<BarPosition> = Vec::new();
        proof {
            assert(positions_view(out@) =~= Seq::<(int, int, int)>::empty());
        }
        emit_positions(self, 1 + self.margin_before, bar_width, &mut out);
        proof {
            assert(positions_view(out@) =~= self.positions_spec(
                1 + self.margin_before as int,
                self.bar_width_spec(dimension as int),
            ));
        }
        out
    }
}

impl BarGroup {
    /// Whether the tree is at most two levels deep: the node is a leaf
    /// parent, or every immediate child is.
    pub open spec fn is_shallow(self) -> bool {
        match self.children {
            BarLabelChildren::Labels(_) => true,
            BarLabelChildren::SubGroups(gs) => forall|i: int|
                0 <= i < gs@.len() ==> (#[trigger] gs@[i]).children is Labels,
        }
    }
}

/// A parent's occupied width decomposes into its own margin total plus the
/// sum of its children's own occupied widths; no margin is counted twice,
/// since each node owns only its own margins.
pub proof fn lemma_width_for_bar_width_decomposes(g: BarGroup, bar_width: int)
    requires
        g.children is SubGroups,
    ensures
        width_for_spec(g, bar_width) == g.margin_total_spec() + widths_sum(
            g.subgroups(),
            bar_width,
        ),
{
}

/// For a run of leaf-parent children, the width sum is the margin sum plus
/// one bar width per leaf label.
proof fn lemma_shallow_widths_sum(gs: Seq<BarGroup>, bw: int)
    requires
        forall|i: int| 0 <= i < gs.len() ==> (#[trigger] gs[i]).children is Labels,
    ensures
        widths_sum(gs, bw) == margins_sum(gs) + labels_of_groups(gs).len() * bw,
    decreases gs,
{
    if gs.len() == 0 {
    } else {
        let head = gs[0];
        let rest = gs.drop_first();
        assert forall|i: int| 0 <= i < rest.len() implies (#[trigger] rest[i]).children
            is Labels by {
            assert(rest[i] == gs[i + 1]);
        }
        lemma_shallow_widths_sum(rest, bw);
        let l0 = head.labels_spec().len() as int;
        let lr = labels_of_groups(rest).len() as int;
        assert(widths_sum(gs, bw) == width_for_spec(head, bw) + widths_sum(rest, bw));
        assert(width_for_spec(head, bw) == head.margin_total_spec() + l0 * bw);
        assert(margins_sum(gs) == head.margin_total_spec() + margins_sum(rest));
        assert(labels_of_groups(gs) == head.labels_spec() + labels_of_groups(rest));
        assert(labels_of_groups(gs).len() == l0 + lr);
        assert((l0 + lr) * bw == l0 * bw + lr * bw) by (nonlinear_arith);
    }
}

/// The round trip of the two width computations: for a tree at most two
/// levels deep with at least one leaf label, laying the tree out with the
/// bar width computed for a dimension occupies that dimension exactly, up
/// to the division remainder — a loss of fewer pixels than there are
/// labels.
pub proof fn lemma_bar_width_round_trip(g: BarGroup, dimension: int)
    requires
        g.is_shallow(),
        g.labels_spec().len() > 0,
        g.margin_dimension_spec() <= dimension,
    ensures
        width_for_spec(g, g.bar_width_spec(dimension)) == dimension - ((dimension
            - g.margin_dimension_spec()) % (g.labels_spec().len() as int)),
        dimension - (g.labels_spec().len() - 1) <= width_for_spec(g, g.bar_width_spec(dimension)),
        width_for_spec(g, g.bar_width_spec(dimension)) <= dimension,
{
    let n = g.labels_spec().len() as int;
    let md = g.margin_dimension_spec();
    let q = g.bar_width_spec(dimension);
    let r = (dimension - md) % n;
    vstd::arithmetic::div_mod::lemma_fundamental_div_mod(dimension - md, n);
    vstd::arithmetic::div_mod::lemma_mod_division_less_than_divisor(dimension - md, n);
    assert(dimension - md == n * q + r);
    match g.children {
        BarLabelChildren::Labels(ls) => {
            assert(ls@.len() * q == n * q) by (nonlinear_arith)
                requires
                    ls@.len() == n,
            ;
        },
        BarLabelChildren::SubGroups(gs) => {
            lemma_shallow_widths_sum(gs@, q);
            assert(labels_of_groups(gs@).len() * q == n * q) by (nonlinear_arith)
                requires
                    labels_of_groups(gs@).len() == n,
            ;
        },
    }
}

/// The emitted spans carry exactly the keys of the depth-first label
/// traversal, in the same order, wherever the layout starts and whatever
/// the bar width.
pub proof fn lemma_positions_match_labels(g: BarGroup, pos: int, bw: int)
    ensures
        g.positions_spec(pos, bw).len() == g.labels_spec().len(),
        forall|i: int|
            0 <= i < g.labels_spec().len() ==> (#[trigger] g.positions_spec(pos, bw)[i]).0
                == g.labels_spec()[i].key,
    decreases g,
{
    match g.children {
        BarLabelChildren::Labels(ls) => {
        },
        BarLabelChildren::SubGroups(gs) => {
            lemma_groups_positions_match_labels(gs@, pos, bw, g.margin_between as int);
        },
    }
}

/// The run-of-siblings case of `lemma_positions_match_labels`.
proof fn lemma_groups_positions_match_labels(gs: Seq<BarGroup>, cursor: int, bw: int, between: int)
    ensures
        positions_of_groups(gs, cursor, bw, between).len() == labels_of_groups(gs).len(),
        forall|i: int|
            0 <= i < labels_of_groups(gs).len() ==> (#[trigger] positions_of_groups(
                gs,
                cursor,
                bw,
                between,
            )[i]).0 == labels_of_groups(gs)[i].key,
    decreases gs,
{
    if gs.len() > 0 {
        let child = gs[0];
        let emitted = child.positions_spec(cursor + child.margin_before, bw);
        let next = if emitted.len() == 0 {
            cursor + child.margin_after + between
        } else {
            emitted.last().2 + 1 + child.margin_after + between
        };
        lemma_positions_match_labels(child, cursor + child.margin_before, bw);
        lemma_groups_positions_match_labels(gs.drop_first(), next, bw, between);
        let all = positions_of_groups(gs, cursor, bw, between);
        let alllabels = labels_of_groups(gs);
        assert forall|i: int| 0 <= i < alllabels.len() implies (#[trigger] all[i]).0
            == alllabels[i].key by {
            if i < emitted.len() {
                assert(all[i] == emitted[i]);
                assert(alllabels[i] == child.labels_spec()[i]);
            } else {
                assert(all[i] == positions_of_groups(gs.drop_first(), next, bw, between)[i
                    - emitted.len()]);
                assert(alllabels[i] == labels_of_groups(gs.drop_first())[i - emitted.len()]);
            }
        }
    }
}

impl Default for BarGroup {
    /// An empty internal node: no children, zero margins, empty name.
    fn default() -> (r: Self)
        ensures
            r.label@ == Seq::<char>::empty(),
            r.margin_before == 0,
            r.margin_after == 0,
            r.margin_between == 0,
            r.children is SubGroups,
            r.subgroups() == Seq::<BarGroup>::empty(),
    {
        Self::empty_node()
    }
}

} // verus!
