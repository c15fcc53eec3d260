//! Labels, the tag sets by which endpoints are addressed, and the boolean
//! predicates over them that select the recipients of a message.

use smallvec::SmallVec;
use smol_str::SmolStr;
use vstd::prelude::*;

verus! {

/// `SmolStr`, a string that holds short texts in place. Nothing is known of
/// a value but the text that the functions below tell of it.
#[verifier::external_type_specification]
#[verifier::external_body]
pub struct ExSmolStr(SmolStr);

/// A `SmallVec` of tags with room for eight of them in place. Nothing is
/// known of a value but the texts that the functions below tell of it.
#[derive(Debug)]
#[verifier::external_body]
pub struct TagVec {
    items: SmallVec<[SmolStr; 8]>,
}

/// The text that a `SmolStr` holds.
pub uninterp spec fn smol_str_text(s: SmolStr) -> Seq<char>;

/// The texts that a tag vector holds, first pushed first.
pub uninterp spec fn tag_texts(v: TagVec) -> Seq<Seq<char>>;

/// `SmolStr::new`: the new string holds the text it was made from.
#[verifier::external_body]
fn smol_str_new(text: &str) -> (s: SmolStr)
    ensures
        smol_str_text(s) == text@,
{
    SmolStr::new(text)
}

/// `SmolStr::as_str`: the slice returned is the text that the string holds.
#[verifier::external_body]
fn smol_str_as_str(s: &SmolStr) -> (text: &str)
    ensures
        text@ == smol_str_text(*s),
{
    s.as_str()
}

/// `PartialEq<str>` of `SmolStr`, which compares the text held with the slice.
#[verifier::external_body]
fn smol_str_is(s: &SmolStr, text: &str) -> (same: bool)
    ensures
        same == (smol_str_text(*s) == text@),
{
    s == text
}

/// `Clone` of `SmolStr`: the copy holds the same text.
#[verifier::external_body]
fn smol_str_clone(s: &SmolStr) -> (copy: SmolStr)
    ensures
        smol_str_text(copy) == smol_str_text(*s),
{
    s.clone()
}

/// `SmallVec::new`: an empty vector.
#[verifier::external_body]
fn tags_new() -> (v: TagVec)
    ensures
        tag_texts(v) == Seq::<Seq<char>>::empty(),
{
    TagVec { items: SmallVec::new() }
}

/// `SmallVec::len`: the number of items held.
#[verifier::external_body]
fn tags_len(v: &TagVec) -> (n: usize)
    ensures
        n == tag_texts(*v).len(),
{
    v.items.len()
}

/// Indexing of a `SmallVec`, which goes through its slice: the item at
/// position `i`. Out of bounds it panics, so `i` must be below the length.
#[verifier::external_body]
fn tags_get(v: &TagVec, i: usize) -> (s: &SmolStr)
    requires
        i < tag_texts(*v).len(),
    ensures
        smol_str_text(*s) == tag_texts(*v)[i as int],
{
    &v.items[i]
}

/// `SmallVec::push`: appends the item and keeps the others in place. Like
/// `Vec::push` it gives up only when memory cannot be had.
#[verifier::external_body]
fn tags_push(v: &mut TagVec, s: SmolStr)
    ensures
        tag_texts(*final(v)) == tag_texts(*old(v)).push(smol_str_text(s)),
{
    v.items.push(s)
}

/// `SmallVec::remove`: takes out the item at position `i` and shifts the
/// later ones down by one. Out of bounds it panics, so `i` must be below the
/// length.
#[verifier::external_body]
fn tags_remove(v: &mut TagVec, i: usize)
    requires
        i < tag_texts(*old(v)).len(),
    ensures
        tag_texts(*final(v)) == tag_texts(*old(v)).remove(i as int),
{
    v.items.remove(i);
}

/// `Clone` of `SmallVec`, which copies the slice item by item.
#[verifier::external_body]
fn tags_clone(v: &TagVec) -> (copy: TagVec)
    ensures
        tag_texts(copy) == tag_texts(*v),
{
    TagVec { items: v.items.clone() }
}

/// The routing tags of an endpoint: short strings in the order in which they
/// were inserted. Two labels are equal when they hold the same tags, in
/// whatever order.
#[derive(Debug)]
pub struct Label {
    tags: TagVec,
}

impl View for Label {
    type V = Seq<Seq<char>>;

    closed spec fn view(&self) -> Seq<Seq<char>> {
        tag_texts(self.tags)
    }
}

/// The test that every tag but `s` passes.
pub open spec fn other_than(s: Seq<char>) -> spec_fn(Seq<char>) -> bool {
    |t: Seq<char>| t != s
}

/// The tags of `tags` other than `s`, in their order.
pub open spec fn without_tag(tags: Seq<Seq<char>>, s: Seq<char>) -> Seq<Seq<char>> {
    tags.filter(other_than(s))
}

/// What inserting `s` makes of `tags`: nothing new where `s` is there already.
pub open spec fn with_tag(tags: Seq<Seq<char>>, s: Seq<char>) -> Seq<Seq<char>> {
    if tags.contains(s) {
        tags
    } else {
        tags.push(s)
    }
}

/// The label that inserting the tags of `subs` one after the other into
/// `tags` gives.
pub open spec fn with_tags(tags: Seq<Seq<char>>, subs: Seq<Seq<char>>) -> Seq<Seq<char>>
    decreases subs.len(),
{
    if subs.len() == 0 {
        tags
    } else {
        with_tag(with_tags(tags, subs.drop_last()), subs.last())
    }
}

/// Whether every tag of `subs` is among `tags`.
pub open spec fn has_all(tags: Seq<Seq<char>>, subs: Seq<Seq<char>>) -> bool {
    forall|i: int| 0 <= i < subs.len() ==> tags.contains(#[trigger] subs[i])
}

/// The texts of a slice of string slices.
pub open spec fn texts_of(subs: Seq<&str>) -> Seq<Seq<char>> {
    subs.map_values(|s: &str| s@)
}

/// Taking the items that fail a test out of a sequence in which nothing
/// occurs twice leaves one in which nothing occurs twice.
proof fn lemma_filter_no_duplicates(tags: Seq<Seq<char>>, pred: spec_fn(Seq<char>) -> bool)
    requires
        tags.no_duplicates(),
    ensures
        tags.filter(pred).no_duplicates(),
    decreases tags.len(),
{
    if tags.len() == 0 {
        reveal(Seq::filter);
    } else {
        let init = tags.drop_last();
        let last = tags.last();
        lemma_filter_no_duplicates(init, pred);
        assert(tags =~= init.push(last));
        init.lemma_filter_push(last, pred);
        if pred(last) {
            let kept = init.filter(pred);
            if kept.contains(last) {
                init.lemma_filter_contains_rev(pred, last);
            }
        }
    }
}

/// What removing a tag leaves: no tag twice, the tag gone, the others kept.
proof fn lemma_without_tag(tags: Seq<Seq<char>>, s: Seq<char>)
    ensures
        tags.no_duplicates() ==> without_tag(tags, s).no_duplicates(),
        !without_tag(tags, s).contains(s),
        forall|t: Seq<char>| t != s ==> without_tag(tags, s).contains(t) == tags.contains(t),
{
    let pred = other_than(s);
    let kept = tags.filter(pred);
    if tags.no_duplicates() {
        lemma_filter_no_duplicates(tags, pred);
    }
    assert forall|t: Seq<char>| t != s implies kept.contains(t) == tags.contains(t) by {
        if tags.contains(t) {
            let i = choose|i: int| 0 <= i < tags.len() && tags[i] == t;
            tags.lemma_filter_contains(pred, i);
        }
        if kept.contains(t) {
            tags.lemma_filter_contains_rev(pred, t);
        }
    }
    if kept.contains(s) {
        let i = choose|i: int| 0 <= i < kept.len() && kept[i] == s;
        tags.lemma_filter_pred(pred, i);
    }
}

impl Label {
    /// Whether no tag occurs twice.
    pub open spec fn wf(&self) -> bool {
        self@.no_duplicates()
    }

    /// An empty label.
    pub fn new() -> (label: Label)
        ensures
            label@ == Seq::<Seq<char>>::empty(),
            label.wf(),
    {
        Label { tags: tags_new() }
    }

    /// The number of tags.
    pub fn len(&self) -> (n: usize)
        ensures
            n == self@.len(),
    {
        tags_len(&self.tags)
    }

    /// Whether the label holds the tag `s`.
    pub fn contains(&self, s: &str) -> (found: bool)
        ensures
            found == self@.contains(s@),
    {
        let n = tags_len(&self.tags);
        let mut i: usize = 0;
        while i < n
            invariant
                n == self@.len(),
                i <= n,
                forall|j: int| 0 <= j < i ==> self@[j] != s@,
            decreases n - i,
        {
            if smol_str_is(tags_get(&self.tags, i), s) {
                return true;
            }
            i += 1;
        }
        false
    }

    /// Adds the tag `s` at the end, unless the label holds it already.
    pub fn insert(&mut self, s: &str)
        ensures
            final(self)@ == with_tag(old(self)@, s@),
            old(self).wf() ==> final(self).wf(),
    {
        if self.contains(s) {
            return;
        }
        tags_push(&mut self.tags, smol_str_new(s));
    }

    /// Takes the tag `s` out and keeps the others in their order.
    pub fn remove(&mut self, s: &str)
        ensures
            final(self)@ == without_tag(old(self)@, s@),
            old(self).wf() ==> final(self).wf(),
            !final(self)@.contains(s@),
            forall|t: Seq<char>| t != s@ ==> final(self)@.contains(t) == old(self)@.contains(t),
    {
        let ghost before = self@;
        let ghost pred = other_than(s@);
        let ghost mut k: int = 0;
        let mut i: usize = 0;
        proof {
            assert(before.take(0).filter(pred) =~= Seq::<Seq<char>>::empty()) by {
                reveal(Seq::filter);
            }
        }
        while i < tags_len(&self.tags)
            invariant
                i <= self@.len(),
                0 <= k <= before.len(),
                k == i + (before.len() - self@.len()),
                self@.take(i as int) == before.take(k).filter(pred),
                self@.skip(i as int) == before.skip(k),
                pred == other_than(s@),
            decreases self@.len() - i,
        {
            let ghost current = self@;
            proof {
                assert(current[i as int] == current.skip(i as int)[0]);
                assert(before.take(k + 1) =~= before.take(k).push(before[k]));
                before.take(k).lemma_filter_push(before[k], pred);
            }
            if smol_str_is(tags_get(&self.tags, i), s) {
                tags_remove(&mut self.tags, i);
                proof {
                    assert(self@.skip(i as int) =~= current.skip(i as int).skip(1));
                    k = k + 1;
                }
            } else {
                proof {
                    assert(current.skip(i + 1) =~= current.skip(i as int).skip(1));
                    k = k + 1;
                }
                i += 1;
            }
        }
        proof {
            assert(self@.take(i as int) =~= self@);
            assert(before.take(k) =~= before);
            lemma_without_tag(before, s@);
        }
    }

    /// Whether the label holds every tag of `sub`.
    pub fn all(&self, sub: &[&str]) -> (every: bool)
        ensures
            every == has_all(self@, texts_of(sub@)),
    {
        let mut i: usize = 0;
        while i < sub.len()
            invariant
                i <= sub.len(),
                forall|j: int| 0 <= j < i ==> self@.contains(#[trigger] texts_of(sub@)[j]),
            decreases sub.len() - i,
        {
            if !self.contains(sub[i]) {
                assert(texts_of(sub@)[i as int] == sub@[i as int]@);
                return false;
            }
            i += 1;
        }
        true
    }

    /// The tags in the order in which they were inserted.
    pub fn iter(&self) -> (tags: Vec<&str>)
        ensures
            texts_of(tags@) == self@,
    {
        let n = tags_len(&self.tags);
        let mut tags: Vec<&str> = Vec::new();
        let mut i: usize = 0;
        while i < n
            invariant
                n == self@.len(),
                i <= n,
                tags@.len() == i,
                forall|j: int| 0 <= j < i ==> (#[trigger] tags@[j])@ == self@[j],
            decreases n - i,
        {
            tags.push(smol_str_as_str(tags_get(&self.tags, i)));
            i += 1;
        }
        tags
    }

    /// The label that holds the tags of `subs`, each once, in the order of
    /// their first occurrence.
    pub fn from_tags(subs: &[&str]) -> (label: Label)
        ensures
            label.wf(),
            label@ == with_tags(Seq::<Seq<char>>::empty(), texts_of(subs@)),
    {
        let mut label = Label::new();
        let mut i: usize = 0;
        while i < subs.len()
            invariant
                i <= subs.len(),
                label.wf(),
                label@ == with_tags(Seq::<Seq<char>>::empty(), texts_of(subs@).take(i as int)),
            decreases subs.len() - i,
        {
            proof {
                let all = texts_of(subs@);
                assert(all.take(i + 1).drop_last() =~= all.take(i as int));
            }
            label.insert(subs[i]);
            i += 1;
        }
        assert(texts_of(subs@).take(i as int) =~= texts_of(subs@));
        label
    }
}

impl Clone for Label {
    fn clone(&self) -> (copy: Label)
        ensures
            copy@ == self@,
            copy.wf() == self.wf(),
    {
        Label { tags: tags_clone(&self.tags) }
    }
}

impl Default for Label {
    fn default() -> (label: Label)
        ensures
            label@ == Seq::<Seq<char>>::empty(),
            label.wf(),
    {
        Label::new()
    }
}

impl PartialEq for Label {
    fn eq(&self, other: &Label) -> (same: bool) {
        let n = self.len();
        let m = other.len();
        let mut i: usize = 0;
        while i < n
            invariant
                n == self@.len(),
                i <= n,
                forall|j: int| 0 <= j < i ==> other@.contains(#[trigger] self@[j]),
            decreases n - i,
        {
            if !other.contains(smol_str_as_str(tags_get(&self.tags, i))) {
                assert(self@.to_set().contains(self@[i as int]));
                return false;
            }
            i += 1;
        }
        let mut k: usize = 0;
        while k < m
            invariant
                m == other@.len(),
                k <= m,
                forall|j: int| 0 <= j < k ==> self@.contains(#[trigger] other@[j]),
            decreases m - k,
        {
            if !self.contains(smol_str_as_str(tags_get(&other.tags, k))) {
                assert(other@.to_set().contains(other@[k as int]));
                return false;
            }
            k += 1;
        }
        assert(self@.to_set() =~= other@.to_set());
        true
    }
}

impl vstd::std_specs::cmp::PartialEqSpecImpl for Label {
    open spec fn obeys_eq_spec() -> bool {
        true
    }

    open spec fn eq_spec(&self, other: &Label) -> bool {
        self@.to_set() == other@.to_set()
    }
}

/// What a predicate says, with each leaf's tag as plain text.
pub enum OpTree {
    True,
    False,
    Leaf(Seq<char>),
    Not(Box<OpTree>),
    And(Box<OpTree>, Box<OpTree>),
    Or(Box<OpTree>, Box<OpTree>),
}

impl OpTree {
    /// Whether the predicate holds of a label with the tags `tags`: a leaf
    /// holds when its tag is among them, and the connectives mean what they
    /// say.
    pub open spec fn holds(self, tags: Seq<Seq<char>>) -> bool
        decreases self,
    {
        match self {
            OpTree::True => true,
            OpTree::False => false,
            OpTree::Leaf(tag) => tags.contains(tag),
            OpTree::Not(inner) => !inner.holds(tags),
            OpTree::And(left, right) => left.holds(tags) && right.holds(tags),
            OpTree::Or(left, right) => left.holds(tags) || right.holds(tags),
        }
    }
}

/// A predicate over the tags of a label, e.g.
/// `LabelOp::from("foo").and(LabelOp::from("bar")).or(!LabelOp::from("baz"))`.
#[derive(Debug)]
pub enum LabelOp {
    True,
    False,
    Leaf(SmolStr),
    Not(Box<LabelOp>),
    And(Box<LabelOp>, Box<LabelOp>),
    Or(Box<LabelOp>, Box<LabelOp>),
}

impl View for LabelOp {
    type V = OpTree;

    open spec fn view(&self) -> OpTree {
        self.tree()
    }
}

impl LabelOp {
    /// The predicate as a tree over plain text, node for node.
    pub open spec fn tree(&self) -> OpTree
        decreases self,
    {
        match self {
            LabelOp::True => OpTree::True,
            LabelOp::False => OpTree::False,
            LabelOp::Leaf(tag) => OpTree::Leaf(smol_str_text(*tag)),
            LabelOp::Not(inner) => OpTree::Not(Box::new(inner.tree())),
            LabelOp::And(left, right) => OpTree::And(
                Box::new(left.tree()),
                Box::new(right.tree()),
            ),
            LabelOp::Or(left, right) => OpTree::Or(Box::new(left.tree()), Box::new(right.tree())),
        }
    }

    /// The predicate that holds of the labels with the tag `tag`.
    pub fn leaf(tag: &str) -> (op: LabelOp)
        ensures
            op@ == OpTree::Leaf(tag@),
    {
        LabelOp::Leaf(smol_str_new(tag))
    }

    /// The negation of `self`.
    pub fn not(self) -> (op: LabelOp)
        ensures
            op@ == OpTree::Not(Box::new(self@)),
            op == LabelOp::Not(Box::new(self)),
    {
        LabelOp::Not(Box::new(self))
    }

    /// The conjunction of `self` and `v`, in this order.
    pub fn and(self, v: LabelOp) -> (op: LabelOp)
        ensures
            op@ == OpTree::And(Box::new(self@), Box::new(v@)),
    {
        LabelOp::And(Box::new(self), Box::new(v))
    }

    /// The disjunction of `self` and `v`, in this order.
    pub fn or(self, v: LabelOp) -> (op: LabelOp)
        ensures
            op@ == OpTree::Or(Box::new(self@), Box::new(v@)),
    {
        LabelOp::Or(Box::new(self), Box::new(v))
    }

    /// Whether the predicate holds of `label`. The right side of a
    /// conjunction or disjunction is looked at only where the left side has
    /// not settled the result.
    pub fn validate(&self, label: &Label) -> (holds: bool)
        ensures
            holds == self@.holds(label@),
        decreases self,
    {
        match self {
            LabelOp::True => true,
            LabelOp::False => false,
            LabelOp::Leaf(tag) => label.contains(smol_str_as_str(tag)),
            LabelOp::And(left, right) => left.validate(label) && right.validate(label),
            LabelOp::Or(left, right) => left.validate(label) || right.validate(label),
            LabelOp::Not(inner) => !inner.validate(label),
        }
    }
}

impl Clone for LabelOp {
    fn clone(&self) -> (copy: LabelOp)
        ensures
            copy@ == self@,
        decreases self,
    {
        match self {
            LabelOp::True => LabelOp::True,
            LabelOp::False => LabelOp::False,
            LabelOp::Leaf(tag) => LabelOp::Leaf(smol_str_clone(tag)),
            LabelOp::Not(inner) => LabelOp::Not(Box::new((**inner).clone())),
            LabelOp::And(left, right) => LabelOp::And(
                Box::new((**left).clone()),
                Box::new((**right).clone()),
            ),
            LabelOp::Or(left, right) => LabelOp::Or(
                Box::new((**left).clone()),
                Box::new((**right).clone()),
            ),
        }
    }
}

impl core::ops::Not for LabelOp {
    type Output = LabelOp;

    fn not(self) -> (op: LabelOp)
        ensures
            op@ == OpTree::Not(Box::new(self@)),
    {
        LabelOp::not(self)
    }
}

impl vstd::std_specs::ops::NotSpecImpl for LabelOp {
    open spec fn obeys_not_spec() -> bool {
        true
    }

    open spec fn not_req(self) -> bool {
        true
    }

    open spec fn not_spec(self) -> LabelOp {
        LabelOp::Not(Box::new(self))
    }
}

impl<'a> From<&'a str> for LabelOp {
    fn from(tag: &'a str) -> (op: LabelOp)
        ensures
            op@ == OpTree::Leaf(tag@),
    {
        LabelOp::leaf(tag)
    }
}

impl<'a> vstd::std_specs::convert::FromSpecImpl<&'a str> for LabelOp {
    open spec fn obeys_from_spec() -> bool {
        false
    }

    open spec fn from_spec(tag: &'a str) -> LabelOp {
        arbitrary()
    }
}

/// `True` holds of every label and `False` of none.
pub proof fn lemma_constants(label: Label)
    ensures
        LabelOp::True@.holds(label@),
        !LabelOp::False@.holds(label@),
{
}

/// A negation holds of exactly the labels of which what it negates does not.
pub proof fn lemma_not(op: LabelOp, label: Label)
    ensures
        OpTree::Not(Box::new(op@)).holds(label@) == !op@.holds(label@),
{
}

/// A conjunction holds where both sides hold, a disjunction where either
/// side does.
pub proof fn lemma_and_or(a: LabelOp, b: LabelOp, label: Label)
    ensures
        OpTree::And(Box::new(a@), Box::new(b@)).holds(label@) == (a@.holds(label@) && b@.holds(
            label@,
        )),
        OpTree::Or(Box::new(a@), Box::new(b@)).holds(label@) == (a@.holds(label@) || b@.holds(
            label@,
        )),
{
}

/// A leaf holds of exactly the labels that have its tag.
pub proof fn lemma_leaf(tag: Seq<char>, label: Label)
    ensures
        OpTree::Leaf(tag).holds(label@) == label@.contains(tag),
{
}

/// Whether a predicate holds depends on the tags of a label alone: two labels
/// that are equal as sets satisfy the same predicates.
pub proof fn lemma_holds_of_equal_labels(op: OpTree, a: Seq<Seq<char>>, b: Seq<Seq<char>>)
    requires
        a.to_set() == b.to_set(),
    ensures
        op.holds(a) == op.holds(b),
    decreases op,
{
    match op {
        OpTree::True => {},
        OpTree::False => {},
        OpTree::Leaf(tag) => {
            assert(a.contains(tag) == a.to_set().contains(tag));
        },
        OpTree::Not(inner) => {
            lemma_holds_of_equal_labels(*inner, a, b);
        },
        OpTree::And(left, right) => {
            lemma_holds_of_equal_labels(*left, a, b);
            lemma_holds_of_equal_labels(*right, a, b);
        },
        OpTree::Or(left, right) => {
            lemma_holds_of_equal_labels(*left, a, b);
            lemma_holds_of_equal_labels(*right, a, b);
        },
    }
}

} // verus!
