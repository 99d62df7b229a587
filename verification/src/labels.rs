//! Collections keyed by canonical labels: a set of labels that lists its
//! members in dictionary order, and the map from declared labels to the
//! paths that replace them.

use crate::text::{
    chars_less, chars_of, lemma_lex_irreflexive, lemma_lex_total, lemma_lex_transitive, lex_less,
    same_chars, string_of, texts, views,
};
use vstd::prelude::*;
use vstd::seq_lib::seq_to_set_is_finite;

verus! {

/// Each member of `l` comes strictly before the next ones in dictionary
/// order; so nothing occurs twice.
pub open spec fn strictly_sorted(l: Seq<Seq<char>>) -> bool {
    forall|i: int, j: int| 0 <= i < j < l.len() ==> lex_less(#[trigger] l[i], #[trigger] l[j])
}

/// `l` lists exactly the members of `set`, in dictionary order.
pub open spec fn is_listing(l: Seq<Seq<char>>, set: Set<Seq<char>>) -> bool {
    strictly_sorted(l) && forall|x: Seq<char>| set.contains(x) <==> l.contains(x)
}

/// The members of a finite set of labels in dictionary order.
pub open spec fn sorted_labels(set: Set<Seq<char>>) -> Seq<Seq<char>> {
    choose|l: Seq<Seq<char>>| is_listing(l, set)
}

/// Two texts are never each before the other, and no text is before itself.
pub proof fn lemma_lex_asymmetric(a: Seq<char>, b: Seq<char>)
    ensures
        !(lex_less(a, b) && lex_less(b, a)),
        a == b ==> !lex_less(a, b),
        a != b ==> lex_less(a, b) || lex_less(b, a),
{
    assert(a.take(0) == b.take(0));
    lemma_lex_total(a, b, 0);
    lemma_lex_irreflexive(a, 0);
}

/// A set of labels has one listing in dictionary order.
pub proof fn lemma_listing_unique(l1: Seq<Seq<char>>, l2: Seq<Seq<char>>)
    requires
        strictly_sorted(l1),
        strictly_sorted(l2),
        forall|x: Seq<char>| l1.contains(x) <==> l2.contains(x),
    ensures
        l1 == l2,
    decreases l1.len(),
{
    if l1.len() == 0 {
        if l2.len() > 0 {
            assert(l2.contains(l2[0]));
        }
        assert(l1 =~= l2);
    } else {
        assert(l1.contains(l1[0]));
        assert(l2.contains(l1[0]));
        let j = choose|j: int| 0 <= j < l2.len() && l2[j] == l1[0];
        assert(l2.contains(l2[0]));
        let i = choose|i: int| 0 <= i < l1.len() && l1[i] == l2[0];
        lemma_lex_asymmetric(l1[0], l2[0]);
        assert(l1[0] == l2[0]) by {
            if j > 0 {
                assert(lex_less(l2[0], l2[j]));
                if i > 0 {
                    assert(lex_less(l1[0], l1[i]));
                }
            }
        }
        let t1 = l1.skip(1);
        let t2 = l2.skip(1);
        assert forall|x: Seq<char>| t1.contains(x) <==> t2.contains(x) by {
            lemma_lex_asymmetric(l1[0], x);
            if t1.contains(x) {
                let k = choose|k: int| 0 <= k < t1.len() && t1[k] == x;
                assert(l1[k + 1] == x);
                assert(lex_less(l1[0], l1[k + 1]));
                assert(l2.contains(x));
                let m = choose|m: int| 0 <= m < l2.len() && l2[m] == x;
                assert(m > 0);
                assert(t2[m - 1] == x);
            }
            if t2.contains(x) {
                let k = choose|k: int| 0 <= k < t2.len() && t2[k] == x;
                assert(l2[k + 1] == x);
                assert(lex_less(l2[0], l2[k + 1]));
                assert(l1.contains(x));
                let m = choose|m: int| 0 <= m < l1.len() && l1[m] == x;
                assert(m > 0);
                assert(t1[m - 1] == x);
            }
        }
        assert(strictly_sorted(t1)) by {
            assert forall|a: int, b: int| 0 <= a < b < t1.len() implies lex_less(
                #[trigger] t1[a],
                #[trigger] t1[b],
            ) by {
                assert(lex_less(l1[a + 1], l1[b + 1]));
            }
        }
        assert(strictly_sorted(t2)) by {
            assert forall|a: int, b: int| 0 <= a < b < t2.len() implies lex_less(
                #[trigger] t2[a],
                #[trigger] t2[b],
            ) by {
                assert(lex_less(l2[a + 1], l2[b + 1]));
            }
        }
        lemma_listing_unique(t1, t2);
        assert(l1 =~= seq![l1[0]] + t1);
        assert(l2 =~= seq![l2[0]] + t2);
    }
}

/// In a listing in dictionary order nothing stands twice.
pub proof fn lemma_strictly_sorted_has_no_duplicates(l: Seq<Seq<char>>)
    requires
        strictly_sorted(l),
    ensures
        l.no_duplicates(),
{
    assert forall|i: int, j: int| 0 <= i < l.len() && 0 <= j < l.len() && i != j implies l[i]
        != l[j] by {
        lemma_lex_asymmetric(l[i], l[j]);
        if i < j {
            assert(lex_less(l[i], l[j]));
        } else {
            assert(lex_less(l[j], l[i]));
        }
    }
}

/// A sorted listing of a set is the listing of that set.
pub proof fn lemma_listing_is_sorted_labels(l: Seq<Seq<char>>, set: Set<Seq<char>>)
    requires
        is_listing(l, set),
    ensures
        sorted_labels(set) == l,
{
    lemma_listing_unique(sorted_labels(set), l);
}

/// `x` put into the listing `l` at its place in dictionary order, unless it
/// stands there already.
pub open spec fn with_label(l: Seq<Seq<char>>, x: Seq<char>) -> Seq<Seq<char>>
    decreases l.len(),
{
    if l.len() == 0 {
        seq![x]
    } else if lex_less(l.last(), x) {
        l.push(x)
    } else if l.last() == x {
        l
    } else {
        with_label(l.drop_last(), x).push(l.last())
    }
}

/// Putting a label into a listing gives the listing of the set with that
/// label added.
pub proof fn lemma_with_label(l: Seq<Seq<char>>, set: Set<Seq<char>>, x: Seq<char>)
    requires
        is_listing(l, set),
    ensures
        is_listing(with_label(l, x), set.insert(x)),
    decreases l.len(),
{
    let out = with_label(l, x);
    if l.len() == 0 {
        assert(out[0] == x);
        assert forall|y: Seq<char>| set.insert(x).contains(y) <==> out.contains(y) by {
            if set.contains(y) {
                assert(l.contains(y));
            }
        }
    } else if lex_less(l.last(), x) {
        assert forall|i: int, j: int| 0 <= i < j < out.len() implies lex_less(
            #[trigger] out[i],
            #[trigger] out[j],
        ) by {
            assert(out[i] == l[i]);
            if j < l.len() {
                assert(out[j] == l[j]);
            } else if i < l.len() - 1 {
                assert(lex_less(l[i], l[l.len() - 1]));
                lemma_lex_transitive(l[i], l.last(), x, 0);
            }
        }
        assert forall|y: Seq<char>| set.insert(x).contains(y) <==> out.contains(y) by {
            if out.contains(y) {
                let k = choose|k: int| 0 <= k < out.len() && out[k] == y;
                if k < l.len() {
                    assert(l[k] == y);
                    assert(l.contains(y));
                }
            }
            if set.contains(y) {
                assert(l.contains(y));
                let k = choose|k: int| 0 <= k < l.len() && l[k] == y;
                assert(out[k] == y);
            }
            if y == x {
                assert(out[l.len() as int] == y);
            }
        }
    } else if l.last() == x {
        assert(l.contains(x)) by {
            assert(l[l.len() - 1] == x);
        }
        assert(set.insert(x) =~= set);
    } else {
        let last = l.last();
        let rest = l.drop_last();
        let rest_set = set.remove(last);
        lemma_lex_asymmetric(last, x);
        assert(lex_less(x, last));
        assert(strictly_sorted(rest)) by {
            assert forall|i: int, j: int| 0 <= i < j < rest.len() implies lex_less(
                #[trigger] rest[i],
                #[trigger] rest[j],
            ) by {
                assert(rest[i] == l[i] && rest[j] == l[j]);
            }
        }
        assert forall|y: Seq<char>| rest_set.contains(y) <==> rest.contains(y) by {
            if rest.contains(y) {
                let k = choose|k: int| 0 <= k < rest.len() && rest[k] == y;
                assert(l[k] == y);
                assert(l.contains(y));
                assert(lex_less(l[k], l[l.len() - 1]));
                lemma_lex_asymmetric(y, last);
            }
            if rest_set.contains(y) {
                assert(l.contains(y));
                let k = choose|k: int| 0 <= k < l.len() && l[k] == y;
                assert(k < l.len() - 1);
                assert(rest[k] == y);
            }
        }
        lemma_with_label(rest, rest_set, x);
        let inner = with_label(rest, x);
        assert forall|i: int, j: int| 0 <= i < j < out.len() implies lex_less(
            #[trigger] out[i],
            #[trigger] out[j],
        ) by {
            assert(out[i] == inner[i]);
            if j < inner.len() {
                assert(out[j] == inner[j]);
            } else {
                assert(inner.contains(inner[i]));
                if inner[i] != x {
                    assert(rest.contains(inner[i]));
                    let k = choose|k: int| 0 <= k < rest.len() && rest[k] == inner[i];
                    assert(lex_less(l[k], l[l.len() - 1]));
                }
            }
        }
        assert forall|y: Seq<char>| set.insert(x).contains(y) <==> out.contains(y) by {
            if out.contains(y) {
                let k = choose|k: int| 0 <= k < out.len() && out[k] == y;
                if k < inner.len() {
                    assert(inner[k] == y);
                    assert(inner.contains(y));
                } else {
                    assert(l.contains(last)) by {
                        assert(l[l.len() - 1] == last);
                    }
                }
            }
            if set.insert(x).contains(y) {
                if y == last {
                    assert(out[inner.len() as int] == y);
                } else {
                    assert(rest_set.insert(x).contains(y));
                    assert(inner.contains(y));
                    let k = choose|k: int| 0 <= k < inner.len() && inner[k] == y;
                    assert(out[k] == y);
                }
            }
        }
    }
}

/// Every finite set of labels has a listing in dictionary order: the
/// sorted labels of a finite set hold each member once, in order, and
/// nothing else.
pub proof fn lemma_finite_set_has_listing(set: Set<Seq<char>>)
    requires
        set.finite(),
    ensures
        is_listing(sorted_labels(set), set),
    decreases set.len(),
{
    if set.len() == 0 {
        let none = Seq::<Seq<char>>::empty();
        assert(set =~= Set::<Seq<char>>::empty());
        assert forall|x: Seq<char>| set.contains(x) <==> none.contains(x) by {}
        assert(is_listing(none, set));
    } else {
        let x = set.choose();
        let rest = set.remove(x);
        lemma_finite_set_has_listing(rest);
        lemma_with_label(sorted_labels(rest), rest, x);
        assert(rest.insert(x) =~= set);
        assert(is_listing(with_label(sorted_labels(rest), x), set));
    }
}

/// A set of labels. Its members are listed in dictionary order.
#[derive(Debug, PartialEq, Eq)]
pub struct LabelSet {
    labels: Vec<Vec<char>>,
}

impl View for LabelSet {
    type V = Set<Seq<char>>;

    closed spec fn view(&self) -> Set<Seq<char>> {
        texts(self.labels@).to_set()
    }
}

impl LabelSet {
    #[verifier::type_invariant]
    spec fn ordered(self) -> bool {
        strictly_sorted(texts(self.labels@))
    }

    /// The members in dictionary order.
    pub closed spec fn listing(&self) -> Seq<Seq<char>> {
        texts(self.labels@)
    }

    /// The empty set.
    pub fn new() -> (s: LabelSet)
        ensures
            s@ == Set::<Seq<char>>::empty(),
            s.listing() == Seq::<Seq<char>>::empty(),
    {
        let s = LabelSet { labels: Vec::new() };
        assert(texts(s.labels@) =~= Seq::<Seq<char>>::empty());
        assert(s@ =~= Set::<Seq<char>>::empty());
        s
    }

    /// The set is finite.
    pub proof fn lemma_finite(&self)
        ensures
            self@.finite(),
            is_listing(sorted_labels(self@), self@),
    {
        seq_to_set_is_finite(texts(self.labels@));
        lemma_finite_set_has_listing(self@);
    }

    /// The number of members: the set is finite, and this is the length of
    /// its listing in dictionary order.
    pub fn len(&self) -> (n: usize)
        ensures
            n == self.listing().len(),
            self.listing() == sorted_labels(self@),
            self@.finite(),
            is_listing(sorted_labels(self@), self@),
            n == self@.len(),
    {
        proof {
            use_type_invariant(self);
            lemma_listing_is_sorted_labels(texts(self.labels@), self@);
            self.lemma_finite();
            lemma_strictly_sorted_has_no_duplicates(texts(self.labels@));
            texts(self.labels@).unique_seq_to_set();
        }
        self.labels.len()
    }

    /// Whether the set has no member.
    pub fn is_empty(&self) -> (b: bool)
        ensures
            b == (self@ == Set::<Seq<char>>::empty()),
    {
        proof {
            if self.labels@.len() > 0 {
                assert(texts(self.labels@)[0] == self.labels@[0]@);
                assert(self@.contains(self.labels@[0]@));
            } else {
                assert(self@ =~= Set::<Seq<char>>::empty());
            }
        }
        self.labels.len() == 0
    }

    /// Index of the first member that does not come before `label`.
    fn rank(&self, label: &[char]) -> (i: usize)
        ensures
            i <= self.listing().len(),
            forall|k: int| 0 <= k < i ==> lex_less(#[trigger] self.listing()[k], label@),
            i < self.listing().len() ==> !lex_less(self.listing()[i as int], label@),
    {
        let mut i: usize = 0;
        while i < self.labels.len() && chars_less(self.labels[i].as_slice(), label)
            invariant
                i <= self.labels.len(),
                forall|k: int| 0 <= k < i ==> lex_less(#[trigger] texts(self.labels@)[k], label@),
            decreases self.labels.len() - i,
        {
            i += 1;
        }
        i
    }

    /// Whether the characters `label` are a member.
    pub fn holds(&self, label: &[char]) -> (b: bool)
        ensures
            b == self@.contains(label@),
    {
        let i = self.rank(label);
        proof {
            use_type_invariant(self);
            let l = texts(self.labels@);
            if i < l.len() && l[i as int] == label@ {
                assert(l.contains(label@));
            } else {
                assert forall|k: int| 0 <= k < l.len() implies l[k] != label@ by {
                    lemma_lex_asymmetric(l[k], label@);
                    if k > i {
                        lemma_lex_asymmetric(l[i as int], label@);
                        assert(lex_less(l[i as int], l[k]));
                        if l[k] == label@ {
                        }
                    }
                }
            }
        }
        i < self.labels.len() && same_chars(self.labels[i].as_slice(), label)
    }

    /// Whether `label` is a member.
    pub fn contains(&self, label: &str) -> (b: bool)
        ensures
            b == self@.contains(label@),
    {
        let chars = chars_of(label);
        self.holds(chars.as_slice())
    }

    /// Adds the characters `label` to the set.
    pub fn add(&mut self, label: Vec<char>)
        ensures
            final(self)@ == old(self)@.insert(label@),
    {
        let i = self.rank(label.as_slice());
        proof {
            use_type_invariant(&*self);
        }
        let ghost before = texts(self.labels@);
        if i < self.labels.len() && same_chars(self.labels[i].as_slice(), label.as_slice()) {
            proof {
                assert(before.contains(label@));
                assert(self@ =~= self@.insert(label@));
            }
            return ;
        }
        let ghost x = label@;
        let mut members: Vec<Vec<char>> = Vec::new();
        std::mem::swap(&mut self.labels, &mut members);
        members.insert(i, label);
        proof {
            let after = texts(members@);
            assert(after =~= before.insert(i as int, x));
            assert forall|a: int, b: int| 0 <= a < b < after.len() implies lex_less(
                #[trigger] after[a],
                #[trigger] after[b],
            ) by {
                if i < before.len() {
                    lemma_lex_asymmetric(before[i as int], x);
                }
                if a == i {
                    let y = before[b - 1];
                    if b - 1 > i {
                        assert(lex_less(before[i as int], before[b - 1]));
                        lemma_lex_transitive(x, before[i as int], y, 0);
                    }
                } else if b == i {
                    assert(after[a] == before[a]);
                } else {
                    let a0 = if a < i { a } else { a - 1 };
                    let b0 = if b < i { b } else { b - 1 };
                    assert(after[a] == before[a0]);
                    assert(after[b] == before[b0]);
                    assert(lex_less(before[a0], before[b0]));
                }
            }
            assert(after.to_set() =~= before.to_set().insert(x)) by {
                assert forall|y: Seq<char>| after.contains(y) <==> (before.contains(y) || y
                    == x) by {
                    if after.contains(y) {
                        let k = choose|k: int| 0 <= k < after.len() && after[k] == y;
                        if k < i {
                            assert(before[k] == y);
                        } else if k > i {
                            assert(before[k - 1] == y);
                        }
                    }
                    if before.contains(y) {
                        let k = choose|k: int| 0 <= k < before.len() && before[k] == y;
                        if k < i {
                            assert(after[k] == y);
                        } else {
                            assert(after[k + 1] == y);
                        }
                    }
                    if y == x {
                        assert(after[i as int] == y);
                    }
                }
            }
        }
        self.labels = members;
    }

    /// Adds `label` to the set.
    pub fn insert(&mut self, label: &str)
        ensures
            final(self)@ == old(self)@.insert(label@),
    {
        self.add(chars_of(label));
    }

    /// Adds every member of `other` to the set.
    pub fn extend(&mut self, other: &LabelSet)
        ensures
            final(self)@ == old(self)@.union(other@),
    {
        let mut i: usize = 0;
        while i < other.labels.len()
            invariant
                i <= other.labels.len(),
                self@ == old(self)@.union(texts(other.labels@).take(i as int).to_set()),
            decreases other.labels.len() - i,
        {
            let label = other.labels[i].clone();
            assert(label@ == other.labels@[i as int]@);
            self.add(label);
            proof {
                let l = texts(other.labels@);
                assert(l.take(i + 1) =~= l.take(i as int).push(l[i as int]));
                l.take(i as int).lemma_push_to_set_commute(l[i as int]);
                assert(self@ =~= old(self)@.union(l.take(i + 1).to_set()));
            }
            i += 1;
        }
        proof {
            let l = texts(other.labels@);
            assert(l.take(l.len() as int) =~= l);
            assert(texts(old(self).labels@).take(0).to_set() =~= Set::<Seq<char>>::empty());
        }
    }

    /// The members of this set that `other` does not hold.
    pub fn difference(&self, other: &LabelSet) -> (d: LabelSet)
        ensures
            d@ == self@.difference(other@),
    {
        let mut d = LabelSet::new();
        let mut i: usize = 0;
        while i < self.labels.len()
            invariant
                i <= self.labels.len(),
                d@ == texts(self.labels@).take(i as int).to_set().difference(other@),
            decreases self.labels.len() - i,
        {
            let ghost l = texts(self.labels@);
            proof {
                assert(l.take(i + 1) =~= l.take(i as int).push(l[i as int]));
                l.take(i as int).lemma_push_to_set_commute(l[i as int]);
            }
            if !other.holds(self.labels[i].as_slice()) {
                let label = self.labels[i].clone();
                assert(label@ == self.labels@[i as int]@);
                d.add(label);
            }
            assert(d@ =~= l.take(i + 1).to_set().difference(other@));
            i += 1;
        }
        proof {
            let l = texts(self.labels@);
            assert(l.take(l.len() as int) =~= l);
        }
        d
    }

    /// Whether both sets have the same members.
    pub fn same(&self, other: &LabelSet) -> (b: bool)
        ensures
            b == (self@ == other@),
    {
        let a = self.difference(other);
        let c = other.difference(self);
        proof {
            if a@ == Set::<Seq<char>>::empty() && c@ == Set::<Seq<char>>::empty() {
                assert forall|y: Seq<char>| self@.contains(y) <==> other@.contains(y) by {
                    if self@.contains(y) && !other@.contains(y) {
                        assert(a@.contains(y));
                    }
                    if other@.contains(y) && !self@.contains(y) {
                        assert(c@.contains(y));
                    }
                }
                assert(self@ =~= other@);
            } else if self@ == other@ {
                assert(a@ =~= Set::<Seq<char>>::empty());
                assert(c@ =~= Set::<Seq<char>>::empty());
            }
        }
        a.is_empty() && c.is_empty()
    }

    /// The members as strings, in dictionary order.
    pub fn to_vec(&self) -> (v: Vec<String>)
        ensures
            views(v@) == sorted_labels(self@),
            self@.finite(),
            is_listing(views(v@), self@),
    {
        let mut v: Vec<String> = Vec::new();
        let mut i: usize = 0;
        while i < self.labels.len()
            invariant
                i <= self.labels.len(),
                views(v@) == texts(self.labels@).take(i as int),
            decreases self.labels.len() - i,
        {
            let ghost before = v@;
            let label = string_of(self.labels[i].as_slice());
            v.push(label);
            assert(views(v@) =~= views(before).push(label@));
            assert(views(v@) =~= texts(self.labels@).take(i + 1));
            i += 1;
        }
        proof {
            use_type_invariant(self);
            let l = texts(self.labels@);
            assert(l.take(l.len() as int) =~= l);
            lemma_listing_is_sorted_labels(l, self@);
            self.lemma_finite();
        }
        v
    }

    /// The set of the labels in `v`.
    pub fn from_vec(v: Vec<String>) -> (s: LabelSet)
        ensures
            s@ == views(v@).to_set(),
    {
        let mut s = LabelSet::new();
        let mut i: usize = 0;
        while i < v.len()
            invariant
                i <= v.len(),
                s@ == views(v@).take(i as int).to_set(),
            decreases v.len() - i,
        {
            s.insert(v[i].as_str());
            proof {
                let l = views(v@);
                assert(l.take(i + 1) =~= l.take(i as int).push(l[i as int]));
                l.take(i as int).lemma_push_to_set_commute(l[i as int]);
            }
            i += 1;
        }
        proof {
            let l = views(v@);
            assert(l.take(l.len() as int) =~= l);
            assert(l.take(0).to_set() =~= Set::<Seq<char>>::empty());
        }
        s
    }
}

/// The map that holds each pair of `pairs`, a later pair replacing an
/// earlier one with the same label.
pub open spec fn map_of(pairs: Seq<(Seq<char>, Seq<char>)>) -> Map<Seq<char>, Seq<char>>
    decreases pairs.len(),
{
    if pairs.len() == 0 {
        Map::empty()
    } else {
        map_of(pairs.drop_last()).insert(pairs.last().0, pairs.last().1)
    }
}

/// The views of the two strings of each pair, in order.
pub open spec fn pair_views(pairs: Seq<(String, String)>) -> Seq<(Seq<char>, Seq<char>)> {
    pairs.map_values(|p: (String, String)| (p.0@, p.1@))
}

/// The declared dependencies of one kind: for each canonical label, the
/// path that replaces it.
#[derive(Debug, PartialEq, Eq)]
pub struct Dependencies {
    entries: Vec<(Vec<char>, Vec<char>)>,
}

impl View for Dependencies {
    type V = Map<Seq<char>, Seq<char>>;

    closed spec fn view(&self) -> Map<Seq<char>, Seq<char>> {
        Map::new(
            |k: Seq<char>| self.keys().contains(k),
            |k: Seq<char>| self.entries@[self.keys().index_of(k)].1@,
        )
    }
}

impl Dependencies {
    #[verifier::type_invariant]
    spec fn distinct(self) -> bool {
        self.keys().no_duplicates()
    }

    spec fn keys(self) -> Seq<Seq<char>> {
        self.entries@.map_values(|e: (Vec<char>, Vec<char>)| e.0@)
    }

    /// The labels that have a path declared are finitely many.
    pub proof fn lemma_finite(&self)
        ensures
            self@.dom().finite(),
            is_listing(sorted_labels(self@.dom()), self@.dom()),
    {
        seq_to_set_is_finite(self.keys());
        assert(self.keys().to_set() =~= self@.dom());
        lemma_finite_set_has_listing(self@.dom());
    }

    /// No dependency.
    pub fn new() -> (d: Dependencies)
        ensures
            d@ == Map::<Seq<char>, Seq<char>>::empty(),
    {
        let d = Dependencies { entries: Vec::new() };
        assert(d@ =~= Map::<Seq<char>, Seq<char>>::empty());
        d
    }

    /// Index of the entry for `label`, or the number of entries.
    fn locate(&self, label: &[char]) -> (i: usize)
        ensures
            i <= self.entries@.len(),
            i < self.entries@.len() ==> self.keys()[i as int] == label@,
            i < self.entries@.len() ==> self.keys().index_of(label@) == i,
            i < self.entries@.len() <==> self.keys().contains(label@),
    {
        let mut i: usize = 0;
        while i < self.entries.len()
            invariant
                i <= self.entries.len(),
                forall|k: int| 0 <= k < i ==> self.keys()[k] != label@,
            decreases self.entries.len() - i,
        {
            if same_chars(self.entries[i].0.as_slice(), label) {
                proof {
                    use_type_invariant(self);
                    assert(self.keys()[i as int] == label@);
                    assert(self.keys().contains(label@));
                }
                return i;
            }
            i += 1;
        }
        i
    }

    /// The path declared for the characters `label`, if any.
    pub fn find(&self, label: &[char]) -> (r: Option<&Vec<char>>)
        ensures
            r is Some <==> self@.contains_key(label@),
            r matches Some(path) ==> path@ == self@[label@],
    {
        let i = self.locate(label);
        if i < self.entries.len() {
            Some(&self.entries[i].1)
        } else {
            None
        }
    }

    /// The path declared for `label`, if any.
    pub fn get(&self, label: &str) -> (r: Option<String>)
        ensures
            r is Some <==> self@.contains_key(label@),
            r matches Some(path) ==> path@ == self@[label@],
    {
        let chars = chars_of(label);
        match self.find(chars.as_slice()) {
            Some(path) => Some(string_of(path.as_slice())),
            None => None,
        }
    }

    /// Declares `path` for `label`, in place of what was declared for it
    /// before.
    pub fn insert(&mut self, label: &str, path: &str)
        ensures
            final(self)@ == old(self)@.insert(label@, path@),
    {
        let key = chars_of(label);
        let value = chars_of(path);
        let i = self.locate(key.as_slice());
        proof {
            use_type_invariant(&*self);
        }
        let ghost before = *self;
        let mut members: Vec<(Vec<char>, Vec<char>)> = Vec::new();
        std::mem::swap(&mut self.entries, &mut members);
        if i < members.len() {
            members.set(i, (key, value));
        } else {
            members.push((key, value));
        }
        let ghost after = Dependencies { entries: members };
        proof {
            if i < before.entries@.len() {
                assert(after.keys() =~= before.keys());
            } else {
                assert(after.keys() =~= before.keys().push(label@));
                assert forall|a: int, b: int|
                    0 <= a < after.keys().len() && 0 <= b < after.keys().len() && a
                        != b implies after.keys()[a] != after.keys()[b] by {
                    if a < i && b < i {
                        assert(before.keys()[a] != before.keys()[b]);
                    } else if a < i {
                        assert(before.keys().contains(before.keys()[a]));
                    } else if b < i {
                        assert(before.keys().contains(before.keys()[b]));
                    }
                }
            }
            assert(after.keys()[i as int] == label@);
            assert forall|k: Seq<char>| #[trigger] after.keys().contains(k) implies 0
                <= after.keys().index_of(k) < after.keys().len() && after.keys()[after.keys().index_of(
                k,
            )] == k by {
                let j = choose|j: int| 0 <= j < after.keys().len() && after.keys()[j] == k;
                assert(after.keys()[j] == k);
            }
            assert forall|k: Seq<char>| #[trigger] before.keys().contains(k) implies 0
                <= before.keys().index_of(k) < before.keys().len() && before.keys()[before.keys().index_of(
                k,
            )] == k by {
                let j = choose|j: int| 0 <= j < before.keys().len() && before.keys()[j] == k;
                assert(before.keys()[j] == k);
            }
            assert(after@ =~= before@.insert(label@, path@)) by {
                assert forall|k: Seq<char>| after@.contains_key(k) <==> (before@.contains_key(k)
                    || k == label@) by {
                    if after.keys().contains(k) {
                        let j = after.keys().index_of(k);
                        if j < before.keys().len() && k != label@ {
                            assert(before.keys()[j] == k);
                        }
                    }
                    if before.keys().contains(k) {
                        let j = before.keys().index_of(k);
                        assert(after.keys()[j] == k || j == i);
                    }
                }
                assert forall|k: Seq<char>| after@.contains_key(k) implies after@[k]
                    == before@.insert(label@, path@)[k] by {
                    let j = after.keys().index_of(k);
                    if k == label@ {
                        assert(j == i);
                    } else {
                        assert(j != i);
                        assert(before.keys()[j] == k);
                        let j0 = before.keys().index_of(k);
                        assert(j0 == j);
                    }
                }
            }
        }
        self.entries = members;
    }

    /// The labels that have a path declared.
    pub fn labels(&self) -> (s: LabelSet)
        ensures
            s@ == self@.dom(),
            self@.dom().finite(),
    {
        let mut s = LabelSet::new();
        let mut i: usize = 0;
        while i < self.entries.len()
            invariant
                i <= self.entries.len(),
                s@ == self.keys().take(i as int).to_set(),
            decreases self.entries.len() - i,
        {
            let label = self.entries[i].0.clone();
            assert(label@ == self.keys()[i as int]);
            s.add(label);
            proof {
                let l = self.keys();
                assert(l.take(i + 1) =~= l.take(i as int).push(l[i as int]));
                l.take(i as int).lemma_push_to_set_commute(l[i as int]);
            }
            i += 1;
        }
        proof {
            let l = self.keys();
            assert(l.take(l.len() as int) =~= l);
            assert(l.take(0).to_set() =~= Set::<Seq<char>>::empty());
            assert(l.to_set() =~= self@.dom());
            s.lemma_finite();
        }
        s
    }

    /// The dependencies that `pairs` declares, each a label and its path.
    pub fn from_pairs(pairs: Vec<(String, String)>) -> (d: Dependencies)
        ensures
            d@ == map_of(pair_views(pairs@)),
    {
        let mut d = Dependencies::new();
        let mut i: usize = 0;
        while i < pairs.len()
            invariant
                i <= pairs.len(),
                d@ == map_of(pair_views(pairs@).take(i as int)),
            decreases pairs.len() - i,
        {
            d.insert(pairs[i].0.as_str(), pairs[i].1.as_str());
            proof {
                let l = pair_views(pairs@);
                assert(l.take(i + 1).drop_last() =~= l.take(i as int));
                assert(l.take(i + 1).last() == l[i as int]);
            }
            i += 1;
        }
        proof {
            let l = pair_views(pairs@);
            assert(l.take(l.len() as int) =~= l);
        }
        d
    }
}

} // verus!
