//! The order of texts by their code points, and sets of texts kept in it.
use vstd::prelude::*;

use crate::text::{chars_of, clone_texts, same_text, texts};

verus! {

/// Whether `a` comes before `b`: at the first place where they differ by the
/// smaller code point, else by being a proper prefix.
pub open spec fn text_less(a: Seq<char>, b: Seq<char>) -> bool
    decreases a.len(),
{
    if b.len() == 0 {
        false
    } else if a.len() == 0 {
        true
    } else if a[0] != b[0] {
        a[0] < b[0]
    } else {
        text_less(a.drop_first(), b.drop_first())
    }
}

pub proof fn lemma_text_less_irreflexive(a: Seq<char>)
    ensures
        !text_less(a, a),
    decreases a.len(),
{
    if a.len() > 0 {
        lemma_text_less_irreflexive(a.drop_first());
    }
}

pub proof fn lemma_text_less_transitive(a: Seq<char>, b: Seq<char>, c: Seq<char>)
    requires
        text_less(a, b),
        text_less(b, c),
    ensures
        text_less(a, c),
    decreases a.len(),
{
    if a.len() > 0 && a[0] == b[0] && b[0] == c[0] {
        lemma_text_less_transitive(a.drop_first(), b.drop_first(), c.drop_first());
    }
}

pub proof fn lemma_text_less_total(a: Seq<char>, b: Seq<char>)
    ensures
        text_less(a, b) || text_less(b, a) || a == b,
    decreases a.len(),
{
    if a.len() > 0 && b.len() > 0 && a[0] == b[0] {
        lemma_text_less_total(a.drop_first(), b.drop_first());
        if a.drop_first() == b.drop_first() {
            assert(a =~= seq![a[0]] + a.drop_first());
            assert(b =~= seq![b[0]] + b.drop_first());
        }
    } else if a.len() == 0 && b.len() == 0 {
        assert(a =~= b);
    }
}

pub fn comes_before(a: &str, b: &str) -> (r: bool)
    ensures
        r == text_less(a@, b@),
{
    let left = chars_of(a);
    let right = chars_of(b);
    let mut i: usize = 0;
    proof {
        assert(a@.skip(0) =~= a@);
        assert(b@.skip(0) =~= b@);
    }
    while i < left.len() && i < right.len()
        invariant
            left@ == a@,
            right@ == b@,
            i <= left@.len(),
            i <= right@.len(),
            text_less(a@, b@) == text_less(a@.skip(i as int), b@.skip(i as int)),
        decreases left@.len() - i,
    {
        if left[i] != right[i] {
            return left[i] < right[i];
        }
        proof {
            assert(a@.skip(i as int).drop_first() =~= a@.skip(i + 1));
            assert(b@.skip(i as int).drop_first() =~= b@.skip(i + 1));
        }
        i = i + 1;
    }
    i < right.len()
}

/// Where fronts of the same length differ, they decide.
pub proof fn lemma_text_less_by_front(a: Seq<char>, b: Seq<char>, x: Seq<char>, y: Seq<char>)
    requires
        a.len() == b.len(),
        text_less(a, b),
    ensures
        text_less(a + x, b + y),
    decreases a.len(),
{
    assert((a + x)[0] == a[0]);
    assert((b + y)[0] == b[0]);
    if a[0] == b[0] {
        assert((a + x).drop_first() =~= a.drop_first() + x);
        assert((b + y).drop_first() =~= b.drop_first() + y);
        lemma_text_less_by_front(a.drop_first(), b.drop_first(), x, y);
    }
}

/// Behind the same front the rest decides.
pub proof fn lemma_text_less_by_rest(a: Seq<char>, x: Seq<char>, y: Seq<char>)
    requires
        text_less(x, y),
    ensures
        text_less(a + x, a + y),
    decreases a.len(),
{
    if a.len() == 0 {
        assert(a + x =~= x);
        assert(a + y =~= y);
    } else {
        assert((a + x)[0] == a[0]);
        assert((a + y)[0] == a[0]);
        assert((a + x).drop_first() =~= a.drop_first() + x);
        assert((a + y).drop_first() =~= a.drop_first() + y);
        lemma_text_less_by_rest(a.drop_first(), x, y);
    }
}

/// Whether each text of a list comes before the next.
pub open spec fn strictly_ascending(list: Seq<Seq<char>>) -> bool {
    forall|i: int, j: int| 0 <= i < j < list.len() ==> text_less(list[i], list[j])
}

/// The texts of a finite set in ascending order.
pub open spec fn ascending(set: Set<Seq<char>>) -> Seq<Seq<char>> {
    choose|list: Seq<Seq<char>>| strictly_ascending(list) && list.to_set() == set
}

/// Two strictly ascending lists of the same texts are the same list.
pub proof fn lemma_ascending_unique(a: Seq<Seq<char>>, b: Seq<Seq<char>>)
    requires
        strictly_ascending(a),
        strictly_ascending(b),
        a.to_set() == b.to_set(),
    ensures
        a == b,
    decreases a.len(),
{
    if a.len() == 0 {
        if b.len() > 0 {
            assert(b.to_set().contains(b[0]));
            assert(a.to_set().contains(b[0]));
        }
        assert(a =~= b);
    } else {
        assert(a.to_set().contains(a.last()));
        assert(b.to_set().contains(a.last()));
        assert(b.len() > 0);
        assert(b.to_set().contains(b.last()));
        assert(a.to_set().contains(b.last()));
        let i = choose|i: int| 0 <= i < b.len() && b[i] == a.last();
        let j = choose|j: int| 0 <= j < a.len() && a[j] == b.last();
        if a.last() != b.last() {
            assert(text_less(a.last(), b.last()));
            assert(text_less(b.last(), a.last()));
            lemma_text_less_transitive(a.last(), b.last(), a.last());
            lemma_text_less_irreflexive(a.last());
        }
        let last = a.last();
        let a2 = a.drop_last();
        let b2 = b.drop_last();
        assert forall|x: Seq<char>| a2.to_set().contains(x) <==> b2.to_set().contains(x) by {
            if a2.contains(x) {
                let k = choose|k: int| 0 <= k < a2.len() && a2[k] == x;
                assert(text_less(a[k], a.last()));
                lemma_text_less_irreflexive(x);
                assert(a.contains(a[k]));
                assert(b.to_set().contains(x));
                let m = choose|m: int| 0 <= m < b.len() && b[m] == x;
                assert(b2[m] == x);
            }
            if b2.contains(x) {
                let k = choose|k: int| 0 <= k < b2.len() && b2[k] == x;
                assert(text_less(b[k], b.last()));
                lemma_text_less_irreflexive(x);
                assert(b.contains(b[k]));
                assert(a.to_set().contains(x));
                let m = choose|m: int| 0 <= m < a.len() && a[m] == x;
                assert(a2[m] == x);
            }
        }
        assert(a2.to_set() =~= b2.to_set());
        lemma_ascending_unique(a2, b2);
        assert(a =~= a2.push(last));
        assert(b =~= b2.push(last));
    }
}

/// A strictly ascending list is the ascending order of the set of its texts.
pub proof fn lemma_ascending_of(list: Seq<Seq<char>>)
    requires
        strictly_ascending(list),
    ensures
        ascending(list.to_set()) == list,
{
    let chosen = ascending(list.to_set());
    assert(strictly_ascending(list) && list.to_set() == list.to_set());
    lemma_ascending_unique(chosen, list);
}

pub proof fn lemma_ascending_no_duplicates(list: Seq<Seq<char>>)
    requires
        strictly_ascending(list),
    ensures
        list.no_duplicates(),
{
    assert forall|i: int, j: int| 0 <= i < list.len() && 0 <= j < list.len() && i != j implies list[i]
        != list[j] by {
        lemma_text_less_irreflexive(list[i]);
        lemma_text_less_irreflexive(list[j]);
        if i < j {
            assert(text_less(list[i], list[j]));
        } else {
            assert(text_less(list[j], list[i]));
        }
    }
}

/// Every finite set of texts can be listed in ascending order.
pub proof fn lemma_ascending(set: Set<Seq<char>>)
    requires
        set.finite(),
    ensures
        strictly_ascending(ascending(set)),
        ascending(set).to_set() == set,
    decreases set.len(),
{
    if set.len() == 0 {
        let none = Seq::<Seq<char>>::empty();
        assert(none.to_set() =~= set);
        assert(strictly_ascending(none) && none.to_set() == set);
    } else {
        let text = set.choose();
        let rest = set.remove(text);
        lemma_ascending(rest);
        let list = ascending(rest);
        let at = place_of(list, text);
        lemma_place_of(list, text);
        assert(at < list.len() ==> list[at] != text) by {
            if at < list.len() {
                assert(list.to_set().contains(list[at]));
            }
        }
        lemma_insert_ascending(list, at, text);
        let longer = list.insert(at, text);
        assert(rest.insert(text) =~= set);
        assert(strictly_ascending(longer) && longer.to_set() == set);
    }
}

/// How many texts at the front of a list come before `text`.
spec fn place_of(list: Seq<Seq<char>>, text: Seq<char>) -> int
    decreases list.len(),
{
    if list.len() == 0 || !text_less(list[0], text) {
        0
    } else {
        1 + place_of(list.drop_first(), text)
    }
}

proof fn lemma_place_of(list: Seq<Seq<char>>, text: Seq<char>)
    ensures
        0 <= place_of(list, text) <= list.len(),
        forall|j: int| 0 <= j < place_of(list, text) ==> text_less(list[j], text),
        place_of(list, text) < list.len() ==> !text_less(list[place_of(list, text)], text),
    decreases list.len(),
{
    if list.len() > 0 && text_less(list[0], text) {
        let rest = list.drop_first();
        lemma_place_of(rest, text);
        assert forall|j: int| 0 <= j < place_of(list, text) implies text_less(list[j], text) by {
            if j > 0 {
                assert(rest[j - 1] == list[j]);
            }
        }
    }
}

/// A set of texts, kept in ascending order.
pub struct TextSet {
    items: Vec<String>,
}

impl View for TextSet {
    type V = Set<Seq<char>>;

    closed spec fn view(&self) -> Set<Seq<char>> {
        texts(self.items@).to_set()
    }
}

impl TextSet {
    #[verifier::type_invariant]
    closed spec fn ordered(&self) -> bool {
        strictly_ascending(texts(self.items@))
    }

    pub fn new() -> (r: TextSet)
        ensures
            r@ == Set::<Seq<char>>::empty(),
    {
        let r = TextSet { items: Vec::new() };
        proof {
            assert(r@ =~= Set::<Seq<char>>::empty());
        }
        r
    }

    /// The texts in ascending order.
    pub fn items(&self) -> (r: &Vec<String>)
        ensures
            texts(r@) == ascending(self@),
            strictly_ascending(texts(r@)),
            texts(r@).to_set() == self@,
    {
        proof {
            use_type_invariant(self);
            lemma_ascending_of(texts(self.items@));
        }
        &self.items
    }

    pub fn len(&self) -> (r: usize)
        ensures
            r == self@.len(),
            self@.finite(),
    {
        proof {
            use_type_invariant(self);
            lemma_ascending_no_duplicates(texts(self.items@));
            texts(self.items@).unique_seq_to_set();
        }
        self.items.len()
    }

    pub fn is_empty(&self) -> (r: bool)
        ensures
            r == (self@ == Set::<Seq<char>>::empty()),
    {
        proof {
            if self.items@.len() > 0 {
                assert(texts(self.items@)[0] == self.items@[0]@);
                assert(self@.contains(self.items@[0]@));
            } else {
                assert(self@ =~= Set::<Seq<char>>::empty());
            }
        }
        self.items.is_empty()
    }

    pub fn contains(&self, wanted: &str) -> (r: bool)
        ensures
            r == self@.contains(wanted@),
    {
        let mut i: usize = 0;
        while i < self.items.len()
            invariant
                i <= self.items@.len(),
                forall|j: int| 0 <= j < i ==> texts(self.items@)[j] != wanted@,
            decreases self.items@.len() - i,
        {
            if same_text(self.items[i].as_str(), wanted) {
                proof {
                    assert(texts(self.items@)[i as int] == wanted@);
                }
                return true;
            }
            i = i + 1;
        }
        false
    }

    /// The set with one more text.
    pub fn with(self, value: String) -> (r: TextSet)
        ensures
            r@ == self@.insert(value@),
    {
        proof {
            use_type_invariant(&self);
        }
        let ghost before = texts(self.items@);
        let mut at: usize = 0;
        while at < self.items.len() && comes_before(self.items[at].as_str(), value.as_str())
            invariant
                at <= self.items@.len(),
                before == texts(self.items@),
                forall|j: int| 0 <= j < at ==> text_less(before[j], value@),
            decreases self.items@.len() - at,
        {
            at = at + 1;
        }
        if at < self.items.len() && same_text(self.items[at].as_str(), value.as_str()) {
            proof {
                assert(before[at as int] == value@);
                assert(self@.insert(value@) =~= self@);
            }
            return self;
        }
        let mut items = self.items;
        let ghost text = value@;
        items.insert(at, value);
        proof {
            assert(texts(items@) =~= before.insert(at as int, text));
            lemma_insert_ascending(before, at as int, text);
        }
        TextSet { items }
    }

    pub fn from_texts(list: &Vec<String>) -> (r: TextSet)
        ensures
            r@ == texts(list@).to_set(),
    {
        let mut out = TextSet::new();
        let mut i: usize = 0;
        proof {
            assert(texts(list@).take(0).to_set() =~= Set::<Seq<char>>::empty());
        }
        while i < list.len()
            invariant
                i <= list@.len(),
                out@ == texts(list@).take(i as int).to_set(),
            decreases list@.len() - i,
        {
            proof {
                let all = texts(list@);
                assert(all.take(i + 1) =~= all.take(i as int).push(all[i as int]));
                all.take(i as int).lemma_push_to_set_commute(all[i as int]);
            }
            out = out.with(list[i].clone());
            i = i + 1;
        }
        proof {
            assert(texts(list@).take(list@.len() as int) =~= texts(list@));
        }
        out
    }

    pub fn copy(&self) -> (r: TextSet)
        ensures
            r@ == self@,
    {
        proof {
            use_type_invariant(self);
        }
        TextSet { items: clone_texts(&self.items) }
    }

    /// Whether every text of this set is in the other.
    pub fn is_subset(&self, other: &TextSet) -> (r: bool)
        ensures
            r == self@.subset_of(other@),
    {
        let mut i: usize = 0;
        while i < self.items.len()
            invariant
                i <= self.items@.len(),
                forall|j: int| 0 <= j < i ==> other@.contains(#[trigger] texts(self.items@)[j]),
            decreases self.items@.len() - i,
        {
            if !other.contains(self.items[i].as_str()) {
                proof {
                    assert(texts(self.items@)[i as int] == self.items@[i as int]@);
                    assert(self@.contains(self.items@[i as int]@));
                }
                return false;
            }
            i = i + 1;
        }
        true
    }
}

proof fn lemma_insert_ascending(list: Seq<Seq<char>>, at: int, text: Seq<char>)
    requires
        strictly_ascending(list),
        0 <= at <= list.len(),
        forall|j: int| 0 <= j < at ==> text_less(list[j], text),
        at < list.len() ==> !text_less(list[at], text) && list[at] != text,
    ensures
        strictly_ascending(list.insert(at, text)),
        list.insert(at, text).to_set() == list.to_set().insert(text),
{
    let longer = list.insert(at, text);
    assert forall|i: int, j: int| 0 <= i < j < longer.len() implies text_less(
        longer[i],
        longer[j],
    ) by {
        if at < list.len() {
            lemma_text_less_total(list[at], text);
        }
        if i == at {
            assert(longer[j] == list[j - 1]);
            if j - 1 > at {
                assert(text_less(list[at], list[j - 1]));
                lemma_text_less_transitive(text, list[at], list[j - 1]);
            }
        } else if j == at {
            assert(longer[i] == list[i]);
        } else {
            let a = if i < at { i } else { i - 1 };
            let b = if j < at { j } else { j - 1 };
            assert(longer[i] == list[a]);
            assert(longer[j] == list[b]);
        }
    }
    assert forall|x: Seq<char>| longer.to_set().contains(x) <==> list.to_set().insert(
        text,
    ).contains(x) by {
        if list.contains(x) {
            let k = choose|k: int| 0 <= k < list.len() && list[k] == x;
            if k < at {
                assert(longer[k] == x);
            } else {
                assert(longer[k + 1] == x);
            }
        }
        if longer.contains(x) {
            let k = choose|k: int| 0 <= k < longer.len() && longer[k] == x;
            if k < at {
                assert(list[k] == x);
            } else if k > at {
                assert(list[k - 1] == x);
            }
        }
        assert(longer[at] == text);
    }
    assert(longer.to_set() =~= list.to_set().insert(text));
}

} // verus!
