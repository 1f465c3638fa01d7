//! A set of texts that remembers the order in which its members arrived.

use vstd::prelude::*;
use crate::text::same_text;

verus! {

/// The first occurrences of `s`, in order: `s` with every repeat left out.
pub open spec fn distinct(s: Seq<Seq<char>>) -> Seq<Seq<char>>
    decreases s.len(),
{
    if s.len() == 0 {
        Seq::empty()
    } else {
        with_member(distinct(s.drop_last()), s.last())
    }
}

/// `s` with `text` added at the end unless it is a member already.
pub open spec fn with_member(s: Seq<Seq<char>>, text: Seq<char>) -> Seq<Seq<char>> {
    if s.contains(text) {
        s
    } else {
        s.push(text)
    }
}

/// Adding a member keeps a list free of repeats, and adds just that member.
pub proof fn lemma_with_member(s: Seq<Seq<char>>, text: Seq<char>)
    requires
        s.no_duplicates(),
    ensures
        with_member(s, text).no_duplicates(),
        with_member(s, text).to_set() == s.to_set().insert(text),
{
    let r = with_member(s, text);
    assert forall|x: Seq<char>| r.to_set().contains(x) <==> s.to_set().insert(text).contains(
        x,
    ) by {
        if s.contains(text) {
        } else {
            if r.contains(x) {
                let i = choose|i: int| 0 <= i < r.len() && r[i] == x;
                if i < s.len() {
                    assert(s[i] == x);
                }
            }
            if s.contains(x) {
                let i = choose|i: int| 0 <= i < s.len() && s[i] == x;
                assert(r[i] == x);
            }
            if x == text {
                assert(r[s.len() as int] == x);
            }
        }
    }
    assert(r.to_set() =~= s.to_set().insert(text));
}

/// [`distinct`] has no repeats and the same members as its argument.
pub proof fn lemma_distinct(s: Seq<Seq<char>>)
    ensures
        distinct(s).no_duplicates(),
        distinct(s).to_set() == s.to_set(),
    decreases s.len(),
{
    if s.len() == 0 {
        assert(distinct(s).to_set() =~= s.to_set());
    } else {
        lemma_distinct(s.drop_last());
        lemma_with_member(distinct(s.drop_last()), s.last());
        assert forall|x: Seq<char>| s.to_set().contains(x) <==> s.drop_last().to_set().insert(
            s.last(),
        ).contains(x) by {
            if s.contains(x) {
                let i = choose|i: int| 0 <= i < s.len() && s[i] == x;
                if i < s.len() - 1 {
                    assert(s.drop_last()[i] == x);
                }
            }
            if s.drop_last().contains(x) {
                let i = choose|i: int| 0 <= i < s.drop_last().len() && s.drop_last()[i] == x;
                assert(s[i] == x);
            }
            if x == s.last() {
                assert(s[s.len() - 1] == x);
            }
        }
        assert(s.to_set() =~= s.drop_last().to_set().insert(s.last()));
    }
}

/// A set of texts, kept in the order of arrival.
pub struct TextSet {
    items: Vec<String>,
}

impl View for TextSet {
    type V = Seq<Seq<char>>;

    /// The members, in the order of arrival.
    closed spec fn view(&self) -> Seq<Seq<char>> {
        self.items.deep_view()
    }
}

impl TextSet {
    #[verifier::type_invariant]
    spec fn no_repeats(self) -> bool {
        self.items.deep_view().no_duplicates()
    }

    /// The empty set.
    pub fn new() -> (s: TextSet)
        ensures
            s@ == Seq::<Seq<char>>::empty(),
    {
        let s = TextSet { items: Vec::new() };
        assert(s.items.deep_view() =~= Seq::<Seq<char>>::empty());
        s
    }

    /// The number of members. No member is counted twice.
    pub fn len(&self) -> (n: usize)
        ensures
            n == self@.len(),
            self@.no_duplicates(),
    {
        proof {
            use_type_invariant(self);
        }
        self.items.len()
    }

    /// Whether `text` is a member.
    pub fn contains(&self, text: &str) -> (r: bool)
        ensures
            r == self@.contains(text@),
    {
        let mut i: usize = 0;
        while i < self.items.len()
            invariant
                i <= self.items.len(),
                forall|j: int| 0 <= j < i ==> self.items[j]@ != text@,
            decreases self.items.len() - i,
        {
            if same_text(self.items[i].as_str(), text) {
                assert(self@[i as int] == text@);
                return true;
            }
            i += 1;
        }
        false
    }

    /// Adds `text` unless it is a member already, and says whether it was added.
    pub fn insert(&mut self, text: String) -> (added: bool)
        ensures
            added == !old(self)@.contains(text@),
            final(self)@ == with_member(old(self)@, text@),
            final(self)@.no_duplicates(),
    {
        proof {
            use_type_invariant(&*self);
            lemma_with_member(self@, text@);
        }
        if self.contains(text.as_str()) {
            false
        } else {
            let ghost before = self.items.deep_view();
            let mut items: Vec<String> = Vec::new();
            assert(items.deep_view() =~= Seq::<Seq<char>>::empty());
            core::mem::swap(&mut self.items, &mut items);
            items.push(text);
            assert(items.deep_view() =~= before.push(text@));
            self.items = items;
            true
        }
    }

    /// The member that arrived as number `i`, counting from 0.
    pub fn get(&self, i: usize) -> (r: &String)
        requires
            i < self@.len(),
        ensures
            r@ == self@[i as int],
    {
        &self.items[i]
    }

    /// The set of the texts of `list`.
    pub fn from_list(list: &Vec<String>) -> (s: TextSet)
        ensures
            s@ == distinct(list.deep_view()),
    {
        let mut s = TextSet::new();
        let mut i: usize = 0;
        assert(list.deep_view().take(0) =~= Seq::<Seq<char>>::empty());
        while i < list.len()
            invariant
                i <= list.len(),
                s@ == distinct(list.deep_view().take(i as int)),
            decreases list.len() - i,
        {
            proof {
                let next = list.deep_view().take(i + 1);
                assert(next.drop_last() =~= list.deep_view().take(i as int));
                assert(next.last() == list[i as int]@);
            }
            s.insert(list[i].clone());
            i += 1;
        }
        assert(list.deep_view().take(i as int) =~= list.deep_view());
        s
    }

    /// The members as a list, in the order of arrival.
    pub fn into_list(self) -> (list: Vec<String>)
        ensures
            list.deep_view() == self@,
            list.deep_view().no_duplicates(),
    {
        proof {
            use_type_invariant(&self);
        }
        self.items
    }
}

} // verus!
