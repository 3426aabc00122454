//! The tokens on offer: a set of token identifiers, kept and listed in ascending
//! key order.

use crate::order::{
    ascending, key_equal, key_less, key_lt, lemma_key_lt_irreflexive,
    lemma_key_lt_total, lemma_key_lt_transitive,
};
use vstd::prelude::*;

verus! {

/// How many of the first elements of `s` come before `k`: in an ascending `s`, the
/// place where `k` stands or belongs.
pub open spec fn rank(s: Seq<Seq<char>>, k: Seq<char>) -> int
    decreases s.len(),
{
    if s.len() == 0 || !key_lt(s[0], k) {
        0
    } else {
        1 + rank(s.drop_first(), k)
    }
}

/// How many of the first elements of `s` do not come after `k`: in an ascending `s`,
/// the place of the first element after `k`.
pub open spec fn rank_after(s: Seq<Seq<char>>, k: Seq<char>) -> int
    decreases s.len(),
{
    if s.len() == 0 || key_lt(k, s[0]) {
        0
    } else {
        1 + rank_after(s.drop_first(), k)
    }
}

/// The ascending `s` with `k` in it.
pub open spec fn with_key(s: Seq<Seq<char>>, k: Seq<char>) -> Seq<Seq<char>> {
    if s.contains(k) {
        s
    } else {
        s.insert(rank(s, k), k)
    }
}

/// The ascending `s` without `k`.
pub open spec fn without_key(s: Seq<Seq<char>>, k: Seq<char>) -> Seq<Seq<char>> {
    if s.contains(k) {
        s.remove(rank(s, k))
    } else {
        s
    }
}

/// The elements of the ascending `s` that come after `start_after`, or all of them
/// where no start is given; of these the first `limit`.
pub open spec fn listing(s: Seq<Seq<char>>, start_after: Option<Seq<char>>, limit: int) -> Seq<
    Seq<char>,
> {
    let rest = match start_after {
        Some(k) => s.skip(rank_after(s, k)),
        None => s,
    };
    if limit <= 0 {
        Seq::empty()
    } else if rest.len() <= limit {
        rest
    } else {
        rest.take(limit)
    }
}

/// Where the first `i` elements come before `k` and the next one, if any, does not,
/// `i` is the rank of `k`.
pub proof fn lemma_rank(s: Seq<Seq<char>>, k: Seq<char>, i: int)
    requires
        0 <= i <= s.len(),
        forall|j: int| 0 <= j < i ==> key_lt(s[j], k),
        i < s.len() ==> !key_lt(s[i], k),
    ensures
        rank(s, k) == i,
    decreases i,
{
    if i > 0 {
        lemma_rank(s.drop_first(), k, i - 1);
    }
}

/// Where the first `i` elements do not come after `k` and the next one, if any,
/// does, `i` is the rank after `k`.
pub proof fn lemma_rank_after(s: Seq<Seq<char>>, k: Seq<char>, i: int)
    requires
        0 <= i <= s.len(),
        forall|j: int| 0 <= j < i ==> !key_lt(k, s[j]),
        i < s.len() ==> key_lt(k, s[i]),
    ensures
        rank_after(s, k) == i,
    decreases i,
{
    if i > 0 {
        lemma_rank_after(s.drop_first(), k, i - 1);
    }
}

/// In an ascending sequence an element stands at its rank.
pub proof fn lemma_rank_of_member(s: Seq<Seq<char>>, i: int)
    requires
        ascending(s),
        0 <= i < s.len(),
    ensures
        rank(s, s[i]) == i,
{
    lemma_key_lt_irreflexive(s[i]);
    lemma_rank(s, s[i], i);
}

/// The rank lies within the sequence, everything before it comes before the key and
/// nothing from it on does.
pub proof fn lemma_rank_splits(s: Seq<Seq<char>>, k: Seq<char>)
    requires
        ascending(s),
    ensures
        0 <= rank(s, k) <= s.len(),
        forall|j: int| 0 <= j < rank(s, k) ==> key_lt(s[j], k),
        forall|j: int| rank(s, k) <= j < s.len() ==> !key_lt(s[j], k),
    decreases s.len(),
{
    if s.len() == 0 {
    } else if !key_lt(s[0], k) {
        assert forall|j: int| 0 <= j < s.len() implies !key_lt(s[j], k) by {
            if j > 0 && key_lt(s[j], k) {
                lemma_key_lt_transitive(s[0], s[j], k);
            }
        }
    } else {
        let t = s.drop_first();
        lemma_rank_splits(t, k);
        assert forall|j: int| 0 <= j < rank(s, k) implies key_lt(s[j], k) by {
            if j > 0 {
                assert(s[j] == t[j - 1]);
            }
        }
        assert forall|j: int| rank(s, k) <= j < s.len() implies !key_lt(s[j], k) by {
            assert(s[j] == t[j - 1]);
        }
    }
}

/// Putting a key into an ascending sequence leaves it ascending, with the key in it
/// and everything else as it was.
pub proof fn lemma_with_key(s: Seq<Seq<char>>, k: Seq<char>)
    requires
        ascending(s),
    ensures
        ascending(with_key(s, k)),
        forall|x: Seq<char>| with_key(s, k).contains(x) <==> (x == k || s.contains(x)),
        with_key(s, k).len() == if s.contains(k) { s.len() } else { s.len() + 1 },
{
    let t = with_key(s, k);
    if s.contains(k) {
    } else {
        lemma_rank_splits(s, k);
        let r = rank(s, k);
        assert forall|j: int| r <= j < s.len() implies key_lt(k, s[j]) by {
            lemma_key_lt_total(k, s[j]);
        }
        assert forall|i: int, j: int| 0 <= i < j < t.len() implies key_lt(t[i], t[j]) by {
            if i < r && j > r {
                assert(key_lt(s[i], s[j - 1]));
            }
        }
        assert(t[r] == k);
        assert forall|x: Seq<char>| t.contains(x) <==> (x == k || s.contains(x)) by {
            if t.contains(x) {
                let i = choose|i: int| 0 <= i < t.len() && t[i] == x;
                if i < r {
                    assert(s[i] == x);
                } else if i > r {
                    assert(s[i - 1] == x);
                }
            }
            if s.contains(x) {
                let i = choose|i: int| 0 <= i < s.len() && s[i] == x;
                if i < r {
                    assert(t[i] == x);
                } else {
                    assert(t[i + 1] == x);
                }
            }
        }
    }
}

/// Taking a key out of an ascending sequence leaves it ascending, without the key and
/// with everything else as it was.
pub proof fn lemma_without_key(s: Seq<Seq<char>>, k: Seq<char>)
    requires
        ascending(s),
    ensures
        ascending(without_key(s, k)),
        forall|x: Seq<char>| without_key(s, k).contains(x) <==> (x != k && s.contains(x)),
        s.contains(k) ==> without_key(s, k).len() == s.len() - 1,
{
    let t = without_key(s, k);
    if s.contains(k) {
        let i = choose|i: int| 0 <= i < s.len() && s[i] == k;
        lemma_rank_of_member(s, i);
        assert forall|x: Seq<char>| t.contains(x) <==> (x != k && s.contains(x)) by {
            if t.contains(x) {
                let j = choose|j: int| 0 <= j < t.len() && t[j] == x;
                if j < i {
                    assert(s[j] == x);
                    assert(key_lt(s[j], s[i]));
                    lemma_key_lt_irreflexive(k);
                } else {
                    assert(s[j + 1] == x);
                    assert(key_lt(s[i], s[j + 1]));
                    lemma_key_lt_irreflexive(k);
                }
            }
            if x != k && s.contains(x) {
                let j = choose|j: int| 0 <= j < s.len() && s[j] == x;
                if j < i {
                    assert(t[j] == x);
                } else {
                    assert(t[j - 1] == x);
                }
            }
        }
        assert forall|a: int, b: int| 0 <= a < b < t.len() implies key_lt(t[a], t[b]) by {
            let a2 = if a < i { a } else { a + 1 };
            let b2 = if b < i { b } else { b + 1 };
            assert(key_lt(s[a2], s[b2]));
        }
    }
}

/// The set of tokens on offer.
#[derive(Debug, Clone, PartialEq, Eq)]
pub struct TokenSet {
    ids: Vec<String>,
}

impl View for TokenSet {
    type V = Seq<Seq<char>>;

    /// The identifiers, in ascending order.
    closed spec fn view(&self) -> Seq<Seq<char>> {
        self.ids.deep_view()
    }
}

impl TokenSet {
    /// The identifiers are in strictly ascending order, so none occurs twice.
    pub open spec fn wf(&self) -> bool {
        ascending(self@)
    }

    /// The empty set.
    pub fn new() -> (r: Self)
        ensures
            r@ == Seq::<Seq<char>>::empty(),
            r.wf(),
    {
        let r = TokenSet { ids: Vec::new() };
        assert(r@ =~= Seq::<Seq<char>>::empty());
        r
    }

    /// A copy of the set.
    pub fn copy(&self) -> (r: Self)
        ensures
            r@ == self@,
    {
        let mut ids: Vec<String> = Vec::new();
        let mut i: usize = 0;
        while i < self.ids.len()
            invariant
                i <= self.ids.len(),
                ids.len() == i,
                forall|j: int| 0 <= j < i ==> ids[j]@ == self.ids[j]@,
            decreases self.ids.len() - i,
        {
            ids.push(self.ids[i].clone());
            i += 1;
        }
        let r = TokenSet { ids };
        assert(r@ =~= self@);
        r
    }

    /// How many tokens are on offer.
    pub fn len(&self) -> (r: usize)
        ensures
            r == self@.len(),
    {
        self.ids.len()
    }

    /// Whether nothing is on offer.
    pub fn is_empty(&self) -> (r: bool)
        ensures
            r == (self@.len() == 0),
    {
        self.ids.len() == 0
    }

    /// Whether the token `id` is on offer.
    pub fn has(&self, id: &str) -> (r: bool)
        ensures
            r == self@.contains(id@),
    {
        let mut i: usize = 0;
        while i < self.ids.len()
            invariant
                i <= self.ids.len(),
                forall|j: int| 0 <= j < i ==> self@[j] != id@,
            decreases self.ids.len() - i,
        {
            if key_equal(self.ids[i].as_str(), id) {
                assert(self@[i as int] == id@);
                return true;
            }
            i += 1;
        }
        false
    }

    /// Puts the token `id` on offer. Nothing changes where it is already.
    pub fn save(&mut self, id: String)
        requires
            old(self).wf(),
        ensures
            final(self).wf(),
            final(self)@ == with_key(old(self)@, id@),
    {
        let mut i: usize = 0;
        while i < self.ids.len() && key_less(self.ids[i].as_str(), id.as_str())
            invariant
                i <= self.ids.len(),
                *self == *old(self),
                forall|j: int| 0 <= j < i ==> key_lt(self@[j], id@),
            decreases self.ids.len() - i,
        {
            i += 1;
        }
        proof {
            lemma_rank(self@, id@, i as int);
            lemma_with_key(self@, id@);
        }
        if i < self.ids.len() && self.ids[i] == id {
            assert(self@[i as int] == id@);
            return ;
        }
        proof {
            assert(!self@.contains(id@)) by {
                assert forall|j: int| 0 <= j < self@.len() implies self@[j] != id@ by {
                    lemma_key_lt_irreflexive(id@);
                    if j >= i {
                        lemma_key_lt_total(id@, self@[i as int]);
                        if j > i {
                            lemma_key_lt_transitive(id@, self@[i as int], self@[j]);
                        }
                    }
                }
            }
        }
        let ghost before = self@;
        let ghost k = id@;
        self.ids.insert(i, id);
        assert(self@ =~= before.insert(i as int, k));
    }

    /// Takes the token `id` off the offer, and says whether it was on it.
    pub fn remove(&mut self, id: &str) -> (r: bool)
        requires
            old(self).wf(),
        ensures
            final(self).wf(),
            r == old(self)@.contains(id@),
            final(self)@ == without_key(old(self)@, id@),
    {
        proof {
            lemma_without_key(self@, id@);
        }
        let mut i: usize = 0;
        while i < self.ids.len()
            invariant
                i <= self.ids.len(),
                *self == *old(self),
                self.wf(),
                forall|j: int| 0 <= j < i ==> self@[j] != id@,
            decreases self.ids.len() - i,
        {
            if key_equal(self.ids[i].as_str(), id) {
                let ghost before = self@;
                proof {
                    assert(before[i as int] == id@);
                    lemma_rank_of_member(before, i as int);
                }
                self.ids.remove(i);
                assert(self@ =~= before.remove(i as int));
                return true;
            }
            i += 1;
        }
        false
    }

    /// The tokens on offer after `start_after`, or from the first one where no start
    /// is given; at most `limit` of them, in ascending order.
    pub fn keys(&self, start_after: Option<&str>, limit: usize) -> (r: Vec<String>)
        requires
            self.wf(),
        ensures
            r.deep_view() == listing(self@, start_after.deep_view(), limit as int),
    {
        let mut i: usize = 0;
        match start_after {
            Some(k) => {
                while i < self.ids.len() && !key_less(k, self.ids[i].as_str())
                    invariant
                        i <= self.ids.len(),
                        forall|j: int| 0 <= j < i ==> !key_lt(k@, self@[j]),
                    decreases self.ids.len() - i,
                {
                    i += 1;
                }
                proof {
                    lemma_rank_after(self@, k@, i as int);
                }
            },
            None => {},
        }
        let ghost rest = self@.skip(i as int);
        let ghost from = i;
        let mut r: Vec<String> = Vec::new();
        while i < self.ids.len() && r.len() < limit
            invariant
                from <= i <= self.ids.len(),
                r.len() == i - from,
                self@.len() == self.ids.len(),
                r.len() <= limit,
                rest == self@.skip(from as int),
                forall|j: int| 0 <= j < r.len() ==> r[j]@ == rest[j],
            decreases self.ids.len() - i,
        {
            r.push(self.ids[i].clone());
            i += 1;
        }
        proof {
            let want = listing(self@, start_after.deep_view(), limit as int);
            assert(start_after.deep_view() == match start_after {
                Some(k) => Some(k@),
                None => None,
            });
            assert(rest == match start_after.deep_view() {
                Some(k) => self@.skip(rank_after(self@, k)),
                None => self@,
            });
            assert(r.deep_view().len() == r.len());
            assert(r.len() <= rest.len());
            assert(r.len() == limit || r.len() == rest.len());
            assert(r.deep_view() =~= want);
        }
        r
    }
}

} // verus!
