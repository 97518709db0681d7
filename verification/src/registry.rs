use crate::coin::view_seq;
use crate::text::{
    ascending, lemma_text_lt_asymmetric, lemma_text_lt_total, lemma_text_lt_transitive, str_lt,
    text_lt,
};
use vstd::prelude::*;

verus! {

/// Whether `id` belongs at place `k` of the ascending sequence `s`: what
/// stands before `k` comes before `id`, and `id` comes before the rest.
pub open spec fn is_insert_position(s: Seq<Seq<char>>, id: Seq<char>, k: int) -> bool {
    &&& 0 <= k <= s.len()
    &&& forall|j: int| 0 <= j < k ==> text_lt(#[trigger] s[j], id)
    &&& forall|j: int| k <= j < s.len() ==> text_lt(id, #[trigger] s[j])
}

/// The tokens `s` with `id` among them.
pub open spec fn with_token(s: Seq<Seq<char>>, id: Seq<char>) -> Seq<Seq<char>> {
    if s.contains(id) {
        s
    } else {
        s.insert(choose|k: int| is_insert_position(s, id, k), id)
    }
}

/// The tokens `s` without `id`.
pub open spec fn without_token(s: Seq<Seq<char>>, id: Seq<char>) -> Seq<Seq<char>> {
    if s.contains(id) {
        s.remove(s.index_of(id))
    } else {
        s
    }
}

/// Whether the tokens of `s` from place `k` on are those that come after
/// `cursor`.
pub open spec fn is_cursor_position(s: Seq<Seq<char>>, cursor: Seq<char>, k: int) -> bool {
    &&& 0 <= k <= s.len()
    &&& forall|j: int| 0 <= j < k ==> !text_lt(cursor, #[trigger] s[j])
    &&& forall|j: int| k <= j < s.len() ==> text_lt(cursor, #[trigger] s[j])
}

/// The tokens of `s` that come after the cursor, all of them without one.
pub open spec fn tokens_after(s: Seq<Seq<char>>, cursor: Option<Seq<char>>) -> Seq<Seq<char>> {
    match cursor {
        None => s,
        Some(c) => s.skip(choose|k: int| is_cursor_position(s, c, k)),
    }
}

/// The first `n` items of `s`, or all of them where it has fewer.
pub open spec fn first_n<A>(s: Seq<A>, n: int) -> Seq<A> {
    if n < s.len() {
        s.take(n)
    } else {
        s
    }
}

/// What is left of `s` after its first `n` items.
pub open spec fn after_n<A>(s: Seq<A>, n: int) -> Seq<A> {
    if n < s.len() {
        s.skip(n)
    } else {
        Seq::empty()
    }
}

/// One page of the tokens of `s`: at most `limit` tokens after the cursor.
pub open spec fn token_page(s: Seq<Seq<char>>, cursor: Option<Seq<char>>, limit: int) -> Seq<
    Seq<char>,
> {
    first_n(tokens_after(s, cursor), limit)
}

/// A place at which `id` belongs in an ascending sequence is the only one.
pub proof fn lemma_insert_position_unique(s: Seq<Seq<char>>, id: Seq<char>, k: int, m: int)
    requires
        is_insert_position(s, id, k),
        is_insert_position(s, id, m),
    ensures
        k == m,
{
    if k < m {
        lemma_text_lt_asymmetric(s[k], id);
    } else if m < k {
        lemma_text_lt_asymmetric(s[m], id);
    }
}

/// The place from which the tokens come after a cursor is the only one.
pub proof fn lemma_cursor_position_unique(s: Seq<Seq<char>>, c: Seq<char>, k: int, m: int)
    requires
        is_cursor_position(s, c, k),
        is_cursor_position(s, c, m),
    ensures
        k == m,
{
    if k < m {
        assert(text_lt(c, s[k]));
    } else if m < k {
        assert(text_lt(c, s[m]));
    }
}

/// In an ascending sequence no token occurs twice.
pub proof fn lemma_ascending_distinct(s: Seq<Seq<char>>)
    requires
        ascending(s),
    ensures
        forall|i: int, j: int| 0 <= i < s.len() && 0 <= j < s.len() && i != j ==> s[i] != s[j],
{
    assert forall|i: int, j: int| 0 <= i < s.len() && 0 <= j < s.len() && i != j implies s[i]
        != s[j] by {
        if i < j {
            lemma_text_lt_asymmetric(s[i], s[j]);
        } else {
            lemma_text_lt_asymmetric(s[j], s[i]);
        }
    }
}

/// An ascending sequence stays ascending when a token enters at its place.
pub proof fn lemma_insert_ascending(s: Seq<Seq<char>>, id: Seq<char>, k: int)
    requires
        ascending(s),
        is_insert_position(s, id, k),
    ensures
        ascending(s.insert(k, id)),
{
    let t = s.insert(k, id);
    assert forall|i: int, j: int| 0 <= i < j < t.len() implies text_lt(
        #[trigger] t[i],
        #[trigger] t[j],
    ) by {
        if j < k {
            assert(t[i] == s[i] && t[j] == s[j]);
        } else if j == k {
            assert(t[i] == s[i] && t[j] == id);
        } else if i < k {
            assert(t[i] == s[i] && t[j] == s[j - 1]);
            if i < j - 1 {
            } else {
                lemma_text_lt_transitive(s[i], id, s[j - 1]);
            }
        } else if i == k {
            assert(t[i] == id && t[j] == s[j - 1]);
        } else {
            assert(t[i] == s[i - 1] && t[j] == s[j - 1]);
        }
    }
}

/// An ascending sequence stays ascending when a token leaves.
pub proof fn lemma_remove_ascending(s: Seq<Seq<char>>, k: int)
    requires
        ascending(s),
        0 <= k < s.len(),
    ensures
        ascending(s.remove(k)),
{
    let t = s.remove(k);
    assert forall|i: int, j: int| 0 <= i < j < t.len() implies text_lt(
        #[trigger] t[i],
        #[trigger] t[j],
    ) by {
        let a = if i < k { i } else { i + 1 };
        let b = if j < k { j } else { j + 1 };
        assert(t[i] == s[a] && t[j] == s[b]);
    }
}

/// Any stretch of an ascending sequence is ascending.
pub proof fn lemma_subrange_ascending(s: Seq<Seq<char>>, from: int, to: int)
    requires
        ascending(s),
        0 <= from <= to <= s.len(),
    ensures
        ascending(s.subrange(from, to)),
{
    let t = s.subrange(from, to);
    assert forall|i: int, j: int| 0 <= i < j < t.len() implies text_lt(
        #[trigger] t[i],
        #[trigger] t[j],
    ) by {
        assert(t[i] == s[from + i] && t[j] == s[from + j]);
    }
}

/// The tokens that are available for sale, in ascending order.
#[derive(Debug, PartialEq, Eq)]
pub struct TokenRegistry {
    pub tokens: Vec<String>,
}

impl View for TokenRegistry {
    type V = Seq<Seq<char>>;

    open spec fn view(&self) -> Seq<Seq<char>> {
        view_seq(self.tokens@)
    }
}

impl TokenRegistry {
    /// Whether the tokens stand in ascending order, each of them once.
    pub open spec fn wf(&self) -> bool {
        ascending(self@)
    }

    /// A registry without tokens.
    pub fn new() -> (r: TokenRegistry)
        ensures
            r.wf(),
            r@ == Seq::<Seq<char>>::empty(),
    {
        let r = TokenRegistry { tokens: Vec::new() };
        assert(r@ =~= Seq::<Seq<char>>::empty());
        r
    }

    /// The number of tokens.
    pub fn len(&self) -> (n: usize)
        ensures
            n == self@.len(),
    {
        self.tokens.len()
    }

    /// The place of `id` among the tokens, if it is one of them.
    pub fn position(&self, id: &String) -> (r: Option<usize>)
        ensures
            match r {
                Some(i) => i < self@.len() && self@[i as int] == id@,
                None => !self@.contains(id@),
            },
    {
        let mut i: usize = 0;
        while i < self.tokens.len()
            invariant
                i <= self.tokens@.len(),
                forall|j: int| 0 <= j < i ==> self@[j] != id@,
            decreases self.tokens@.len() - i,
        {
            if self.tokens[i] == *id {
                return Some(i);
            }
            i += 1;
        }
        None
    }

    /// Whether `id` is one of the tokens.
    pub fn has(&self, id: &String) -> (r: bool)
        ensures
            r == self@.contains(id@),
    {
        self.position(id).is_some()
    }

    /// Puts `id` among the tokens, unless it is one of them already.
    pub fn insert(&mut self, id: String)
        requires
            old(self).wf(),
        ensures
            final(self).wf(),
            final(self)@ == with_token(old(self)@, id@),
    {
        let ghost s = self@;
        let mut i: usize = 0;
        while i < self.tokens.len() && str_lt(self.tokens[i].as_str(), id.as_str())
            invariant
                self@ == s,
                i <= self.tokens@.len(),
                forall|j: int| 0 <= j < i ==> text_lt(#[trigger] s[j], id@),
            decreases self.tokens@.len() - i,
        {
            i += 1;
        }
        if i < self.tokens.len() && self.tokens[i] == id {
            assert(s[i as int] == id@);
            return ;
        }
        proof {
            assert forall|j: int| i <= j < s.len() implies text_lt(id@, #[trigger] s[j]) by {
                lemma_text_lt_total(s[i as int], id@);
                if i < j {
                    lemma_text_lt_transitive(id@, s[i as int], s[j]);
                }
            }
            assert(is_insert_position(s, id@, i as int));
            assert forall|j: int| 0 <= j < s.len() implies s[j] != id@ by {
                if j < i {
                    lemma_text_lt_asymmetric(s[j], id@);
                } else {
                    lemma_text_lt_asymmetric(id@, s[j]);
                }
            }
            let k = choose|k: int| is_insert_position(s, id@, k);
            lemma_insert_position_unique(s, id@, i as int, k);
            lemma_insert_ascending(s, id@, i as int);
        }
        let ghost text = id@;
        self.tokens.insert(i, id);
        assert(self@ =~= s.insert(i as int, text));
    }

    /// Takes `id` from the tokens, and says whether it was one of them.
    pub fn remove(&mut self, id: &String) -> (had: bool)
        requires
            old(self).wf(),
        ensures
            final(self).wf(),
            final(self)@ == without_token(old(self)@, id@),
            had == old(self)@.contains(id@),
    {
        let ghost s = self@;
        match self.position(id) {
            Some(i) => {
                proof {
                    lemma_ascending_distinct(s);
                    lemma_remove_ascending(s, i as int);
                }
                self.tokens.remove(i);
                assert(self@ =~= s.remove(i as int));
                true
            },
            None => false,
        }
    }

    /// Takes the first `n` tokens, or all of them where there are fewer.
    pub fn take_first(&mut self, n: usize) -> (taken: Vec<String>)
        requires
            old(self).wf(),
        ensures
            final(self).wf(),
            view_seq(taken@) == first_n(old(self)@, n as int),
            final(self)@ == after_n(old(self)@, n as int),
    {
        let ghost s = self@;
        if n < self.tokens.len() {
            let rest = self.tokens.split_off(n);
            let mut taken = rest;
            std::mem::swap(&mut self.tokens, &mut taken);
            proof {
                lemma_subrange_ascending(s, n as int, s.len() as int);
                assert(self@ =~= s.skip(n as int));
                assert(view_seq(taken@) =~= s.take(n as int));
            }
            taken
        } else {
            let mut taken: Vec<String> = Vec::new();
            std::mem::swap(&mut self.tokens, &mut taken);
            assert(self@ =~= Seq::<Seq<char>>::empty());
            taken
        }
    }

    /// One page of tokens: at most `limit` of those that come after
    /// `start_after`, or of all tokens without it.
    pub fn page(&self, start_after: Option<&String>, limit: usize) -> (r: Vec<String>)
        requires
            self.wf(),
        ensures
            view_seq(r@) == token_page(
                self@,
                match start_after {
                    Some(c) => Some(c@),
                    None => None,
                },
                limit as int,
            ),
    {
        let ghost s = self@;
        let mut i: usize = 0;
        if let Some(c) = start_after {
            while i < self.tokens.len() && !str_lt(c.as_str(), self.tokens[i].as_str())
                invariant
                    self@ == s,
                    i <= self.tokens@.len(),
                    forall|j: int| 0 <= j < i ==> !text_lt(c@, #[trigger] s[j]),
                decreases self.tokens@.len() - i,
            {
                i += 1;
            }
            proof {
                assert forall|j: int| i <= j < s.len() implies text_lt(c@, #[trigger] s[j]) by {
                    if i < j {
                        lemma_text_lt_transitive(c@, s[i as int], s[j]);
                    }
                }
                assert(is_cursor_position(s, c@, i as int));
                let k = choose|k: int| is_cursor_position(s, c@, k);
                lemma_cursor_position_unique(s, c@, i as int, k);
            }
        } else {
            assert(s.skip(0) =~= s);
        }
        let ghost rest = s.skip(i as int);
        let ghost start = i;
        let mut r: Vec<String> = Vec::new();
        while i < self.tokens.len() && r.len() < limit
            invariant
                self@ == s,
                start <= i <= self.tokens@.len(),
                r@.len() == i - start,
                r@.len() <= limit,
                forall|j: int| 0 <= j < r@.len() ==> (#[trigger] r@[j])@ == s[start + j],
            decreases self.tokens@.len() - i,
        {
            r.push(self.tokens[i].clone());
            i += 1;
        }
        assert(view_seq(r@) =~= first_n(rest, limit as int));
        r
    }
}

} // verus!
