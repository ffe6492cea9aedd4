//! The resolved context: a mapping from variable names to resolved
//! values, built afresh on every resolution pass, and its
//! order-independent comparison between polls.

use vstd::prelude::*;
use crate::value::{ResolvedValue, ValueModel};

verus! {

/// The bindings of a sequence of entries, later entries winning over
/// earlier ones with the same name.
pub open spec fn entries_model(s: Seq<(String, ResolvedValue)>) -> Map<Seq<char>, ValueModel>
    decreases s.len(),
{
    if s.len() == 0 {
        Map::empty()
    } else {
        entries_model(s.drop_last()).insert(s.last().0@, s.last().1@)
    }
}

/// No two entries bind the same name.
pub open spec fn keys_unique(s: Seq<(String, ResolvedValue)>) -> bool {
    forall|i: int, j: int| 0 <= i < j < s.len() ==> s[i].0@ != s[j].0@
}

/// A context mapping variable names to resolved values.  Insertion order
/// is kept (it matters when the context is echoed), but comparison is
/// order-independent: the view is a mathematical map.
pub struct ResolvedContext {
    entries: Vec<(String, ResolvedValue)>,
}

impl View for ResolvedContext {
    type V = Map<Seq<char>, ValueModel>;

    closed spec fn view(&self) -> Map<Seq<char>, ValueModel> {
        entries_model(self.entries@)
    }
}

proof fn lemma_entries_model_facts(s: Seq<(String, ResolvedValue)>)
    requires
        keys_unique(s),
    ensures
        forall|i: int|
            0 <= i < s.len() ==> entries_model(s).dom().contains(#[trigger] s[i].0@)
                && entries_model(s)[s[i].0@] == s[i].1@,
        forall|k: Seq<char>|
            entries_model(s).dom().contains(k) ==> exists|i: int|
                0 <= i < s.len() && #[trigger] s[i].0@ == k,
    decreases s.len(),
{
    if s.len() > 0 {
        let head = s.drop_last();
        assert(keys_unique(head)) by {
            assert(forall|i: int, j: int|
                0 <= i < j < head.len() ==> head[i].0@ != head[j].0@) by {
                assert(forall|i: int| 0 <= i < head.len() ==> head[i] == s[i]);
            }
        }
        lemma_entries_model_facts(head);
        assert(forall|i: int| 0 <= i < head.len() ==> head[i] == s[i]);
        assert forall|k: Seq<char>| entries_model(s).dom().contains(k) implies exists|i: int|
            0 <= i < s.len() && #[trigger] s[i].0@ == k by {
            if k == s.last().0@ {
                assert(s[s.len() - 1].0@ == k);
            } else {
                assert(entries_model(head).dom().contains(k));
                let w = choose|w: int| 0 <= w < head.len() && #[trigger] head[w].0@ == k;
                assert(s[w].0@ == k);
            }
        }
    }
}

impl ResolvedContext {
    /// The entries bind pairwise distinct names.
    pub closed spec fn wf(&self) -> bool {
        keys_unique(self.entries@)
    }

    /// A fresh, empty context.
    pub fn new() -> (r: ResolvedContext)
        ensures
            r@ == Map::<Seq<char>, ValueModel>::empty(),
            r.wf(),
    {
        ResolvedContext { entries: Vec::new() }
    }

    /// Binds `name` to `value`; a later binding of the same name replaces
    /// an earlier one.
    pub fn insert(&mut self, name: String, value: ResolvedValue)
        requires
            old(self).wf(),
        ensures
            final(self).wf(),
            final(self)@ == old(self)@.insert(name@, value@),
    {
        let n = self.entries.len();
        let mut i: usize = 0;
        while i < n
            invariant
                i <= n,
                n == self.entries@.len(),
                self == old(self),
                keys_unique(self.entries@),
                forall|j: int| 0 <= j < i ==> self.entries@[j].0@ != name@,
            decreases n - i,
        {
            if self.entries[i].0 == name {
                let ghost s = self.entries@;
                self.entries.set(i, (name, value));
                proof {
                    lemma_update_entry(s, i as int, (name, value));
                    assert forall|p: int, q: int|
                        0 <= p < q < self.entries@.len() implies self.entries@[p].0@
                        != self.entries@[q].0@ by {
                        assert(self.entries@[p].0@ == s[p].0@);
                        assert(self.entries@[q].0@ == s[q].0@);
                    }
                    assert(keys_unique(self.entries@));
                }
                return;
            }
            i = i + 1;
        }
        let ghost s = self.entries@;
        self.entries.push((name, value));
        proof {
            assert(self.entries@.drop_last() =~= s);
            assert forall|p: int, q: int|
                0 <= p < q < self.entries@.len() implies self.entries@[p].0@
                != self.entries@[q].0@ by {
                assert(self.entries@[p] == s[p]);
                if q < s.len() {
                    assert(self.entries@[q] == s[q]);
                } else {
                    assert(self.entries@[q].0@ == name@);
                }
            }
            assert(keys_unique(self.entries@));
        }
    }

    /// Looks a name up.
    pub fn get(&self, name: &String) -> (r: Option<&ResolvedValue>)
        requires
            self.wf(),
        ensures
            match r {
                Option::Some(v) => self@.dom().contains(name@) && v@ == self@[name@],
                Option::None => !self@.dom().contains(name@),
            },
    {
        proof {
            lemma_entries_model_facts(self.entries@);
        }
        let n = self.entries.len();
        let mut i: usize = 0;
        loop
            invariant
                i <= n,
                n == self.entries@.len(),
                self.wf(),
                forall|j: int| 0 <= j < i ==> self.entries@[j].0@ != name@,
            decreases n - i,
        {
            if i >= n {
                proof {
                    lemma_entries_model_facts(self.entries@);
                    if self@.dom().contains(name@) {
                        let w = choose|w: int|
                            0 <= w < self.entries@.len() && #[trigger] self.entries@[w].0@
                                == name@;
                        assert(false);
                    }
                }
                return Option::None;
            }
            if self.entries[i].0 == *name {
                proof {
                    lemma_entries_model_facts(self.entries@);
                }
                return Option::Some(&self.entries[i].1);
            }
            i = i + 1;
        }
    }

    /// The entries in insertion order.  Every binding of the context is
    /// here, each name once.
    pub fn entries(&self) -> (r: &Vec<(String, ResolvedValue)>)
        requires
            self.wf(),
        ensures
            entries_model(r@) == self@,
            keys_unique(r@),
    {
        &self.entries
    }
}

/// Replacing the entry at `i` by one with an equal name rebinds that name
/// and nothing else.
proof fn lemma_update_entry(s: Seq<(String, ResolvedValue)>, i: int, p: (String, ResolvedValue))
    requires
        keys_unique(s),
        0 <= i < s.len(),
        s[i].0@ == p.0@,
    ensures
        entries_model(s.update(i, p)) == entries_model(s).insert(p.0@, p.1@),
    decreases s.len(),
{
    let t = s.update(i, p);
    if i == s.len() - 1 {
        assert(t.drop_last() =~= s.drop_last());
        assert(t.last() == p);
        assert(entries_model(t) == entries_model(s.drop_last()).insert(p.0@, p.1@));
        assert(entries_model(s).insert(p.0@, p.1@) == entries_model(s.drop_last()).insert(
            s.last().0@,
            s.last().1@,
        ).insert(p.0@, p.1@));
        assert(entries_model(s.drop_last()).insert(s.last().0@, s.last().1@).insert(p.0@, p.1@)
            =~= entries_model(s.drop_last()).insert(p.0@, p.1@));
    } else {
        let head = s.drop_last();
        assert(keys_unique(head)) by {
            assert(forall|a: int| 0 <= a < head.len() ==> head[a] == s[a]);
        }
        assert(head[i] == s[i]);
        lemma_update_entry(head, i, p);
        assert(t.drop_last() =~= head.update(i, p));
        assert(t.last() == s.last());
        assert(entries_model(t) == entries_model(head).insert(p.0@, p.1@).insert(
            s.last().0@,
            s.last().1@,
        ));
        assert(s[i].0@ != s.last().0@);
        assert(entries_model(head).insert(p.0@, p.1@).insert(s.last().0@, s.last().1@)
            =~= entries_model(head).insert(s.last().0@, s.last().1@).insert(p.0@, p.1@));
    }
}

/// One direction of the comparison: every binding of `a` is also in `b`.
fn covered_by(a: &ResolvedContext, b: &ResolvedContext) -> (r: bool)
    requires
        a.wf(),
        b.wf(),
    ensures
        r == a@.submap_of(b@),
{
    let aes = &a.entries;
    let n = aes.len();
    let mut i: usize = 0;
    loop
        invariant
            i <= n,
            n == aes@.len(),
            a.wf(),
            b.wf(),
            aes == &a.entries,
            entries_model(aes@) == a@,
            keys_unique(aes@),
            forall|j: int|
                0 <= j < i ==> b@.dom().contains(#[trigger] aes@[j].0@) && b@[aes@[j].0@]
                    == aes@[j].1@,
        decreases n - i,
    {
        if i >= n {
            proof {
                lemma_entries_model_facts(aes@);
                assert forall|k: Seq<char>| a@.dom().contains(k) implies b@.dom().contains(k)
                    && a@[k] == b@[k] by {
                    let w = choose|w: int|
                        0 <= w < aes@.len() && #[trigger] aes@[w].0@ == k;
                    assert(b@.dom().contains(aes@[w].0@));
                }
            }
            return true;
        }
        let name = &aes[i].0;
        proof {
            lemma_entries_model_facts(aes@);
        }
        match b.get(name) {
            Option::Some(v) => {
                if !crate::value::value_eq(&aes[i].1, v) {
                    assert(a@[name@] == aes@[i as int].1@);
                    return false;
                }
            },
            Option::None => {
                assert(a@.dom().contains(name@));
                return false;
            },
        }
        i = i + 1;
    }
}

/// Order-independent comparison of two contexts: equal exactly when they
/// bind the same names, and each name to structurally equal values.
pub fn equal(a: &ResolvedContext, b: &ResolvedContext) -> (r: bool)
    requires
        a.wf(),
        b.wf(),
    ensures
        r == (a@ == b@),
{
    let fwd = covered_by(a, b);
    if !fwd {
        proof {
            if a@ == b@ {
                assert(a@.submap_of(b@));
            }
        }
        return false;
    }
    let bwd = covered_by(b, a);
    proof {
        if fwd && bwd {
            assert(a@ =~= b@) by {
                assert(forall|k: Seq<char>|
                    a@.dom().contains(k) <==> b@.dom().contains(k));
            }
        }
        if !bwd && a@ == b@ {
            assert(b@.submap_of(a@));
        }
    }
    bwd
}

/// Binding two distinct names gives the same context whichever is bound
/// first: key insertion order cannot be observed through the model.
pub proof fn lemma_insert_order_irrelevant(
    m: Map<Seq<char>, ValueModel>,
    k1: Seq<char>,
    v1: ValueModel,
    k2: Seq<char>,
    v2: ValueModel,
)
    requires
        k1 != k2,
    ensures
        m.insert(k1, v1).insert(k2, v2) == m.insert(k2, v2).insert(k1, v1),
{
    assert(m.insert(k1, v1).insert(k2, v2) =~= m.insert(k2, v2).insert(k1, v1));
}

} // verus!
