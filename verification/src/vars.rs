//! The motion protocol's variable map: short identifiers bound to the
//! text substituted for `{name}` tokens in command templates.

use vstd::prelude::*;

use crate::text::bytes_eq;

verus! {

/// A binding list viewed as key/value pairs of byte strings; lookups
/// take the first binding of a key, and the map keeps keys unique.
pub struct VarMap {
    entries: Vec<(Vec<u8>, Vec<u8>)>,
}

/// The value bound to `k`, front binding first.
pub open spec fn spec_lookup(entries: Seq<(Seq<u8>, Seq<u8>)>, k: Seq<u8>) -> Option<Seq<u8>>
    decreases entries.len(),
{
    if entries.len() == 0 {
        None
    } else if entries[0].0 == k {
        Some(entries[0].1)
    } else {
        spec_lookup(entries.skip(1), k)
    }
}

impl View for VarMap {
    type V = Seq<(Seq<u8>, Seq<u8>)>;

    closed spec fn view(&self) -> Seq<(Seq<u8>, Seq<u8>)> {
        self.entries@.map_values(|e: (Vec<u8>, Vec<u8>)| (e.0@, e.1@))
    }
}

proof fn lemma_lookup_found(entries: Seq<(Seq<u8>, Seq<u8>)>, i: int)
    requires
        0 <= i < entries.len(),
        forall|j: int| 0 <= j < i ==> (#[trigger] entries[j]).0 != entries[i].0,
    ensures
        spec_lookup(entries, entries[i].0) == Some(entries[i].1),
    decreases i,
{
    if i > 0 {
        let rest = entries.skip(1);
        assert(forall|j: int| 0 <= j < i - 1 ==> (#[trigger] rest[j]) == entries[j + 1]);
        lemma_lookup_found(rest, i - 1);
    }
}

proof fn lemma_lookup_absent(entries: Seq<(Seq<u8>, Seq<u8>)>, k: Seq<u8>)
    requires
        forall|j: int| 0 <= j < entries.len() ==> (#[trigger] entries[j]).0 != k,
    ensures
        spec_lookup(entries, k) is None,
    decreases entries.len(),
{
    if entries.len() > 0 {
        let rest = entries.skip(1);
        assert(forall|j: int| 0 <= j < rest.len() ==> (#[trigger] rest[j]) == entries[j + 1]);
        lemma_lookup_absent(rest, k);
    }
}

/// With unique keys, a lookup is decided by whichever entry (if any)
/// holds the key.
proof fn lemma_lookup_unique(entries: Seq<(Seq<u8>, Seq<u8>)>, k: Seq<u8>)
    requires
        forall|i: int, j: int|
            0 <= i < j < entries.len() ==> (#[trigger] entries[i]).0 != (#[trigger] entries[j]).0,
    ensures
        (exists|i: int| 0 <= i < entries.len() && (#[trigger] entries[i]).0 == k) ==> spec_lookup(
            entries,
            k,
        ) == Some(entries[choose|i: int| 0 <= i < entries.len() && (#[trigger] entries[i]).0 == k].1),
        !(exists|i: int| 0 <= i < entries.len() && (#[trigger] entries[i]).0 == k) ==> spec_lookup(
            entries,
            k,
        ) is None,
{
    if exists|i: int| 0 <= i < entries.len() && (#[trigger] entries[i]).0 == k {
        let i = choose|i: int| 0 <= i < entries.len() && (#[trigger] entries[i]).0 == k;
        lemma_lookup_found(entries, i);
    } else {
        lemma_lookup_absent(entries, k);
    }
}

impl VarMap {
    /// Keys occur at most once; constructors establish it and every
    /// method keeps it.
    pub open spec fn wf(&self) -> bool {
        forall|i: int, j: int|
            0 <= i < j < self@.len() ==> (#[trigger] self@[i]).0 != (#[trigger] self@[j]).0
    }

    /// An empty binding list.
    pub fn new() -> (r: VarMap)
        ensures
            r@ == Seq::<(Seq<u8>, Seq<u8>)>::empty(),
            r.wf(),
    {
        let r = VarMap { entries: Vec::new() };
        proof {
            assert(r@ =~= Seq::<(Seq<u8>, Seq<u8>)>::empty());
        }
        r
    }

    /// Binds `key` to `value`, replacing any previous binding.
    pub fn insert(&mut self, key: Vec<u8>, value: Vec<u8>)
        requires
            old(self).wf(),
        ensures
            final(self).wf(),
            forall|k: Seq<u8>| #[trigger]
                spec_lookup(final(self)@, k) == if k == key@ {
                    Some(value@)
                } else {
                    spec_lookup(old(self)@, k)
                },
    {
        let ghost old_view = self@;
        let n = self.entries.len();
        let mut i: usize = 0;
        while i < n
            invariant
                0 <= i <= n,
                n == self@.len(),
                self@ == old_view,
                old(self).wf(),
                old_view == old(self)@,
                forall|j: int| 0 <= j < i ==> (#[trigger] self@[j]).0 != key@,
            decreases n - i,
        {
            if bytes_eq(self.entries[i].0.as_slice(), key.as_slice()) {
                proof {
                    assert(old_view[i as int].0 == key@);
                }
                let ghost key_v = key@;
                let ghost value_v = value@;
                self.entries.set(i, (key, value));
                proof {
                    let new_view = self@;
                    assert(new_view.len() == old_view.len());
                    assert(forall|j: int|
                        0 <= j < new_view.len() && j != i ==> #[trigger] new_view[j] == old_view[j]);
                    assert(new_view[i as int] == (key_v, value_v));
                    assert(self.wf()) by {
                        assert forall|i1: int, j1: int|
                            0 <= i1 < j1 < new_view.len() implies (#[trigger] new_view[i1]).0 != (
                        #[trigger] new_view[j1]).0 by {
                            assert(new_view[i1].0 == old_view[i1].0);
                            assert(new_view[j1].0 == old_view[j1].0);
                        }
                    }
                    assert forall|k: Seq<u8>| #[trigger]
                        spec_lookup(new_view, k) == if k == key_v {
                            Some(value_v)
                        } else {
                            spec_lookup(old_view, k)
                        } by {
                        lemma_lookup_unique(new_view, k);
                        lemma_lookup_unique(old_view, k);
                        if k == key_v {
                            assert(new_view[i as int].0 == k);
                            let c = choose|m: int|
                                0 <= m < new_view.len() && (#[trigger] new_view[m]).0 == k;
                            assert(c == i);
                        } else {
                            if exists|m: int|
                                0 <= m < new_view.len() && (#[trigger] new_view[m]).0 == k {
                                let c = choose|m: int|
                                    0 <= m < new_view.len() && (#[trigger] new_view[m]).0 == k;
                                assert(c != i);
                                assert(old_view[c].0 == k);
                            } else {
                                assert(forall|m: int|
                                    0 <= m < old_view.len() && m != i ==> (
                                    #[trigger] old_view[m]).0 == new_view[m].0);
                                assert(forall|m: int|
                                    0 <= m < old_view.len() ==> (#[trigger] old_view[m]).0 != k);
                            }
                        }
                    }
                }
                return ;
            }
            i = i + 1;
        }
        let ghost key_v = key@;
        let ghost value_v = value@;
        self.entries.push((key, value));
        proof {
            let new_view = self@;
            assert(new_view =~= old_view.push((key_v, value_v)));
            assert(forall|j: int| 0 <= j < old_view.len() ==> #[trigger] new_view[j] == old_view[j]);
            assert(new_view[old_view.len() as int] == (key_v, value_v));
            assert(self.wf()) by {
                assert forall|i1: int, j1: int|
                    0 <= i1 < j1 < new_view.len() implies (#[trigger] new_view[i1]).0 != (
                #[trigger] new_view[j1]).0 by {
                    if j1 < old_view.len() {
                    } else {
                        assert(new_view[j1].0 == key_v);
                        assert(new_view[i1].0 == old_view[i1].0);
                    }
                }
            }
            assert forall|k: Seq<u8>| #[trigger]
                spec_lookup(new_view, k) == if k == key_v {
                    Some(value_v)
                } else {
                    spec_lookup(old_view, k)
                } by {
                lemma_lookup_unique(new_view, k);
                lemma_lookup_unique(old_view, k);
                if k == key_v {
                    assert(new_view[old_view.len() as int].0 == k);
                    let c = choose|m: int|
                        0 <= m < new_view.len() && (#[trigger] new_view[m]).0 == k;
                    assert(c == old_view.len());
                } else {
                    if exists|m: int| 0 <= m < new_view.len() && (#[trigger] new_view[m]).0 == k {
                        let c = choose|m: int|
                            0 <= m < new_view.len() && (#[trigger] new_view[m]).0 == k;
                        assert(c < old_view.len());
                        assert(old_view[c].0 == k);
                    } else {
                        assert forall|m: int|
                            0 <= m < old_view.len() implies (#[trigger] old_view[m]).0 != k by {
                            assert(old_view[m] == new_view[m]);
                        }
                    }
                }
            }
        }
    }

    /// Drops the binding of `key`, if any.
    pub fn remove(&mut self, key: &[u8])
        requires
            old(self).wf(),
        ensures
            final(self).wf(),
            forall|k: Seq<u8>| #[trigger]
                spec_lookup(final(self)@, k) == if k == key@ {
                    None::<Seq<u8>>
                } else {
                    spec_lookup(old(self)@, k)
                },
    {
        let ghost old_view = self@;
        let n = self.entries.len();
        let mut i: usize = 0;
        while i < n
            invariant
                0 <= i <= n,
                n == self@.len(),
                self@ == old_view,
                old(self).wf(),
                old_view == old(self)@,
                forall|j: int| 0 <= j < i ==> (#[trigger] self@[j]).0 != key@,
            decreases n - i,
        {
            if bytes_eq(self.entries[i].0.as_slice(), key) {
                proof {
                    assert(old_view[i as int].0 == key@);
                }
                self.entries.remove(i);
                proof {
                    let new_view = self@;
                    assert(new_view.len() == old_view.len() - 1);
                    assert(forall|j: int| 0 <= j < i ==> #[trigger] new_view[j] == old_view[j]);
                    assert(forall|j: int|
                        i <= j < new_view.len() ==> #[trigger] new_view[j] == old_view[j + 1]);
                    assert(self.wf()) by {
                        assert forall|i1: int, j1: int|
                            0 <= i1 < j1 < new_view.len() implies (#[trigger] new_view[i1]).0 != (
                        #[trigger] new_view[j1]).0 by {
                            let oi = if i1 < i { i1 } else { i1 + 1 };
                            let oj = if j1 < i { j1 } else { j1 + 1 };
                            assert(new_view[i1] == old_view[oi]);
                            assert(new_view[j1] == old_view[oj]);
                        }
                    }
                    assert forall|k: Seq<u8>| #[trigger]
                        spec_lookup(new_view, k) == if k == key@ {
                            None::<Seq<u8>>
                        } else {
                            spec_lookup(old_view, k)
                        } by {
                        lemma_lookup_unique(new_view, k);
                        lemma_lookup_unique(old_view, k);
                        if k == key@ {
                            assert forall|m: int|
                                0 <= m < new_view.len() implies (#[trigger] new_view[m]).0 != k by {
                                let om = if m < i { m } else { m + 1 };
                                assert(new_view[m] == old_view[om]);
                                assert(old_view[i as int].0 == k);
                            }
                            lemma_lookup_absent(new_view, k);
                        } else {
                            if exists|m: int|
                                0 <= m < new_view.len() && (#[trigger] new_view[m]).0 == k {
                                let c = choose|m: int|
                                    0 <= m < new_view.len() && (#[trigger] new_view[m]).0 == k;
                                let oc = if c < i { c } else { c + 1 };
                                assert(old_view[oc].0 == k);
                                assert(old_view[oc] == new_view[c]);
                            } else {
                                assert forall|m: int|
                                    0 <= m < old_view.len() implies (#[trigger] old_view[m]).0
                                    != k by {
                                    if m < i {
                                        assert(old_view[m] == new_view[m]);
                                    } else if m == i {
                                    } else {
                                        assert(old_view[m] == new_view[m - 1]);
                                    }
                                }
                            }
                        }
                    }
                }
                return ;
            }
            i = i + 1;
        }
        proof {
            assert forall|k: Seq<u8>| #[trigger]
                spec_lookup(self@, k) == if k == key@ {
                    None::<Seq<u8>>
                } else {
                    spec_lookup(old_view, k)
                } by {
                lemma_lookup_unique(self@, k);
                if k == key@ {
                    lemma_lookup_absent(self@, k);
                }
            }
        }
    }

    /// Drops every binding.
    pub fn clear(&mut self)
        ensures
            final(self)@ == Seq::<(Seq<u8>, Seq<u8>)>::empty(),
            final(self).wf(),
    {
        self.entries = Vec::new();
        proof {
            assert(self@ =~= Seq::<(Seq<u8>, Seq<u8>)>::empty());
        }
    }

    /// The value bound to `key`.
    pub fn get(&self, key: &[u8]) -> (r: Option<&Vec<u8>>)
        requires
            self.wf(),
        ensures
            match r {
                Some(v) => spec_lookup(self@, key@) == Some(v@),
                None => spec_lookup(self@, key@) is None,
            },
    {
        let n = self.entries.len();
        let mut i: usize = 0;
        while i < n
            invariant
                0 <= i <= n,
                n == self@.len(),
                self.wf(),
                forall|j: int| 0 <= j < i ==> (#[trigger] self@[j]).0 != key@,
            decreases n - i,
        {
            if bytes_eq(self.entries[i].0.as_slice(), key) {
                proof {
                    lemma_lookup_found(self@, i as int);
                }
                return Some(&self.entries[i].1);
            }
            i = i + 1;
        }
        proof {
            lemma_lookup_absent(self@, key@);
        }
        None
    }
}

} // verus!
