//! The two caches of a walk: the identities visited by one walk, and the
//! minified copies produced during the whole process.
use vstd::prelude::*;
use crate::bytes::same_bytes;

verus! {

/// Position of `x` among `items`, if it is there.
fn position(items: &Vec<Vec<u8>>, x: &Vec<u8>) -> (r: Option<usize>)
    ensures
        match r {
            Some(i) => i < items.len() && items@[i as int]@ == x@,
            None => forall|i: int| 0 <= i < items.len() ==> #[trigger] items@[i]@ != x@,
        },
{
    let mut i: usize = 0;
    while i < items.len()
        invariant
            i <= items.len(),
            forall|j: int| 0 <= j < i ==> #[trigger] items@[j]@ != x@,
        decreases items.len() - i,
    {
        if same_bytes(&items[i], x) {
            return Some(i);
        }
        i = i + 1;
    }
    None
}

/// The templates already visited by one walk.
pub struct RunCache {
    items: Vec<Vec<u8>>,
    model: Ghost<Set<Seq<u8>>>,
}

impl RunCache {
    pub closed spec fn view(&self) -> Set<Seq<u8>> {
        self.model@
    }

    pub closed spec fn wf(&self) -> bool {
        &&& forall|i: int| 0 <= i < self.items.len() ==> self.model@.contains(#[trigger] self.items@[i]@)
        &&& forall|x: Seq<u8>| #[trigger] self.model@.contains(x) ==> exists|i: int|
            0 <= i < self.items.len() && self.items@[i]@ == x
    }

    pub fn new() -> (r: RunCache)
        ensures
            r.wf(),
            r@ == Set::<Seq<u8>>::empty(),
    {
        RunCache { items: Vec::new(), model: Ghost(Set::empty()) }
    }

    pub fn contains(&self, id: &Vec<u8>) -> (r: bool)
        requires
            self.wf(),
        ensures
            r == self@.contains(id@),
    {
        position(&self.items, id).is_some()
    }

    pub fn insert(&mut self, id: Vec<u8>)
        requires
            old(self).wf(),
        ensures
            final(self).wf(),
            final(self)@ == old(self)@.insert(id@),
    {
        if position(&self.items, &id).is_none() {
            let ghost x = id@;
            let ghost old_items = self.items@;
            self.items.push(id);
            self.model = Ghost(self.model@.insert(x));
            let n = self.items.len() - 1;
            assert(self.items@[n as int]@ == x);
            assert forall|y: Seq<u8>| #[trigger] self.model@.contains(y) implies exists|i: int|
                0 <= i < self.items.len() && self.items@[i]@ == y by {
                if y == x {
                    assert(self.items@[n as int]@ == y);
                } else {
                    assert(old(self).model@.contains(y));
                    let i = choose|i: int| 0 <= i < old_items.len() && old_items[i]@ == y;
                    assert(self.items@[i]@ == y);
                }
            }
        } else {
            assert(self.model@.insert(id@) =~= self.model@);
        }
    }
}

/// The minified copies produced in this process: for each template identity,
/// where its minified copy was written. Entries are only ever added or
/// replaced, never removed.
pub struct GlobalCache {
    keys: Vec<Vec<u8>>,
    outs: Vec<Vec<u8>>,
    model: Ghost<Map<Seq<u8>, Seq<u8>>>,
}

impl GlobalCache {
    pub closed spec fn view(&self) -> Map<Seq<u8>, Seq<u8>> {
        self.model@
    }

    pub closed spec fn wf(&self) -> bool {
        &&& self.keys.len() == self.outs.len()
        &&& forall|i: int, j: int|
            0 <= i < self.keys.len() && 0 <= j < self.keys.len() && #[trigger] self.keys@[i]@
                == #[trigger] self.keys@[j]@ ==> i == j
        &&& forall|i: int|
            0 <= i < self.keys.len() ==> #[trigger] self.model@.contains_key(self.keys@[i]@)
                && self.model@[self.keys@[i]@] == self.outs@[i]@
        &&& forall|k: Seq<u8>| #[trigger] self.model@.contains_key(k) ==> exists|i: int|
            0 <= i < self.keys.len() && self.keys@[i]@ == k
    }

    /// An empty cache, to be made once per process and handed to every walk.
    pub fn new() -> (r: GlobalCache)
        ensures
            r.wf(),
            r@ == Map::<Seq<u8>, Seq<u8>>::empty(),
    {
        GlobalCache { keys: Vec::new(), outs: Vec::new(), model: Ghost(Map::empty()) }
    }

    /// Where the minified copy of `id` was written, if it was.
    pub fn get(&self, id: &Vec<u8>) -> (r: Option<Vec<u8>>)
        requires
            self.wf(),
        ensures
            match r {
                Some(o) => self@.contains_key(id@) && self@[id@] == o@,
                None => !self@.contains_key(id@),
            },
    {
        match position(&self.keys, id) {
            Some(i) => {
                let o = self.outs[i].clone();
                assert(o@ =~= self.outs@[i as int]@);
                assert(self.model@.contains_key(self.keys@[i as int]@));
                Some(o)
            },
            None => None,
        }
    }

    /// Records that the minified copy of `id` was written at `out`.
    pub fn insert(&mut self, id: Vec<u8>, out: Vec<u8>)
        requires
            old(self).wf(),
        ensures
            final(self).wf(),
            final(self)@ == old(self)@.insert(id@, out@),
    {
        let ghost k = id@;
        let ghost o = out@;
        let ghost old_keys = self.keys@;
        match position(&self.keys, &id) {
            Some(i) => {
                self.outs.set(i, out);
                self.model = Ghost(self.model@.insert(k, o));
                assert forall|j: int| 0 <= j < self.keys.len() implies #[trigger] self.model@.contains_key(
                    self.keys@[j]@,
                ) && self.model@[self.keys@[j]@] == self.outs@[j]@ by {
                    if j != i {
                        assert(old_keys[j]@ != old_keys[i as int]@);
                        assert(old(self).model@.contains_key(old_keys[j]@));
                    }
                }
                assert forall|x: Seq<u8>| #[trigger] self.model@.contains_key(x) implies exists|j: int|
                    0 <= j < self.keys.len() && self.keys@[j]@ == x by {
                    if x == k {
                        assert(self.keys@[i as int]@ == x);
                    }
                }
            },
            None => {
                self.keys.push(id);
                self.outs.push(out);
                assert forall|a: int, b: int|
                    0 <= a < self.keys.len() && 0 <= b < self.keys.len() && #[trigger] self.keys@[a]@
                        == #[trigger] self.keys@[b]@ implies a == b by {
                    if a < old_keys.len() && b < old_keys.len() {
                        assert(old_keys[a] == self.keys@[a]);
                        assert(old_keys[b] == self.keys@[b]);
                    }
                }
                assert forall|j: int| 0 <= j < old_keys.len() implies #[trigger] old(self).model@.contains_key(
                    old_keys[j]@,
                ) && old_keys[j]@ != k by {}
                self.model = Ghost(self.model@.insert(k, o));
                let n = self.keys.len() - 1;
                assert(self.keys@[n as int]@ == k);
                assert forall|x: Seq<u8>| #[trigger] self.model@.contains_key(x) implies exists|j: int|
                    0 <= j < self.keys.len() && self.keys@[j]@ == x by {
                    if x == k {
                        assert(self.keys@[n as int]@ == x);
                    } else {
                        assert(old(self).model@.contains_key(x));
                        let j = choose|j: int| 0 <= j < old_keys.len() && old_keys[j]@ == x;
                        assert(self.keys@[j]@ == x);
                    }
                }
            },
        }
    }
}

} // verus!
