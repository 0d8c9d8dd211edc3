use vstd::prelude::*;

use crate::record::{CommandRecord, RecordView};

verus! {

/// Registry contents: (tenant, trigger) to record.
pub type Contents = Map<(Seq<char>, Seq<char>), RecordView>;

/// The contents after `register(t, k, o, a)`.
pub open spec fn registered(
    m: Contents,
    t: Seq<char>,
    k: Seq<char>,
    o: Seq<char>,
    a: Seq<char>,
) -> Contents {
    m.insert((t, k), RecordView::fresh(o, a))
}

/// Whether the record under (t, k) can count no further.
pub open spec fn exhausted(m: Contents, t: Seq<char>, k: Seq<char>) -> bool {
    m.contains_key((t, k)) && m[(t, k)].invocation_count >= usize::MAX
}

/// What `invoke(t, k)` returns when it succeeds: the record after counting, if any.
pub open spec fn invocation(m: Contents, t: Seq<char>, k: Seq<char>) -> Option<RecordView> {
    if m.contains_key((t, k)) {
        Some(m[(t, k)].fired())
    } else {
        None
    }
}

/// The contents after a successful `invoke(t, k)`.
pub open spec fn after_invocation(m: Contents, t: Seq<char>, k: Seq<char>) -> Contents {
    if m.contains_key((t, k)) {
        m.insert((t, k), m[(t, k)].fired())
    } else {
        m
    }
}

/// The pairs (trigger, record) of a listing.
pub open spec fn listing_view(r: Seq<(String, CommandRecord)>) -> Seq<(Seq<char>, RecordView)> {
    r.map_values(|p: (String, CommandRecord)| (p.0@, p.1@))
}

/// Whether `l` lists every record of tenant `t` exactly once.
pub open spec fn lists_tenant(m: Contents, t: Seq<char>, l: Seq<(Seq<char>, RecordView)>) -> bool {
    &&& forall|j: int|
        0 <= j < l.len() ==> m.contains_key((t, #[trigger] l[j].0)) && m[(t, l[j].0)] == l[j].1
    &&& forall|k: Seq<char>|
        m.contains_key((t, k)) ==> exists|j: int| 0 <= j < l.len() && (#[trigger] l[j]).0 == k
    &&& forall|i: int, j: int| 0 <= i < j < l.len() ==> l[i].0 != l[j].0
}

/// Why a registry operation failed.
#[derive(Debug, PartialEq, Eq, Structural)]
pub enum RegistryError {
    /// The invocation counter is at its largest value.
    CounterExhausted,
    /// A stored record could not be read back.
    Malformed,
    /// The backing store could not be reached.
    StorageUnavailable,
}

struct Entry {
    tenant: String,
    trigger: String,
    record: CommandRecord,
}

/// Per-tenant command records, keyed by exact trigger text.
pub struct CommandRegistry {
    entries: Vec<Entry>,
    contents: Ghost<Contents>,
}

impl View for CommandRegistry {
    type V = Contents;

    closed spec fn view(&self) -> Contents {
        self.contents@
    }
}

impl CommandRegistry {
    spec fn key_at(&self, i: int) -> (Seq<char>, Seq<char>) {
        (self.entries@[i].tenant@, self.entries@[i].trigger@)
    }

    /// Keys are unique, and the entries hold exactly the contents.
    pub closed spec fn wf(&self) -> bool {
        &&& forall|i: int, j: int|
            0 <= i < j < self.entries@.len() ==> self.key_at(i) != self.key_at(j)
        &&& forall|i: int|
            0 <= i < self.entries@.len() ==> self.contents@.contains_key(#[trigger] self.key_at(i))
                && self.contents@[self.key_at(i)] == self.entries@[i].record@
        &&& forall|k: (Seq<char>, Seq<char>)|
            self.contents@.contains_key(k) ==> exists|i: int|
                0 <= i < self.entries@.len() && #[trigger] self.key_at(i) == k
    }

    /// An empty registry.
    pub fn new() -> (r: CommandRegistry)
        ensures
            r.wf(),
            r@ == Contents::empty(),
    {
        CommandRegistry { entries: Vec::new(), contents: Ghost(Contents::empty()) }
    }

    fn find(&self, tenant: &String, trigger: &String) -> (r: Option<usize>)
        requires
            self.wf(),
        ensures
            match r {
                Some(i) => i < self.entries@.len() && self.key_at(i as int) == (tenant@, trigger@),
                None => !self@.contains_key((tenant@, trigger@)),
            },
    {
        let mut i: usize = 0;
        while i < self.entries.len()
            invariant
                i <= self.entries@.len(),
                forall|j: int| 0 <= j < i ==> self.key_at(j) != (tenant@, trigger@),
            decreases self.entries@.len() - i,
        {
            let e = &self.entries[i];
            if e.tenant == *tenant && e.trigger == *trigger {
                return Some(i);
            }
            i = i + 1;
        }
        None
    }

    /// Stores a fresh record for (tenant, trigger), replacing any earlier one.
    pub fn register(&mut self, tenant: String, trigger: String, output: String, author_id: String)
        requires
            old(self).wf(),
        ensures
            final(self).wf(),
            final(self)@ == registered(old(self)@, tenant@, trigger@, output@, author_id@),
    {
        let ghost key = (tenant@, trigger@);
        let ghost new_contents = registered(self@, tenant@, trigger@, output@, author_id@);
        let record = CommandRecord::new(output, author_id);
        match self.find(&tenant, &trigger) {
            Some(i) => {
                self.entries[i] = Entry { tenant, trigger, record };
                self.contents = Ghost(new_contents);
                assert forall|j: int| 0 <= j < self.entries@.len() implies #[trigger] self.key_at(j)
                    == old(self).key_at(j) by {}
                assert forall|j: int| 0 <= j < self.entries@.len() implies self.contents@.contains_key(
                    #[trigger] self.key_at(j),
                ) && self.contents@[self.key_at(j)] == self.entries@[j].record@ by {
                    if j != i {
                        assert(old(self).key_at(j) != old(self).key_at(i as int));
                    }
                }
                assert forall|k: (Seq<char>, Seq<char>)|
                    self.contents@.contains_key(k) implies exists|j: int|
                        0 <= j < self.entries@.len() && #[trigger] self.key_at(j) == k by {
                    if k != key {
                        let j = choose|j: int|
                            0 <= j < old(self).entries@.len() && #[trigger] old(self).key_at(j)
                                == k;
                        assert(self.key_at(j) == k);
                    } else {
                        assert(self.key_at(i as int) == k);
                    }
                }
            },
            None => {
                self.entries.push(Entry { tenant, trigger, record });
                self.contents = Ghost(new_contents);
                let ghost n = self.entries@.len() - 1;
                assert forall|j: int| 0 <= j < n implies #[trigger] self.key_at(j) == old(
                    self,
                ).key_at(j) && self.key_at(j) != key by {
                    assert(old(self).contents@.contains_key(old(self).key_at(j)));
                }
                assert forall|k: (Seq<char>, Seq<char>)|
                    self.contents@.contains_key(k) implies exists|j: int|
                        0 <= j < self.entries@.len() && #[trigger] self.key_at(j) == k by {
                    if k != key {
                        let j = choose|j: int|
                            0 <= j < old(self).entries@.len() && #[trigger] old(self).key_at(j)
                                == k;
                        assert(self.key_at(j) == k);
                    } else {
                        assert(self.key_at(n) == k);
                    }
                }
            },
        }
    }

    /// Counts one invocation of (tenant, trigger) and returns the record as counted;
    /// `Ok(None)` where no such command is registered.
    pub fn invoke(&mut self, tenant: &String, trigger: &String) -> (r: Result<
        Option<CommandRecord>,
        RegistryError,
    >)
        requires
            old(self).wf(),
        ensures
            final(self).wf(),
            r is Err <==> exhausted(old(self)@, tenant@, trigger@),
            match r {
                Ok(Some(rec)) => invocation(old(self)@, tenant@, trigger@) == Some(rec@),
                Ok(None) => invocation(old(self)@, tenant@, trigger@) is None,
                Err(e) => e == RegistryError::CounterExhausted,
            },
            r is Ok ==> final(self)@ == after_invocation(old(self)@, tenant@, trigger@),
            r is Err ==> final(self)@ == old(self)@,
    {
        match self.find(tenant, trigger) {
            None => Ok(None),
            Some(i) => {
                if !self.entries[i].record.can_fire() {
                    return Err(RegistryError::CounterExhausted);
                }
                let ghost new_contents = after_invocation(self@, tenant@, trigger@);
                let mut record = self.entries[i].record.duplicate();
                record.fire();
                let result = record.duplicate();
                let t = self.entries[i].tenant.clone();
                let k = self.entries[i].trigger.clone();
                self.entries[i] = Entry { tenant: t, trigger: k, record };
                self.contents = Ghost(new_contents);
                assert forall|j: int| 0 <= j < self.entries@.len() implies #[trigger] self.key_at(j)
                    == old(self).key_at(j) by {}
                assert forall|j: int| 0 <= j < self.entries@.len() implies self.contents@.contains_key(
                    #[trigger] self.key_at(j),
                ) && self.contents@[self.key_at(j)] == self.entries@[j].record@ by {
                    if j != i {
                        assert(old(self).key_at(j) != old(self).key_at(i as int));
                    }
                }
                assert forall|k: (Seq<char>, Seq<char>)|
                    self.contents@.contains_key(k) implies exists|j: int|
                        0 <= j < self.entries@.len() && #[trigger] self.key_at(j) == k by {
                    let j = choose|j: int|
                        0 <= j < old(self).entries@.len() && #[trigger] old(self).key_at(j) == k;
                    assert(self.key_at(j) == k);
                }
                Ok(Some(result))
            },
        }
    }

    /// Deletes the record of (tenant, trigger); `false` where there was none.
    pub fn remove(&mut self, tenant: &String, trigger: &String) -> (r: bool)
        requires
            old(self).wf(),
        ensures
            final(self).wf(),
            r == old(self)@.contains_key((tenant@, trigger@)),
            final(self)@ == old(self)@.remove((tenant@, trigger@)),
    {
        match self.find(tenant, trigger) {
            None => {
                assert(self@.remove((tenant@, trigger@)) =~= self@);
                false
            },
            Some(i) => {
                let ghost key = (tenant@, trigger@);
                let ghost new_contents = self@.remove(key);
                self.entries.remove(i);
                self.contents = Ghost(new_contents);
                assert forall|a: int, b: int|
                    0 <= a < b < self.entries@.len() implies self.key_at(a) != self.key_at(b) by {
                    let oa = if a < i { a } else { a + 1 };
                    let ob = if b < i { b } else { b + 1 };
                    assert(self.key_at(a) == old(self).key_at(oa));
                    assert(self.key_at(b) == old(self).key_at(ob));
                }
                assert forall|a: int| 0 <= a < self.entries@.len() implies self.contents@.contains_key(
                    #[trigger] self.key_at(a),
                ) && self.contents@[self.key_at(a)] == self.entries@[a].record@ by {
                    let oa = if a < i { a } else { a + 1 };
                    assert(self.key_at(a) == old(self).key_at(oa));
                    assert(old(self).key_at(oa) != old(self).key_at(i as int));
                }
                assert forall|k: (Seq<char>, Seq<char>)|
                    self.contents@.contains_key(k) implies exists|j: int|
                        0 <= j < self.entries@.len() && #[trigger] self.key_at(j) == k by {
                    let j = choose|j: int|
                        0 <= j < old(self).entries@.len() && #[trigger] old(self).key_at(j) == k;
                    assert(j != i);
                    let nj = if j < i { j } else { j - 1 };
                    assert(self.key_at(nj) == k);
                }
                true
            },
        }
    }

    /// Every (trigger, record) of a tenant, each once, in no particular order.
    pub fn list(&self, tenant: &String) -> (r: Vec<(String, CommandRecord)>)
        requires
            self.wf(),
        ensures
            lists_tenant(self@, tenant@, listing_view(r@)),
    {
        let mut out: Vec<(String, CommandRecord)> = Vec::new();
        let ghost mut src: Seq<int> = Seq::empty();
        let mut i: usize = 0;
        while i < self.entries.len()
            invariant
                self.wf(),
                i <= self.entries@.len(),
                src.len() == out@.len(),
                forall|j: int|
                    0 <= j < src.len() ==> 0 <= #[trigger] src[j] < i && self.key_at(src[j]) == (
                        tenant@,
                        out@[j].0@,
                    ) && self.entries@[src[j]].record@ == out@[j].1@,
                forall|a: int, b: int| 0 <= a < b < src.len() ==> src[a] < src[b],
                forall|x: int|
                    0 <= x < i && self.entries@[x].tenant@ == tenant@ ==> exists|j: int|
                        0 <= j < src.len() && #[trigger] src[j] == x,
            decreases self.entries@.len() - i,
        {
            let ghost prev = src;
            let e = &self.entries[i];
            if e.tenant == *tenant {
                out.push((e.trigger.clone(), e.record.duplicate()));
                proof {
                    src = src.push(i as int);
                }
            }
            assert forall|x: int|
                0 <= x < i + 1 && self.entries@[x].tenant@ == tenant@ implies exists|j: int|
                    0 <= j < src.len() && #[trigger] src[j] == x by {
                if x < i {
                    let j = choose|j: int| 0 <= j < prev.len() && #[trigger] prev[j] == x;
                    assert(src[j] == x);
                } else {
                    assert(src[src.len() - 1] == x);
                }
            }
            i = i + 1;
        }
        let ghost l = listing_view(out@);
        assert forall|j: int| 0 <= j < l.len() implies self@.contains_key(
            (tenant@, #[trigger] l[j].0),
        ) && self@[(tenant@, l[j].0)] == l[j].1 by {
            assert(self.key_at(src[j]) == (tenant@, l[j].0));
        }
        assert forall|k: Seq<char>| self@.contains_key((tenant@, k)) implies exists|j: int|
            0 <= j < l.len() && (#[trigger] l[j]).0 == k by {
            let x = choose|x: int|
                0 <= x < self.entries@.len() && #[trigger] self.key_at(x) == (tenant@, k);
            let j = choose|j: int| 0 <= j < src.len() && #[trigger] src[j] == x;
            assert(l[j].0 == k);
        }
        assert forall|a: int, b: int| 0 <= a < b < l.len() implies l[a].0 != l[b].0 by {
            assert(self.key_at(src[a]) != self.key_at(src[b]));
        }
        out
    }
}

} // verus!
