//! A mirrored service as this crate sees it: its name and its annotations.

use vstd::prelude::*;
use vstd::string::*;

verus! {

/// Annotation key under which a per-cluster shadow service records the name
/// of the headless service that it mirrors.
pub const PARENT_NAME_KEY: &'static str = "mirror.linkerd.io/headless-mirror-svc-name";

/// Annotation key under which a shadow service records the source cluster
/// that it was mirrored from.
pub const CLUSTER_NAME_KEY: &'static str = "mirror.linkerd.io/cluster-name";

/// One annotation of a service.
#[derive(Debug)]
struct Annotation {
    key: String,
    value: String,
}

/// What a service is to the contracts of this crate.
pub struct MirroredServiceView {
    pub name: Seq<char>,
    pub annotations: Map<Seq<char>, Seq<char>>,
}

/// No key stands twice among `entries`.
spec fn keys_unique(entries: Seq<Annotation>) -> bool {
    forall|i: int, j: int|
        0 <= i < entries.len() && 0 <= j < entries.len() && entries[i].key@ == entries[j].key@
            ==> i == j
}

/// `key` stands at index `i` of `entries`.
spec fn key_at(entries: Seq<Annotation>, key: Seq<char>, i: int) -> bool {
    0 <= i < entries.len() && entries[i].key@ == key
}

/// The mapping that `entries` stands for.
spec fn entries_map(entries: Seq<Annotation>) -> Map<Seq<char>, Seq<char>> {
    Map::new(
        |k: Seq<char>| exists|i: int| key_at(entries, k, i),
        |k: Seq<char>| entries[choose|i: int| key_at(entries, k, i)].value@,
    )
}

/// A service resource: a name and a mapping from annotation keys to values,
/// each key held once.
#[derive(Debug)]
pub struct MirroredService {
    name: String,
    entries: Vec<Annotation>,
}

impl View for MirroredService {
    type V = MirroredServiceView;

    closed spec fn view(&self) -> MirroredServiceView {
        MirroredServiceView { name: self.name@, annotations: entries_map(self.entries@) }
    }
}

impl MirroredService {
    #[verifier::type_invariant]
    spec fn well_formed(&self) -> bool {
        keys_unique(self.entries@)
    }

    /// A service of the given name without annotations.
    pub fn new(name: String) -> (svc: MirroredService)
        ensures
            svc@.name == name@,
            svc@.annotations == Map::<Seq<char>, Seq<char>>::empty(),
    {
        let svc = MirroredService { name, entries: Vec::new() };
        proof {
            assert(svc@.annotations =~= Map::<Seq<char>, Seq<char>>::empty());
        }
        svc
    }

    /// The service's name.
    pub fn name(&self) -> (name: &str)
        ensures
            name@ == self@.name,
    {
        self.name.as_str()
    }

    /// Where among the entries `key` stands.
    fn position(&self, key: &str) -> (found: Option<usize>)
        ensures
            match found {
                Some(i) => key_at(self.entries@, key@, i as int),
                None => !self@.annotations.contains_key(key@),
            },
    {
        let wanted = String::from_str(key);
        let n: usize = self.entries.len();
        let mut i: usize = 0;
        while i < n
            invariant
                n == self.entries@.len(),
                i <= n,
                wanted@ == key@,
                forall|j: int| 0 <= j < i ==> !key_at(self.entries@, key@, j),
            decreases n - i,
        {
            if self.entries[i].key == wanted {
                return Some(i);
            }
            i = i + 1;
        }
        None
    }

    /// The value recorded under `key`, if the service has that annotation.
    pub fn annotation(&self, key: &str) -> (value: Option<&str>)
        ensures
            match value {
                Some(v) => self@.annotations.contains_key(key@) && v@ == self@.annotations[key@],
                None => !self@.annotations.contains_key(key@),
            },
    {
        match self.position(key) {
            Some(i) => {
                proof {
                    use_type_invariant(self);
                    lemma_entry_in_map(self.entries@, i as int);
                }
                Some(self.entries[i].value.as_str())
            },
            None => None,
        }
    }

    /// The service with `value` recorded under `key`, in place of what stood
    /// there before.
    pub fn with_annotation(self, key: String, value: String) -> (svc: MirroredService)
        ensures
            svc@.name == self@.name,
            svc@.annotations == self@.annotations.insert(key@, value@),
    {
        proof {
            use_type_invariant(&self);
        }
        let found = self.position(key.as_str());
        let MirroredService { name, mut entries } = self;
        let ghost before = entries@;
        let entry = Annotation { key, value };
        match found {
            Some(i) => {
                entries.set(i, entry);
                proof {
                    lemma_replace_entry(before, i as int, entry);
                }
            },
            None => {
                entries.push(entry);
                proof {
                    lemma_push_entry(before, entry);
                }
            },
        }
        MirroredService { name, entries }
    }
}

/// With unique keys, the entry at index `i` is what the mapping holds under
/// its key.
proof fn lemma_entry_in_map(entries: Seq<Annotation>, i: int)
    requires
        keys_unique(entries),
        0 <= i < entries.len(),
    ensures
        entries_map(entries).contains_key(entries[i].key@),
        entries_map(entries)[entries[i].key@] == entries[i].value@,
{
    let k = entries[i].key@;
    assert(key_at(entries, k, i));
    let c = choose|c: int| key_at(entries, k, c);
    assert(c == i);
}

/// Replacing the entry that holds a key updates the mapping at that key.
proof fn lemma_replace_entry(entries: Seq<Annotation>, i: int, entry: Annotation)
    requires
        keys_unique(entries),
        key_at(entries, entry.key@, i),
    ensures
        keys_unique(entries.update(i, entry)),
        entries_map(entries.update(i, entry)) == entries_map(entries).insert(
            entry.key@,
            entry.value@,
        ),
{
    let after = entries.update(i, entry);
    assert forall|a: int, b: int|
        0 <= a < after.len() && 0 <= b < after.len() && after[a].key@ == after[b].key@ implies a
        == b by {
        assert(after[a].key@ == entries[a].key@);
        assert(after[b].key@ == entries[b].key@);
    }
    let lhs = entries_map(after);
    let rhs = entries_map(entries).insert(entry.key@, entry.value@);
    assert forall|k: Seq<char>| lhs.contains_key(k) <==> rhs.contains_key(k) by {
        if lhs.contains_key(k) {
            let c = choose|c: int| key_at(after, k, c);
            assert(key_at(entries, k, c));
        }
        if rhs.contains_key(k) {
            if k == entry.key@ {
                assert(key_at(after, k, i));
            } else {
                let c = choose|c: int| key_at(entries, k, c);
                assert(key_at(after, k, c));
            }
        }
    }
    assert forall|k: Seq<char>| lhs.contains_key(k) implies lhs[k] == rhs[k] by {
        let c = choose|c: int| key_at(after, k, c);
        lemma_entry_in_map(after, c);
        if k != entry.key@ {
            assert(c != i);
            lemma_entry_in_map(entries, c);
        } else {
            assert(key_at(after, k, i));
        }
    }
    assert(lhs =~= rhs);
}

/// Appending an entry under a key not held yet adds it to the mapping.
proof fn lemma_push_entry(entries: Seq<Annotation>, entry: Annotation)
    requires
        keys_unique(entries),
        !entries_map(entries).contains_key(entry.key@),
    ensures
        keys_unique(entries.push(entry)),
        entries_map(entries.push(entry)) == entries_map(entries).insert(
            entry.key@,
            entry.value@,
        ),
{
    let after = entries.push(entry);
    let last = entries.len() as int;
    assert forall|a: int, b: int|
        0 <= a < after.len() && 0 <= b < after.len() && after[a].key@ == after[b].key@ implies a
        == b by {
        if a < last && b == last {
            assert(key_at(entries, entry.key@, a));
        }
        if b < last && a == last {
            assert(key_at(entries, entry.key@, b));
        }
    }
    let lhs = entries_map(after);
    let rhs = entries_map(entries).insert(entry.key@, entry.value@);
    assert forall|k: Seq<char>| lhs.contains_key(k) <==> rhs.contains_key(k) by {
        if lhs.contains_key(k) {
            let c = choose|c: int| key_at(after, k, c);
            if c < last {
                assert(key_at(entries, k, c));
            }
        }
        if rhs.contains_key(k) {
            if k == entry.key@ {
                assert(key_at(after, k, last));
            } else {
                let c = choose|c: int| key_at(entries, k, c);
                assert(key_at(after, k, c));
            }
        }
    }
    assert forall|k: Seq<char>| lhs.contains_key(k) implies lhs[k] == rhs[k] by {
        let c = choose|c: int| key_at(after, k, c);
        lemma_entry_in_map(after, c);
        if c < last {
            assert(key_at(entries, k, c));
            lemma_entry_in_map(entries, c);
        }
    }
    assert(lhs =~= rhs);
}

} // verus!
