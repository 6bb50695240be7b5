//! What a service registry answers when asked for the services of one name,
//! stated over the names it holds, with a registry held in memory.

use vstd::prelude::*;
use vstd::string::*;

verus! {

/// The names that `names` holds, as character sequences.
pub open spec fn names_of(names: Seq<String>) -> Seq<Seq<char>> {
    names.map_values(|name: String| name@)
}

/// What a registry that holds the services `registry` lists for `name`:
/// those whose name is exactly `name`, in the registry's order.
pub open spec fn exact_name_matches(registry: Seq<Seq<char>>, name: Seq<char>) -> Seq<Seq<char>> {
    registry.filter(|held: Seq<char>| held == name)
}

/// `registry` holds exactly one service named `name`.
pub open spec fn holds_once(registry: Seq<Seq<char>>, name: Seq<char>) -> bool {
    exists|i: int|
        0 <= i < registry.len() && registry[i] == name && forall|j: int|
            0 <= j < registry.len() && registry[j] == name ==> j == i
}

/// `registry` holds no service named `name`.
pub open spec fn holds_none(registry: Seq<Seq<char>>, name: Seq<char>) -> bool {
    forall|i: int| 0 <= i < registry.len() ==> registry[i] != name
}

/// How many services named `name` the registry `registry` holds.
pub open spec fn count_named(registry: Seq<Seq<char>>, name: Seq<char>) -> nat
    decreases registry.len(),
{
    if registry.len() == 0 {
        0
    } else {
        count_named(registry.drop_last(), name) + if registry.last() == name {
            1nat
        } else {
            0nat
        }
    }
}

/// A listing by name holds as many services as the registry holds under
/// that name, each of them named so.
pub proof fn lemma_matches_count(registry: Seq<Seq<char>>, name: Seq<char>)
    ensures
        exact_name_matches(registry, name).len() == count_named(registry, name),
        forall|i: int|
            0 <= i < exact_name_matches(registry, name).len() ==> exact_name_matches(
                registry,
                name,
            )[i] == name,
    decreases registry.len(),
{
    reveal(Seq::filter);
    if registry.len() > 0 {
        lemma_matches_count(registry.drop_last(), name);
    }
}

/// The count is zero exactly where no service has the name.
pub proof fn lemma_count_none(registry: Seq<Seq<char>>, name: Seq<char>)
    ensures
        count_named(registry, name) == 0 <==> holds_none(registry, name),
    decreases registry.len(),
{
    if registry.len() > 0 {
        let front = registry.drop_last();
        lemma_count_none(front, name);
        if holds_none(registry, name) {
            assert forall|i: int| 0 <= i < front.len() implies front[i] != name by {
                assert(front[i] == registry[i]);
            }
        }
        if count_named(registry, name) == 0 {
            assert forall|i: int| 0 <= i < registry.len() implies registry[i] != name by {
                if i < front.len() {
                    assert(front[i] == registry[i]);
                }
            }
        }
    }
}

/// The count is one exactly where one service, and no other, has the name.
pub proof fn lemma_count_once(registry: Seq<Seq<char>>, name: Seq<char>)
    ensures
        count_named(registry, name) == 1 <==> holds_once(registry, name),
    decreases registry.len(),
{
    if registry.len() > 0 {
        let front = registry.drop_last();
        let last = registry.len() - 1;
        lemma_count_once(front, name);
        lemma_count_none(front, name);
        if count_named(registry, name) == 1 {
            if registry.last() == name {
                assert(holds_none(front, name));
                assert forall|j: int|
                    0 <= j < registry.len() && registry[j] == name implies j == last by {
                    if j < last {
                        assert(front[j] == registry[j]);
                    }
                }
                assert(holds_once(registry, name));
            } else {
                assert(holds_once(front, name));
                let i = choose|i: int|
                    0 <= i < front.len() && front[i] == name && forall|j: int|
                        0 <= j < front.len() && front[j] == name ==> j == i;
                assert(registry[i] == name);
                assert forall|j: int|
                    0 <= j < registry.len() && registry[j] == name implies j == i by {
                    if j < last {
                        assert(front[j] == registry[j]);
                    }
                }
                assert(holds_once(registry, name));
            }
        }
        if holds_once(registry, name) {
            let i = choose|i: int|
                0 <= i < registry.len() && registry[i] == name && forall|j: int|
                    0 <= j < registry.len() && registry[j] == name ==> j == i;
            if i == last {
                assert forall|j: int| 0 <= j < front.len() implies front[j] != name by {
                    assert(front[j] == registry[j]);
                }
                assert(holds_none(front, name));
            } else {
                assert(front[i] == registry[i]);
                assert forall|j: int|
                    0 <= j < front.len() && front[j] == name implies j == i by {
                    assert(front[j] == registry[j]);
                }
                assert(holds_once(front, name));
                assert(registry.last() != name);
            }
        }
    }
}

/// The services named `name` in a registry held in memory, in its order.
pub fn list_by_exact_name(registry: &Vec<String>, name: &str) -> (found: Vec<String>)
    ensures
        names_of(found@) == exact_name_matches(names_of(registry@), name@),
{
    let wanted = String::from_str(name);
    let n: usize = registry.len();
    let mut found: Vec<String> = Vec::new();
    let mut i: usize = 0;
    proof {
        reveal(Seq::filter);
        assert(names_of(registry@).subrange(0, 0) =~= Seq::<Seq<char>>::empty());
        assert(names_of(found@) =~= Seq::<Seq<char>>::empty());
    }
    while i < n
        invariant
            n == registry@.len(),
            i <= n,
            wanted@ == name@,
            names_of(found@) == exact_name_matches(
                names_of(registry@).subrange(0, i as int),
                name@,
            ),
        decreases n - i,
    {
        let ghost before = names_of(found@);
        let ghost seen = names_of(registry@).subrange(0, i as int);
        let ghost next = names_of(registry@).subrange(0, i + 1);
        proof {
            reveal(Seq::filter);
            assert(next.drop_last() =~= seen);
            assert(next.last() == registry@[i as int]@);
        }
        if registry[i] == wanted {
            found.push(registry[i].clone());
            proof {
                assert(names_of(found@) =~= before.push(name@));
            }
        }
        i = i + 1;
    }
    proof {
        assert(names_of(registry@).subrange(0, n as int) =~= names_of(registry@));
    }
    found
}

} // verus!
