//! The task registry: an ordered list of tasks, and the identifiers that select them.
use vstd::prelude::*;
use crate::decimal::{decimal, lemma_decimal_injective, to_decimal};

verus! {

/// The contents of each list.
pub open spec fn list_views<T>(lists: Seq<Vec<T>>) -> Seq<Seq<T>> {
    lists.map_values(|l: Vec<T>| l@)
}

/// The identifier of the task at position `i` of a registry numbered from `start`.
pub open spec fn task_id(start: nat, i: nat) -> Seq<char> {
    decimal(start + i)
}

/// Concatenates the task lists in the order given, each list keeping its own order.
pub fn build_registry<T>(lists: Vec<Vec<T>>) -> (r: Vec<T>)
    ensures
        r@ == list_views(lists@).flatten(),
{
    let ghost whole = list_views(lists@).flatten();
    let mut rest = lists;
    let mut out: Vec<T> = Vec::new();
    while rest.len() > 0
        invariant
            out@ + list_views(rest@).flatten() == whole,
        decreases rest.len(),
    {
        let ghost before = rest@;
        let mut first = rest.remove(0);
        proof {
            assert(list_views(before).drop_first() =~= list_views(rest@));
            assert(list_views(before).first() == first@);
        }
        out.append(&mut first);
        proof {
            assert(out@ + list_views(rest@).flatten() =~= whole);
        }
    }
    proof {
        assert(list_views(rest@) =~= Seq::<Seq<T>>::empty());
        assert(out@ =~= whole);
    }
    out
}

/// The identifier index of a registry numbered from `start`: entry `i` pairs
/// the identifier of position `i` with the task at that position.
pub fn get_fn_map<T: Copy>(fns: &Vec<T>, start: u32) -> (map: Vec<(String, T)>)
    requires
        start + fns@.len() <= u32::MAX + 1,
    ensures
        map@.len() == fns@.len(),
        forall|i: int|
            0 <= i < fns@.len() ==> (#[trigger] map@[i]).0@ == task_id(start as nat, i as nat)
                && map@[i].1 == fns@[i],
{
    let mut map: Vec<(String, T)> = Vec::new();
    let mut i: usize = 0;
    while i < fns.len()
        invariant
            i <= fns@.len(),
            start + fns@.len() <= u32::MAX + 1,
            map@.len() == i,
            forall|j: int|
                0 <= j < i ==> (#[trigger] map@[j]).0@ == task_id(start as nat, j as nat)
                    && map@[j].1 == fns@[j],
        decreases fns@.len() - i,
    {
        let id = to_decimal(start as u64 + i as u64);
        map.push((id, fns[i]));
        i = i + 1;
    }
    map
}

/// Identifiers built for a registry name each position once: they are pairwise
/// distinct, and each is the decimal form of the start plus its position.
pub proof fn lemma_ids_bijective(start: nat, count: nat)
    ensures
        forall|i: nat, j: nat|
            i < count && j < count && #[trigger] task_id(start, i) == #[trigger] task_id(start, j)
                ==> i == j,
{
    assert forall|i: nat, j: nat|
        i < count && j < count && #[trigger] task_id(start, i) == #[trigger] task_id(start, j)
            implies i == j by {
        lemma_decimal_injective(start + i, start + j);
    }
}

/// The position of the entry of the index whose identifier is `key`, if any.
pub fn find_id<T>(map: &Vec<(String, T)>, key: &String) -> (r: Option<usize>)
    ensures
        match r {
            Some(i) => i < map@.len() && map@[i as int].0@ == key@,
            None => forall|i: int| 0 <= i < map@.len() ==> (#[trigger] map@[i]).0@ != key@,
        },
{
    let mut i: usize = 0;
    while i < map.len()
        invariant
            i <= map@.len(),
            forall|j: int| 0 <= j < i ==> (#[trigger] map@[j]).0@ != key@,
        decreases map@.len() - i,
    {
        if map[i].0.eq(key) {
            return Some(i);
        }
        i = i + 1;
    }
    None
}

} // verus!
