use vstd::prelude::*;

verus! {

/// Where a new connection goes.
#[derive(Clone, Copy, Debug, PartialEq, Eq, Structural)]
pub enum Admission {
    /// To the hub at this position of the manager's order.
    Join(usize),
    /// To a hub created for it.
    Create,
}

/// Position of the first hub with the fewest players.
pub open spec fn first_min(counts: Seq<i32>, i: int) -> bool {
    &&& 0 <= i < counts.len()
    &&& forall|j: int| 0 <= j < counts.len() ==> counts[i] <= #[trigger] counts[j]
    &&& forall|j: int| 0 <= j < i ==> counts[i] < #[trigger] counts[j]
}

/// Picks the hub for a new connection from the hubs' player counts, in the
/// manager's order: the first hub with the fewest players, if it has fewer
/// than `max_player_count`; otherwise a new hub.
pub fn choose_hub(counts: &Vec<i32>, max_player_count: i32) -> (r: Admission)
    ensures
        r matches Admission::Join(i) ==> first_min(counts@, i as int) && counts@[i as int]
            < max_player_count,
        r is Create ==> forall|i: int| first_min(counts@, i) ==> counts@[i] >= max_player_count,
{
    if counts.len() == 0 {
        return Admission::Create;
    }
    let mut best: usize = 0;
    let mut i: usize = 1;
    while i < counts.len()
        invariant
            0 <= best < i <= counts.len(),
            forall|j: int| 0 <= j < i ==> counts@[best as int] <= #[trigger] counts@[j],
            forall|j: int| 0 <= j < best ==> counts@[best as int] < #[trigger] counts@[j],
        decreases counts.len() - i,
    {
        if counts[i] < counts[best] {
            best = i;
        }
        i = i + 1;
    }
    if counts[best] < max_player_count {
        Admission::Join(best)
    } else {
        proof {
            assert forall|k: int| first_min(counts@, k) implies counts@[k] >= max_player_count by {
                if k < best {
                } else if k > best {
                }
            }
        }
        Admission::Create
    }
}

} // verus!
