use vstd::prelude::*;

verus! {

/// The tag key that marks a way as a road or path.
pub open spec fn road_key() -> Seq<char> {
    seq!['h', 'i', 'g', 'h', 'w', 'a', 'y']
}

/// Whether a way with these tag keys is kept: some key is the road key.
pub open spec fn is_road_spec(keys: Seq<String>) -> bool {
    exists|i: int| 0 <= i < keys.len() && (#[trigger] keys[i])@ == road_key()
}

/// Decides from a way's tag keys whether the way is a road and is kept.
pub fn is_road(keys: &Vec<String>) -> (r: bool)
    ensures
        r == is_road_spec(keys@),
{
    let road = "highway".to_owned();
    proof {
        reveal_strlit("highway");
        assert(road@ =~= road_key());
    }
    let mut i: usize = 0;
    while i < keys.len()
        invariant
            0 <= i <= keys.len(),
            road@ == road_key(),
            forall|j: int| 0 <= j < i ==> (#[trigger] keys@[j])@ != road_key(),
        decreases keys.len() - i,
    {
        if keys[i] == road {
            return true;
        }
        i += 1;
    }
    false
}

} // verus!
