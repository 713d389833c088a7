//! A photo's image files at their various resolutions, and searches over
//! them by minimum dimension.
use vstd::prelude::*;

verus! {

/// One image file at one resolution. Dimensions may be zero when the
/// descriptor gave none.
pub struct PhotoRep {
    pub relative_file_path: String,
    pub width: u16,
    pub height: u16,
}

impl View for PhotoRep {
    type V = (Seq<char>, u16, u16);

    open spec fn view(&self) -> (Seq<char>, u16, u16) {
        (self.relative_file_path@, self.width, self.height)
    }
}

impl PhotoRep {
    pub fn new(relative_path: &str, width: u16, height: u16) -> (r: PhotoRep)
        ensures
            r@ == (relative_path@, width, height),
    {
        PhotoRep { relative_file_path: relative_path.to_owned(), width, height }
    }

    pub fn duplicate(&self) -> (r: PhotoRep)
        ensures
            r@ == self@,
    {
        PhotoRep {
            relative_file_path: self.relative_file_path.clone(),
            width: self.width,
            height: self.height,
        }
    }
}

pub open spec fn spec_max_dim(r: (Seq<char>, u16, u16)) -> u16 {
    if r.1 >= r.2 {
        r.1
    } else {
        r.2
    }
}

pub open spec fn spec_min_dim(r: (Seq<char>, u16, u16)) -> u16 {
    if r.1 <= r.2 {
        r.1
    } else {
        r.2
    }
}

/// Eligible for the "smallest above a floor" search: largest dimension at
/// least the floor and below the search's own ceiling of 12000.
pub open spec fn spec_small_qualifies(r: (Seq<char>, u16, u16), threshold: u16) -> bool {
    spec_max_dim(r) >= threshold && spec_max_dim(r) < 12000
}

/// The ordered list of representations of one photo.
pub struct PhotoRepresentations {
    pub representations: Vec<PhotoRep>,
}

impl View for PhotoRepresentations {
    type V = Seq<(Seq<char>, u16, u16)>;

    open spec fn view(&self) -> Seq<(Seq<char>, u16, u16)> {
        Seq::new(self.representations@.len(), |i: int| self.representations@[i]@)
    }
}

impl PhotoRepresentations {
    pub fn new() -> (r: PhotoRepresentations)
        ensures
            r@ =~= Seq::<(Seq<char>, u16, u16)>::empty(),
    {
        PhotoRepresentations { representations: Vec::new() }
    }

    pub fn add_representation(&mut self, photo_rep: PhotoRep)
        ensures
            final(self)@ =~= old(self)@.push(photo_rep@),
    {
        self.representations.push(photo_rep);
    }

    pub fn len(&self) -> (n: usize)
        ensures
            n == self@.len(),
    {
        self.representations.len()
    }

    pub fn rep_at(&self, i: usize) -> (r: &PhotoRep)
        requires
            i < self@.len(),
        ensures
            r@ == self@[i as int],
    {
        &self.representations[i]
    }

    pub fn duplicate(&self) -> (r: PhotoRepresentations)
        ensures
            r@ == self@,
    {
        let n = self.representations.len();
        let mut reps: Vec<PhotoRep> = Vec::new();
        let mut i: usize = 0;
        while i < n
            invariant
                0 <= i <= n,
                n == self.representations@.len(),
                reps@.len() == i,
                forall|p: int| 0 <= p < i ==> (#[trigger] reps@[p])@ == self.representations@[p]@,
            decreases n - i,
        {
            reps.push(self.representations[i].duplicate());
            i = i + 1;
        }
        let r = PhotoRepresentations { representations: reps };
        proof {
            assert(r@ =~= self@);
        }
        r
    }

    /// The first representation whose largest dimension is minimal among
    /// those at least `min_val` (and below 12000); None when none qualifies.
    pub fn get_smallest_representation_matching_criteria_min_dimension(&self, min_val: u32) -> (r:
        Option<&PhotoRep>)
        ensures
            ({
                let t = min_val as u16;
                match r {
                    Some(rep) => exists|i: int|
                        0 <= i < self@.len() && rep@ == self@[i] && #[trigger] spec_small_qualifies(
                            self@[i],
                            t,
                        ) && (forall|j: int|
                            0 <= j < self@.len() && #[trigger] spec_small_qualifies(self@[j], t)
                                ==> spec_max_dim(self@[i]) <= spec_max_dim(self@[j])) && (forall|
                            j: int,
                        |
                            0 <= j < i && #[trigger] spec_small_qualifies(self@[j], t)
                                ==> spec_max_dim(self@[j]) > spec_max_dim(self@[i])),
                    None => forall|i: int|
                        0 <= i < self@.len() ==> !spec_small_qualifies(#[trigger] self@[i], t),
                }
            }),
    {
        #[verifier::truncate]
        let threshold = min_val as u16;
        let mut smallest_val_found: u16 = 12000;
        let mut smallest_index: Option<usize> = None;
        let n = self.representations.len();
        let mut i: usize = 0;
        while i < n
            invariant
                0 <= i <= n,
                n == self@.len(),
                n == self.representations@.len(),
                threshold == min_val as u16,
                match smallest_index {
                    None => smallest_val_found == 12000 && forall|j: int|
                        0 <= j < i ==> !spec_small_qualifies(#[trigger] self@[j], threshold),
                    Some(b) => b < i && spec_small_qualifies(self@[b as int], threshold)
                        && smallest_val_found == spec_max_dim(self@[b as int]) && (forall|j: int|
                        0 <= j < i && #[trigger] spec_small_qualifies(self@[j], threshold)
                            ==> spec_max_dim(self@[b as int]) <= spec_max_dim(self@[j])) && (forall|
                        j: int,
                    |
                        0 <= j < b && #[trigger] spec_small_qualifies(self@[j], threshold)
                            ==> spec_max_dim(self@[j]) > spec_max_dim(self@[b as int])),
                },
            decreases n - i,
        {
            let rep = &self.representations[i];
            let max_dim = if rep.width >= rep.height {
                rep.width
            } else {
                rep.height
            };
            proof {
                assert(self@[i as int] == self.representations@[i as int]@);
                assert(max_dim == spec_max_dim(self@[i as int]));
            }
            if max_dim >= threshold && max_dim < smallest_val_found {
                smallest_val_found = max_dim;
                smallest_index = Some(i);
            }
            i = i + 1;
        }
        match smallest_index {
            Some(b) => Some(&self.representations[b]),
            None => None,
        }
    }

    /// The first representation whose smallest dimension reaches `min_val`;
    /// when none does and `return_largest_if_not_found` is set, the first
    /// representation attaining the largest smallest-dimension above 1.
    pub fn get_first_representation_matching_criteria_min_dimension(
        &self,
        min_val: u32,
        return_largest_if_not_found: bool,
    ) -> (r: Option<&PhotoRep>)
        ensures
            ({
                let t = min_val as u16;
                match r {
                    Some(rep) => (exists|i: int|
                        0 <= i < self@.len() && rep@ == self@[i] && spec_min_dim(#[trigger] self@[i])
                            >= t && (forall|j: int|
                            0 <= j < i ==> spec_min_dim(#[trigger] self@[j]) < t)) || ((forall|
                        j: int,
                    |
                        0 <= j < self@.len() ==> spec_min_dim(#[trigger] self@[j]) < t)
                        && return_largest_if_not_found && exists|i: int|
                        0 <= i < self@.len() && rep@ == self@[i] && spec_min_dim(#[trigger] self@[i])
                            > 1 && (forall|j: int|
                            0 <= j < self@.len() ==> spec_min_dim(#[trigger] self@[j])
                                <= spec_min_dim(self@[i])) && (forall|j: int|
                            0 <= j < i ==> spec_min_dim(#[trigger] self@[j]) < spec_min_dim(
                                self@[i],
                            ))),
                    None => (forall|j: int|
                        0 <= j < self@.len() ==> spec_min_dim(#[trigger] self@[j]) < t) && (
                    !return_largest_if_not_found || forall|j: int|
                        0 <= j < self@.len() ==> spec_min_dim(#[trigger] self@[j]) <= 1),
                }
            }),
    {
        #[verifier::truncate]
        let threshold = min_val as u16;
        let mut largest_val_found: u16 = 1;
        let mut largest_index: Option<usize> = None;
        let n = self.representations.len();
        let mut i: usize = 0;
        while i < n
            invariant
                0 <= i <= n,
                n == self@.len(),
                n == self.representations@.len(),
                threshold == min_val as u16,
                forall|j: int| 0 <= j < i ==> spec_min_dim(#[trigger] self@[j]) < threshold,
                match largest_index {
                    None => largest_val_found == 1 && forall|j: int|
                        0 <= j < i ==> spec_min_dim(#[trigger] self@[j]) <= 1,
                    Some(b) => b < i && spec_min_dim(self@[b as int]) > 1 && largest_val_found
                        == spec_min_dim(self@[b as int]) && (forall|j: int|
                        0 <= j < i ==> spec_min_dim(#[trigger] self@[j]) <= spec_min_dim(
                            self@[b as int],
                        )) && (forall|j: int|
                        0 <= j < b ==> spec_min_dim(#[trigger] self@[j]) < spec_min_dim(
                            self@[b as int],
                        )),
                },
            decreases n - i,
        {
            let rep = &self.representations[i];
            let min_dim = if rep.width <= rep.height {
                rep.width
            } else {
                rep.height
            };
            proof {
                assert(self@[i as int] == self.representations@[i as int]@);
                assert(min_dim == spec_min_dim(self@[i as int]));
            }
            if min_dim >= threshold {
                return Some(rep);
            }
            if min_dim > largest_val_found {
                largest_val_found = min_dim;
                largest_index = Some(i);
            }
            i = i + 1;
        }
        if !return_largest_if_not_found {
            return None;
        }
        match largest_index {
            Some(b) => Some(&self.representations[b]),
            None => None,
        }
    }
}

/// `i` is the first representation meeting the smallest-dimension floor.
pub open spec fn spec_meets_at(reps: Seq<(Seq<char>, u16, u16)>, t: u16, i: int) -> bool {
    0 <= i < reps.len() && spec_min_dim(reps[i]) >= t && (forall|j: int|
        0 <= j < i ==> spec_min_dim(#[trigger] reps[j]) < t)
}

/// `i` is the first representation attaining the largest smallest-dimension
/// above 1: the fallback the search returns when nothing meets the floor.
pub open spec fn spec_fallback_at(reps: Seq<(Seq<char>, u16, u16)>, i: int) -> bool {
    0 <= i < reps.len() && spec_min_dim(reps[i]) > 1 && (forall|j: int|
        0 <= j < reps.len() ==> spec_min_dim(#[trigger] reps[j]) <= spec_min_dim(reps[i])) && (forall|
        j: int,
    | 0 <= j < i ==> spec_min_dim(#[trigger] reps[j]) < spec_min_dim(reps[i]))
}

/// At most one index is the first to meet the floor.
pub proof fn lemma_meets_at_unique(reps: Seq<(Seq<char>, u16, u16)>, t: u16, i: int, j: int)
    requires
        spec_meets_at(reps, t, i),
        spec_meets_at(reps, t, j),
    ensures
        i == j,
{
    if i < j {
        assert(spec_min_dim(reps[i]) < t);
    }
    if j < i {
        assert(spec_min_dim(reps[j]) < t);
    }
}

/// At most one index is the first strict maximum.
pub proof fn lemma_fallback_at_unique(reps: Seq<(Seq<char>, u16, u16)>, i: int, j: int)
    requires
        spec_fallback_at(reps, i),
        spec_fallback_at(reps, j),
    ensures
        i == j,
{
    if i < j {
        assert(spec_min_dim(reps[i]) < spec_min_dim(reps[j]));
        assert(spec_min_dim(reps[j]) <= spec_min_dim(reps[i]));
    }
    if j < i {
        assert(spec_min_dim(reps[j]) < spec_min_dim(reps[i]));
        assert(spec_min_dim(reps[i]) <= spec_min_dim(reps[j]));
    }
}

/// What `get_first_representation_matching_criteria_min_dimension` returns
/// with the fallback switched on: the first representation meeting the
/// floor, else the first attaining the largest smallest-dimension above 1,
/// else nothing. The two positions are unique, so `choose` picks them.
pub open spec fn spec_first_rep_with_fallback(reps: Seq<(Seq<char>, u16, u16)>, t: u16) -> Option<
    (Seq<char>, u16, u16),
> {
    if exists|i: int| spec_meets_at(reps, t, i) {
        Some(reps[choose|i: int| spec_meets_at(reps, t, i)])
    } else if exists|i: int| spec_fallback_at(reps, i) {
        Some(reps[choose|i: int| spec_fallback_at(reps, i)])
    } else {
        None
    }
}

} // verus!
