//! A small table of integers with room reserved up front.
use vstd::prelude::*;

verus! {

/// A growable table of `i32` values, with the room its vector was given.
pub struct HolyTable {
    data: Vec<i32>,
    room: usize,
}

impl View for HolyTable {
    type V = Seq<i32>;

    closed spec fn view(&self) -> Seq<i32> {
        self.data@
    }
}

/// Calls `Vec::capacity`. Trusted: the capacity returned is at least the
/// number of elements the vector holds (it is the number the vector can hold
/// without reallocating); what the allocator gave beyond that is left unstated.
#[verifier::external_body]
fn vec_capacity(v: &Vec<i32>) -> (res: usize)
    ensures
        res >= v@.len(),
{
    v.capacity()
}

impl HolyTable {
    /// The number of values the table can hold without reallocating.
    pub closed spec fn room(&self) -> nat {
        self.room as nat
    }

    /// The table never holds more values than it has room for.
    #[verifier::type_invariant]
    closed spec fn room_holds_values(&self) -> bool {
        self.room >= self.data@.len()
    }
}

/// Whether a table with the given capacity is holy: it has room for at least one value.
pub fn holy_capacity(capacity: usize) -> (res: bool)
    ensures
        res == (capacity > 0),
{
    capacity > 0
}

impl HolyTable {
    /// An empty table with room reserved for `size` values. `Vec::with_capacity`
    /// documents that room as at least `size`; the contract leaves that unsaid,
    /// since the room is read back by a separate call of `Vec::capacity`, which
    /// promises only room for the values held. A size whose bytes exceed
    /// `isize::MAX` makes `Vec::with_capacity` panic, and is left out.
    pub fn new(size: usize) -> (res: HolyTable)
        requires
            size <= isize::MAX / 4,
        ensures
            res@ == Seq::<i32>::empty(),
    {
        let data: Vec<i32> = Vec::with_capacity(size);
        let room = vec_capacity(&data);
        HolyTable { data, room }
    }

    /// The number of values in the table.
    pub fn len(&self) -> (res: usize)
        ensures
            res == self@.len(),
    {
        self.data.len()
    }

    /// The number of values the table can hold without reallocating.
    pub fn capacity(&self) -> (res: usize)
        ensures
            res == self.room(),
            res >= self@.len(),
    {
        proof {
            use_type_invariant(self);
        }
        self.room
    }
}

/// Types that can say whether they are holy.
pub trait Holy {
    /// Whether `self` is holy.
    fn is_holy(&self) -> bool;
}

impl Holy for HolyTable {
    /// A table is holy when its capacity is not zero; one that holds a value always is.
    fn is_holy(&self) -> (res: bool)
        ensures
            res == (self.room() > 0),
            self@.len() > 0 ==> res,
    {
        holy_capacity(self.capacity())
    }
}

} // verus!
