use bumpalo::Bump;
use vstd::prelude::*;

verus! {

/// The bump allocator that an arena allocates from.
#[verifier::external_type_specification]
#[verifier::external_body]
pub struct ExBump<const MIN_ALIGN: usize>(bumpalo::Bump<MIN_ALIGN>);

/// Whether an arena can be asked for `len` bytes at once: the chunk that holds
/// them, with its own bookkeeping, must be a size that an allocation can have.
pub open spec fn allocatable(len: nat) -> bool {
    len + 0x2000 <= isize::MAX
}

/// Room for slices that all live until the arena is reset.
///
/// Every slice handed out borrows from the arena, so none is left when
/// [`Arena::reset`], which takes the arena exclusively, is called.
pub struct Arena {
    bump: Bump,
}

impl Arena {
    /// An arena without room of its own; the first allocation makes some.
    pub fn new() -> Self {
        Self { bump: Bump::new() }
    }

    /// An arena with room for `capacity` bytes.
    pub fn with_capacity(capacity: usize) -> Self
        requires
            allocatable(capacity as nat),
    {
        Self { bump: Bump::with_capacity(capacity) }
    }

    /// Whether `len` bytes can be asked for at once.
    pub fn fits(len: usize) -> (fits: bool)
        ensures
            fits == allocatable(len as nat),
    {
        len <= isize::MAX as usize - 0x2000
    }

    /// A copy of `data` that lives as long as the arena is borrowed.
    pub fn alloc_slice_copy(&self, data: &[u8]) -> (copy: &[u8])
        requires
            allocatable(data@.len()),
        ensures
            copy@ == data@,
    {
        alloc_copy(&self.bump, data)
    }

    /// `len` bytes of the given value, to be written to.
    pub fn alloc_slice_fill_copy(&self, len: usize, value: u8) -> (slice: &mut [u8])
        requires
            allocatable(len as nat),
        ensures
            slice@ == Seq::new(len as nat, |i: int| value),
    {
        alloc_fill(&self.bump, len, value)
    }

    /// Frees everything that was allocated, and keeps the room for later.
    pub fn reset(&mut self) {
        self.bump.reset();
    }
}

impl Default for Arena {
    fn default() -> Self {
        Self::new()
    }
}

/// `Bump::new` gives an empty allocator. Nothing is stated of it: what it holds
/// changes behind shared references, with every allocation.
pub assume_specification[ Bump::new ]() -> Bump;

/// `Bump::with_capacity` gives an empty allocator with room, of which nothing is
/// stated either. It panics where the room cannot be had.
pub assume_specification[ Bump::with_capacity ](capacity: usize) -> Bump
    requires
        allocatable(capacity as nat),
;

/// `Bump::reset` frees everything that was allocated. No slice is left then that
/// could show it, so nothing is stated.
pub assume_specification<const MIN_ALIGN: usize>[ Bump::<MIN_ALIGN>::reset ](
    bump: &mut Bump<MIN_ALIGN>,
);

/// `Bump::alloc_slice_copy` gives a copy of the slice. It panics where the room
/// cannot be had.
#[verifier::external_body]
fn alloc_copy<'a>(bump: &'a Bump, data: &[u8]) -> (copy: &'a [u8])
    requires
        allocatable(data@.len()),
    ensures
        copy@ == data@,
{
    bump.alloc_slice_copy(data)
}

/// `Bump::alloc_slice_fill_copy` gives a slice of the given length in which every
/// byte has the given value. It panics where the room cannot be had.
#[verifier::external_body]
fn alloc_fill<'a>(bump: &'a Bump, len: usize, value: u8) -> (slice: &'a mut [u8])
    requires
        allocatable(len as nat),
    ensures
        slice@ == Seq::new(len as nat, |i: int| value),
{
    bump.alloc_slice_fill_copy(len, value)
}

/// Anything up to two pages short of the largest allocation can be asked for.
pub proof fn all_but_the_largest_sizes_are_allocatable(len: nat)
    ensures
        allocatable(len) <==> len <= isize::MAX - 8192,
{
}

} // verus!
