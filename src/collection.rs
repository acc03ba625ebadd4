//! Stone collections and how new ones are added.

use vstd::prelude::*;

verus! {

/// A collection of stones: a title, a cover image and the images its stones
/// can be drawn with.
pub struct Collection {
    pub title: String,
    pub image: String,
    pub stone_images: Vec<String>,
}

/// Why a collection was not added.
#[derive(Debug, Clone, Copy, PartialEq, Eq, Structural)]
pub enum CollectionError {
    /// Only the contract's owner adds collections.
    NotOwner,
    /// The title, the image and the stone images must all be non-empty.
    MissingField,
    /// A collection with this title exists already.
    AlreadyExists,
}

/// Whether a collection in `cs` has the title `t`.
pub open spec fn has_title(cs: Seq<Collection>, t: Seq<char>) -> bool {
    exists|i: int| 0 <= i < cs.len() && #[trigger] cs[i].title@ == t
}

/// Whether a collection in `collections` has the title `title`.
pub fn title_taken(collections: &Vec<Collection>, title: &String) -> (r: bool)
    ensures
        r == has_title(collections@, title@),
{
    let mut i: usize = 0;
    while i < collections.len()
        invariant
            i <= collections@.len(),
            forall|j: int| 0 <= j < i ==> collections@[j].title@ != title@,
        decreases collections@.len() - i,
    {
        if collections[i].title == *title {
            return true;
        }
        i += 1;
    }
    false
}

/// Appends a collection to `collections`, where its id is its position
/// counted from 1; no collection may have its title yet.
pub fn add_new_collection(
    collections: &mut Vec<Collection>,
    title: String,
    image: String,
    stone_images: Vec<String>,
)
    requires
        !has_title(old(collections)@, title@),
    ensures
        final(collections)@ == old(collections)@.push(Collection { title, image, stone_images }),
{
    collections.push(Collection { title, image, stone_images });
}

} // verus!
