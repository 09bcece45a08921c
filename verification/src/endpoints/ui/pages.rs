//! Contents of the gallery and the about page.

use crate::endpoints::api::schema::ImageJson;
use rand::Rng;
use vstd::prelude::*;

verus! {

/// `rand::Rng::random_range` on the thread's generator, over the range from 0
/// up to `n`. An empty range makes it panic, so `n` is positive; all that is
/// claimed of the value is that it lies in the range.
#[verifier::external_body]
fn random_below(n: usize) -> (r: usize)
    requires
        n > 0,
    ensures
        r < n,
{
    rand::rng().random_range(0..n)
}

/// The gallery: the address of every listed image, in the listing's order.
#[derive(Debug)]
pub struct GalleryPage {
    pub images: Vec<String>,
}

/// The about page: how many images are tracked, and the address of one of
/// them.
#[derive(Debug)]
pub struct AboutPage {
    pub image_count: usize,
    pub random_image: String,
}

impl GalleryPage {
    /// The gallery of a listing.
    pub fn new(listing: &Vec<ImageJson>) -> (r: GalleryPage)
        ensures
            r.images@.len() == listing@.len(),
            forall|i: int| 0 <= i < listing@.len() ==> r.images@[i]@ == listing@[i]@.url,
    {
        let mut images: Vec<String> = Vec::new();
        let mut i: usize = 0;
        while i < listing.len()
            invariant
                i <= listing.len(),
                images@.len() == i,
                forall|j: int| 0 <= j < i ==> images@[j]@ == listing@[j]@.url,
            decreases listing.len() - i,
        {
            images.push(listing[i].url.clone());
            i += 1;
        }
        GalleryPage { images }
    }
}

impl AboutPage {
    /// The about page for a store of `image_count` images that shows the
    /// image at position `pick` of the listing. An empty listing has no about
    /// page.
    pub fn new(image_count: usize, listing: &Vec<ImageJson>, pick: usize) -> (r: Option<AboutPage>)
        requires
            listing@.len() > 0 ==> pick < listing@.len(),
        ensures
            r is Some <==> listing@.len() > 0,
            r matches Some(page) ==> page.image_count == image_count && page.random_image@
                == listing@[pick as int]@.url,
    {
        if listing.len() == 0 {
            None
        } else {
            Some(AboutPage { image_count, random_image: listing[pick].url.clone() })
        }
    }

    /// The about page for a store of `image_count` images that shows an image
    /// of the listing picked at random.
    pub fn pick(image_count: usize, listing: &Vec<ImageJson>) -> (r: Option<AboutPage>)
        ensures
            r is Some <==> listing@.len() > 0,
            r matches Some(page) ==> page.image_count == image_count && exists|i: int|
                0 <= i < listing@.len() && page.random_image@ == (#[trigger] listing@[i])@.url,
    {
        if listing.len() == 0 {
            None
        } else {
            let at = random_below(listing.len());
            Self::new(image_count, listing, at)
        }
    }
}

} // verus!
