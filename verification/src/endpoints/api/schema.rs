//! Entries of the image listing, and the query of a single image.

use crate::image_cache::image::Image;
use vstd::prelude::*;
use vstd::std_specs::convert::FromSpecImpl;

verus! {

/// One image of the listing: when its file was created, in milliseconds
/// since the epoch, and where it can be fetched.
#[derive(Debug, PartialEq, Eq)]
pub struct ImageJson {
    pub date: i64,
    pub url: String,
}

/// What an `ImageJson` stands for in contracts.
pub struct ImageJsonView {
    pub date: i64,
    pub url: Seq<char>,
}

impl View for ImageJson {
    type V = ImageJsonView;

    open spec fn view(&self) -> ImageJsonView {
        ImageJsonView { date: self.date, url: self.url@ }
    }
}

impl Clone for ImageJson {
    fn clone(&self) -> (r: Self)
        ensures
            r@ == self@,
    {
        ImageJson { date: self.date, url: self.url.clone() }
    }
}

impl From<(String, Image)> for ImageJson {
    /// The listing entry of a record that can be fetched at `url`.
    fn from(pair: (String, Image)) -> (r: Self) {
        ImageJson { url: pair.0, date: pair.1.image_age }
    }
}

impl FromSpecImpl<(String, Image)> for ImageJson {
    open spec fn obeys_from_spec() -> bool {
        true
    }

    open(crate) spec fn from_spec(pair: (String, Image)) -> Self {
        ImageJson { url: pair.0, date: pair.1.image_age }
    }
}

/// The answer to a request for the newest image.
#[derive(Debug)]
pub struct DailyImage {
    pub image: ImageJson,
}

/// The answer to a request for the listing.
#[derive(Debug)]
pub struct Images {
    pub images: Vec<ImageJson>,
}

/// The query part of a request for one image.
#[derive(Debug)]
pub struct CompressQuery {
    pub compress: Option<String>,
}

impl CompressQuery {
    /// Whether the compressed derivative is asked for: the parameter is
    /// present, whatever its value.
    pub fn wants_compressed(&self) -> (r: bool)
        ensures
            r == (self.compress is Some),
    {
        self.compress.is_some()
    }
}

} // verus!
