//! Unit shapes and textures of rendered objects.

use vstd::prelude::*;

verus! {

/// A unit shape variant.
#[derive(Debug, Clone, Copy, PartialEq, Eq, Structural)]
pub enum Unit {
    /// A unit cube `[-1, 1]^3`.
    Cube,
    /// A unit sphere `x^2 + y^2 + z^2 <= 1`.
    Sphere,
}

/// The texture of a rendered object.
#[derive(Debug)]
pub struct Texture {
    url: String,
}

impl Texture {
    /// A texture loaded from `url`, which is compatible with `<img src>`.
    pub fn new(url: String) -> (r: Self)
        ensures
            r.url_view() == url@,
    {
        Texture { url }
    }

    /// The URL of the texture.
    pub closed spec fn url_view(&self) -> Seq<char> {
        self.url@
    }

    /// The URL of the texture.
    pub fn url(&self) -> (r: &String)
        ensures
            r@ == self.url_view(),
    {
        &self.url
    }
}

} // verus!
