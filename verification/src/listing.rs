//! The plain directory listing the tree builder consumes: for every
//! directory its name and, in enumeration order, its files (name and text
//! content) and its subdirectories.  Whoever walks the real filesystem
//! hands the builder one of these; the builder itself never touches disk.

use vstd::prelude::*;

verus! {

/// One file of a listing: its name (with extension) and its text content.
#[derive(Debug)]
pub struct FileListing {
    pub name: String,
    pub content: String,
}

/// Spec-level mirror of [`FileListing`].
pub struct FileListingV {
    pub name: Seq<char>,
    pub content: Seq<char>,
}

impl View for FileListing {
    type V = FileListingV;

    open spec fn view(&self) -> FileListingV {
        FileListingV { name: self.name@, content: self.content@ }
    }
}

impl DeepView for FileListing {
    type V = FileListingV;

    open spec fn deep_view(&self) -> FileListingV {
        self.view()
    }
}

impl Clone for FileListing {
    fn clone(&self) -> (r: Self)
        ensures
            r@ == self@,
    {
        FileListing { name: self.name.clone(), content: self.content.clone() }
    }
}

/// One directory of a listing: its name and its entries, files first, in
/// enumeration order.
#[derive(Debug)]
pub struct DirListing {
    pub name: String,
    pub files: Vec<FileListing>,
    pub dirs: Vec<DirListing>,
}

/// Spec-level mirror of [`DirListing`].
#[verifier::ext_equal]
pub struct DirListingV {
    pub name: Seq<char>,
    pub files: Seq<FileListingV>,
    pub dirs: Seq<DirListingV>,
}

/// The view of one directory listing.
pub open spec fn dir_listing_view(l: DirListing) -> DirListingV
    decreases l,
{
    DirListingV {
        name: l.name@,
        files: l.files@.map_values(|f: FileListing| f@),
        dirs: dir_listings_view(l.dirs@),
    }
}

/// The views of a sequence of directory listings.
pub open spec fn dir_listings_view(s: Seq<DirListing>) -> Seq<DirListingV>
    decreases s,
{
    if s.len() == 0 {
        Seq::empty()
    } else {
        dir_listings_view(s.drop_last()).push(dir_listing_view(s.last()))
    }
}

impl View for DirListing {
    type V = DirListingV;

    open spec fn view(&self) -> DirListingV {
        dir_listing_view(*self)
    }
}

/// The element-wise reading of [`dir_listings_view`].
pub proof fn lemma_dir_listings_view(s: Seq<DirListing>)
    ensures
        dir_listings_view(s).len() == s.len(),
        forall|i: int|
            0 <= i < s.len() ==> #[trigger] dir_listings_view(s)[i] == dir_listing_view(s[i]),
    decreases s.len(),
{
    if s.len() > 0 {
        lemma_dir_listings_view(s.drop_last());
    }
}

} // verus!
