//! Picking out the supported image files of a folder listing, and what an
//! import yields when the user cancels the picker.

use vstd::prelude::*;
use vstd::utf8::encode_utf8;

verus! {

/// One immediate child of a folder, as the listing reports it.
pub struct DirEntryInfo {
    /// The child's full path.
    pub path: String,
    /// Whether the child is a regular file (not a directory).
    pub is_file: bool,
    /// The part of the file name after its last dot, if the name has one.
    pub extension: Option<String>,
}

/// The supported image extensions, in lower case.
pub open spec fn supported_names() -> Seq<Seq<char>> {
    seq!["jpg"@, "jpeg"@, "png"@, "tiff"@, "tif"@, "bmp"@, "webp"@]
}

/// `b` with an ASCII capital letter turned into its small letter.
pub open spec fn fold_ascii(b: u8) -> u8 {
    if ('A' as u8) <= b <= ('Z' as u8) {
        (b + (('a' as u8) - ('A' as u8))) as u8
    } else {
        b
    }
}

/// `ext` equals `name` once its ASCII capitals are made small.
pub open spec fn matches_folded(ext: Seq<u8>, name: Seq<u8>) -> bool {
    ext.len() == name.len() && forall|j: int| 0 <= j < ext.len() ==> fold_ascii(ext[j]) == name[j]
}

/// `ext` names a supported image type, in any case.
pub open spec fn is_supported_extension(ext: Seq<char>) -> bool {
    exists|i: int|
        0 <= i < supported_names().len() && #[trigger] matches_folded(
            encode_utf8(ext),
            encode_utf8(supported_names()[i]),
        )
}

pub open spec fn is_image_entry(e: DirEntryInfo) -> bool {
    &&& e.is_file
    &&& e.extension matches Some(x) && is_supported_extension(x@)
}

/// The paths of the image files among `entries`, in listing order.
pub open spec fn image_paths(entries: Seq<DirEntryInfo>) -> Seq<Seq<char>>
    decreases entries.len(),
{
    if entries.len() == 0 {
        Seq::empty()
    } else {
        let rest = image_paths(entries.drop_last());
        if is_image_entry(entries.last()) {
            rest.push(entries.last().path@)
        } else {
            rest
        }
    }
}

pub open spec fn paths_view(v: Seq<String>) -> Seq<Seq<char>> {
    v.map_values(|s: String| s@)
}

fn fold_byte(b: u8) -> (r: u8)
    ensures
        r == fold_ascii(b),
{
    if ('A' as u8) <= b && b <= ('Z' as u8) {
        b - ('A' as u8) + ('a' as u8)
    } else {
        b
    }
}

fn matches_name(ext: &[u8], name: &str) -> (r: bool)
    ensures
        r == matches_folded(ext@, encode_utf8(name@)),
{
    let n = name.as_bytes();
    if ext.len() != n.len() {
        return false;
    }
    let mut i: usize = 0;
    while i < ext.len()
        invariant
            ext@.len() == n@.len(),
            n@ == encode_utf8(name@),
            i <= ext@.len(),
            forall|j: int| 0 <= j < i ==> fold_ascii(ext@[j]) == n@[j],
        decreases ext@.len() - i,
    {
        if fold_byte(ext[i]) != n[i] {
            return false;
        }
        i = i + 1;
    }
    true
}

/// Whether `ext` (without its dot) is a supported image extension, ignoring
/// ASCII case.
pub fn is_supported(ext: &str) -> (r: bool)
    ensures
        r == is_supported_extension(ext@),
{
    let b = ext.as_bytes();
    let r = matches_name(b, "jpg") || matches_name(b, "jpeg") || matches_name(b, "png")
        || matches_name(b, "tiff") || matches_name(b, "tif") || matches_name(b, "bmp")
        || matches_name(b, "webp");
    proof {
        let e = encode_utf8(ext@);
        let names = supported_names();
        if r {
            if matches_folded(e, encode_utf8(names[0])) {
            } else if matches_folded(e, encode_utf8(names[1])) {
            } else if matches_folded(e, encode_utf8(names[2])) {
            } else if matches_folded(e, encode_utf8(names[3])) {
            } else if matches_folded(e, encode_utf8(names[4])) {
            } else if matches_folded(e, encode_utf8(names[5])) {
            } else {
                assert(matches_folded(e, encode_utf8(names[6])));
            }
        }
    }
    r
}

/// The supported image extensions, for a file picker's filter.
pub fn supported_extensions() -> (r: Vec<&'static str>)
    ensures
        r@.len() == supported_names().len(),
        forall|i: int| 0 <= i < r@.len() ==> r@[i]@ == #[trigger] supported_names()[i],
{
    let r = vec!["jpg", "jpeg", "png", "tiff", "tif", "bmp", "webp"];
    assert(r@.len() == supported_names().len());
    r
}

/// The paths of the regular files among `entries` whose extension is a
/// supported image extension in any case, in listing order. Directories
/// are left out whatever their name.
pub fn filter_images(entries: &Vec<DirEntryInfo>) -> (r: Vec<String>)
    ensures
        paths_view(r@) == image_paths(entries@),
{
    let mut r: Vec<String> = Vec::new();
    let mut i: usize = 0;
    while i < entries.len()
        invariant
            i <= entries@.len(),
            paths_view(r@) == image_paths(entries@.subrange(0, i as int)),
        decreases entries@.len() - i,
    {
        let e = &entries[i];
        let keep = match &e.extension {
            Some(x) => e.is_file && is_supported(x.as_str()),
            None => false,
        };
        proof {
            let next = entries@.subrange(0, i + 1);
            assert(next.drop_last() =~= entries@.subrange(0, i as int));
            assert(next.last() == entries@[i as int]);
        }
        if keep {
            r.push(e.path.clone());
            assert(paths_view(r@) =~= image_paths(entries@.subrange(0, i + 1)));
        }
        i = i + 1;
    }
    assert(entries@.subrange(0, entries@.len() as int) =~= entries@);
    r
}

/// The image paths of a picked folder. `None` stands for a cancelled
/// picker or a folder that could not be read: both give an empty list, not
/// an error.
pub fn imported_from_folder(listing: Option<Vec<DirEntryInfo>>) -> (r: Vec<String>)
    ensures
        listing is None ==> r@.len() == 0,
        listing matches Some(v) ==> paths_view(r@) == image_paths(v@),
{
    match listing {
        Some(v) => filter_images(&v),
        None => Vec::new(),
    }
}

/// The files chosen in a file picker; a cancelled picker gives an empty
/// list, not an error.
pub fn picked_files(selection: Option<Vec<String>>) -> (r: Vec<String>)
    ensures
        selection is None ==> r@.len() == 0,
        selection matches Some(v) ==> r@ == v@,
{
    match selection {
        Some(v) => v,
        None => Vec::new(),
    }
}

} // verus!
