//! Strings as the dispatcher reads them: hostnames, asset paths and bodies.

use vstd::prelude::*;
use vstd::string::*;
use vstd::utf8::*;

verus! {

/// The target of a request without its first character, which is the
/// separator in front of the path. The empty target stays empty.
pub open spec fn strip_leading(target: Seq<char>) -> Seq<char> {
    if target.len() > 0 {
        target.subrange(1, target.len() as int)
    } else {
        target
    }
}

/// Whether two strings hold the same characters. Compares the encodings
/// byte by byte; UTF-8 encodes no two texts alike.
pub fn str_eq(a: &str, b: &str) -> (same: bool)
    ensures
        same == (a@ == b@),
{
    let x = a.as_bytes();
    let y = b.as_bytes();
    if x.len() != y.len() {
        return false;
    }
    let mut i: usize = 0;
    while i < x.len()
        invariant
            i <= x@.len(),
            x@.len() == y@.len(),
            x@ == encode_utf8(a@),
            y@ == encode_utf8(b@),
            forall|j: int| 0 <= j < i ==> x@[j] == y@[j],
        decreases x@.len() - i,
    {
        if x[i] != y[i] {
            return false;
        }
        i += 1;
    }
    proof {
        assert(x@ =~= y@);
        encode_utf8_decode_utf8(a@);
        encode_utf8_decode_utf8(b@);
    }
    true
}

/// The asset-path candidate of a request target.
pub fn asset_path(target: &str) -> (path: String)
    ensures
        path@ == strip_leading(target@),
{
    let n = target.unicode_len();
    if n == 0 {
        target.to_owned()
    } else {
        target.substring_char(1, n).to_owned()
    }
}

/// Whether `needle` is one of the strings of `list`.
pub fn contains_str(list: &Vec<String>, needle: &str) -> (found: bool)
    ensures
        found == list.deep_view().contains(needle@),
{
    let mut i: usize = 0;
    while i < list.len()
        invariant
            i <= list@.len(),
            forall|j: int| 0 <= j < i ==> list.deep_view()[j] != needle@,
        decreases list@.len() - i,
    {
        if str_eq(list[i].as_str(), needle) {
            assert(list.deep_view()[i as int] == needle@);
            return true;
        }
        i += 1;
    }
    false
}

/// A copy of a list of strings.
pub fn clone_strings(list: &Vec<String>) -> (copy: Vec<String>)
    ensures
        copy.deep_view() == list.deep_view(),
{
    let mut copy: Vec<String> = Vec::new();
    let mut i: usize = 0;
    while i < list.len()
        invariant
            i <= list@.len(),
            copy@.len() == i,
            forall|j: int| 0 <= j < i ==> copy@[j]@ == list@[j]@,
        decreases list@.len() - i,
    {
        copy.push(list[i].clone());
        i += 1;
    }
    assert(copy.deep_view() =~= list.deep_view());
    copy
}

/// The UTF-8 encoding of a text.
pub fn text_bytes(text: &str) -> (bytes: Vec<u8>)
    ensures
        bytes@ == encode_utf8(text@),
{
    text.as_bytes_vec()
}

} // verus!
