//! File paths, as byte strings with `/` between their components. A path need
//! not be UTF-8.
use crate::bytes::copy_bytes;
use crate::text::text_lossy;
use vstd::prelude::*;

verus! {

/// The byte between the components of a path.
pub const SEPARATOR: u8 = 0x2f;

/// Whether a path is absolute.
pub open spec fn is_absolute(path: Seq<u8>) -> bool {
    path.len() > 0 && path[0] == SEPARATOR
}

/// `path` seen from the directory `base`.
pub open spec fn joined(base: Seq<u8>, path: Seq<u8>) -> Seq<u8> {
    if is_absolute(path) || base.len() == 0 {
        path
    } else if base.last() == SEPARATOR {
        base + path
    } else {
        base.push(SEPARATOR) + path
    }
}

/// Whether a path is absolute.
pub fn absolute(path: &[u8]) -> (found: bool)
    ensures
        found == is_absolute(path@),
{
    path.len() > 0 && path[0] == SEPARATOR
}

fn extend(whole: &mut Vec<u8>, path: &[u8])
    ensures
        final(whole)@ == old(whole)@ + path@,
{
    let ghost before = whole@;
    let mut i: usize = 0;
    while i < path.len()
        invariant
            i <= path@.len(),
            whole@ == before + path@.take(i as int),
        decreases path@.len() - i,
    {
        whole.push(path[i]);
        assert(whole@ =~= before + path@.take(i + 1));
        i = i + 1;
    }
    assert(path@.take(path@.len() as int) =~= path@);
}

/// `path` seen from the directory `base`.
pub fn join(base: &[u8], path: &[u8]) -> (whole: Vec<u8>)
    ensures
        whole@ == joined(base@, path@),
{
    let len: usize = base.len();
    if absolute(path) || len == 0 {
        return copy_bytes(path);
    }
    let mut whole = copy_bytes(base);
    if base[len - 1] != SEPARATOR {
        whole.push(SEPARATOR);
    }
    extend(&mut whole, path);
    whole
}

/// `prefix` followed by the path, as it is shown to people.
pub fn with_path(prefix: &str, path: &[u8]) -> (text: String)
    ensures
        text@ == prefix@ + crate::text::utf8_lossy(path@),
{
    let mut text = prefix.to_string();
    text.append(text_lossy(path).as_str());
    text
}

/// Joining keeps absolute paths as they are and makes every other path start
/// with the directory it is seen from.
pub proof fn law_joined_paths_stay_below_base(base: Seq<u8>, path: Seq<u8>)
    ensures
        is_absolute(path) ==> joined(base, path) == path,
        !is_absolute(path) ==> base.is_prefix_of(joined(base, path)),
        is_absolute(base) ==> is_absolute(joined(base, path)),
{
    if !is_absolute(path) && base.len() > 0 {
        assert(joined(base, path).take(base.len() as int) =~= base);
    }
}

/// A joined path is the path itself if that is absolute or there is nothing to
/// see it from; otherwise the directory comes first, the path last, and
/// between the two stands one separator, the directory's own if it ends with
/// one.
pub proof fn law_joining_paths(base: &[u8], path: &[u8], whole: Vec<u8>)
    requires
        call_ensures(join, (base, path), whole),
    ensures
        path@.len() > 0 && path@[0] == 0x2f ==> whole@ == path@,
        base@.len() == 0 ==> whole@ == path@,
        base@.len() > 0 && !(path@.len() > 0 && path@[0] == 0x2f) ==> {
            let slash: int = if base@.last() == 0x2f {
                0
            } else {
                1
            };
            &&& whole@.len() == base@.len() + slash + path@.len()
            &&& whole@.take(base@.len() as int) == base@
            &&& whole@.skip(base@.len() + slash) == path@
            &&& whole@[base@.len() + slash - 1] == 0x2f
        },
{
    if base@.len() > 0 && !is_absolute(path@) {
        assert(whole@.take(base@.len() as int) =~= base@);
        if base@.last() == SEPARATOR {
            assert(whole@.skip(base@.len() as int) =~= path@);
            assert(whole@[base@.len() - 1] == base@.last());
        } else {
            assert(whole@.skip(base@.len() + 1int) =~= path@);
        }
    }
}

/// A path is absolute exactly if it begins with a separator. A text about a
/// path begins with what is said of it and ends with the path.
pub proof fn law_paths_are_shown(path: &[u8], found: bool, prefix: &str, text: String)
    requires
        call_ensures(absolute, (path,), found),
        call_ensures(with_path, (prefix, path), text),
    ensures
        found <==> path@.len() > 0 && path@[0] == 0x2f,
        crate::text::begins_with(text@, prefix@),
        crate::text::ends_with(text@, crate::text::utf8_lossy(path@)),
        text@.len() == prefix@.len() + crate::text::utf8_lossy(path@).len(),
{
    crate::text::lemma_ends_with(prefix@, crate::text::utf8_lossy(path@));
}

} // verus!
