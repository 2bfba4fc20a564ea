//! Helpers for locating the companion map document of an image path.

use vstd::prelude::*;
use vstd::string::StringExecFns;
use vstd::string::StringSliceAdditionalSpecFns;

verus! {

/// The candidate map-document name for a path: the path with the map
/// document suffix appended.
pub fn append(path: String) -> (r: String)
    ensures
        r@ == path@ + ".bmap"@,
{
    path.concat(".bmap")
}

/// Whether byte `i` begins the extension of the final path component: the
/// last dot of the path, with no separator after it, not the component's
/// first byte.
pub open spec fn is_extension_dot(b: Seq<u8>, i: int) -> bool {
    &&& 0 < i < b.len()
    &&& b[i] == 46
    &&& b[i - 1] != 47
    &&& forall|j: int| i < j < b.len() ==> b[j] != 46 && b[j] != 47
}

/// The byte index where the final path component's extension begins (its
/// dot), if the component has one: a component whose only dot starts it has
/// no extension.  Truncating at the returned index drops the extension.
pub fn extension_split(path: &str) -> (r: Option<usize>)
    ensures
        r matches Some(i) ==> is_extension_dot(path.spec_bytes(), i as int),
        r is None ==> forall|i: int| !is_extension_dot(path.spec_bytes(), i),
{
    let b = path.as_bytes();
    let n = b.len();
    let mut k = n;
    while k > 0
        invariant
            k <= n,
            n == b@.len(),
            b@ == path.spec_bytes(),
            forall|j: int| k <= j < n ==> b@[j] != 46 && b@[j] != 47,
        decreases k,
    {
        let c = b[k - 1];
        if c == 47 {
            proof {
                assert forall|i: int| !is_extension_dot(path.spec_bytes(), i) by {
                    if is_extension_dot(path.spec_bytes(), i) {
                        if i < k - 1 {
                            assert(b@[k - 1] == 47);
                        }
                    }
                }
            }
            return None;
        }
        if c == 46 {
            if k - 1 == 0 || b[k - 2] == 47 {
                proof {
                    assert forall|i: int| !is_extension_dot(path.spec_bytes(), i) by {
                        if is_extension_dot(path.spec_bytes(), i) {
                            if i < k - 1 {
                                assert(b@[k - 1] == 46);
                            }
                        }
                    }
                }
                return None;
            }
            proof {
                assert(is_extension_dot(path.spec_bytes(), k - 1));
            }
            return Some(k - 1);
        }
        k -= 1;
    }
    proof {
        assert forall|i: int| !is_extension_dot(path.spec_bytes(), i) by {
            if is_extension_dot(path.spec_bytes(), i) {
                assert(path.spec_bytes()[i] == 46);
            }
        }
    }
    None
}

} // verus!
