use vstd::prelude::*;
use crate::container::{unknown_extension, unknown_extension_bytes};

verus! {

/// The canonical suffix of a container file name: `.yava`.
pub open spec fn yava_suffix() -> Seq<u8> {
    seq![46u8, 121u8, 97u8, 118u8, 97u8]
}

/// The suffix of a rewritten container's file name: `_modified.yava`.
pub open spec fn modified_suffix() -> Seq<u8> {
    seq![95u8, 109u8, 111u8, 100u8, 105u8, 102u8, 105u8, 101u8, 100u8, 46u8, 121u8, 97u8,
        118u8, 97u8]
}

/// The position of the last dot in a file name, if any.
pub open spec fn last_dot(name: Seq<u8>) -> Option<int>
    decreases name.len(),
{
    if name.len() == 0 {
        None
    } else if name[name.len() - 1] == 46u8 {
        Some(name.len() - 1)
    } else {
        last_dot(name.subrange(0, name.len() - 1))
    }
}

/// The stem of a file name: everything before the last dot. A name
/// without a dot, or with a dot only at its start, is its own stem.
pub open spec fn stem_of(name: Seq<u8>) -> Seq<u8> {
    match last_dot(name) {
        Some(j) => if j > 0 {
            name.subrange(0, j)
        } else {
            name
        },
        None => name,
    }
}

/// The extension of a file name: everything after the last dot, when a
/// dot stands past the first byte; `unknown` otherwise.
pub open spec fn extension_of(name: Seq<u8>) -> Seq<u8> {
    match last_dot(name) {
        Some(j) => if j > 0 {
            name.subrange(j + 1, name.len() as int)
        } else {
            unknown_extension()
        },
        None => unknown_extension(),
    }
}

/// Whether a file name ends in the container suffix `.yava`.
pub open spec fn is_container_name(name: Seq<u8>) -> bool {
    name.len() >= 5 && name.subrange(name.len() - 5, name.len() as int) == yava_suffix()
}

/// Finds the position of the last dot in a file name.
fn find_last_dot(name: &Vec<u8>) -> (r: Option<usize>)
    ensures
        match r {
            Some(j) => last_dot(name@) == Some(j as int) && j < name@.len(),
            None => last_dot(name@) is None,
        },
{
    let mut i: usize = name.len();
    proof {
        assert(name@.subrange(0, name@.len() as int) =~= name@);
    }
    while i > 0
        invariant
            i <= name@.len(),
            last_dot(name@) == last_dot(name@.subrange(0, i as int)),
        decreases i,
    {
        if name[i - 1] == 46 {
            proof {
                assert(name@.subrange(0, i as int)[i - 1] == 46u8);
            }
            return Some(i - 1);
        }
        proof {
            assert(name@.subrange(0, i as int).subrange(0, i - 1) =~= name@.subrange(0, i - 1));
        }
        i = i - 1;
    }
    proof {
        assert(name@.subrange(0, 0) =~= Seq::<u8>::empty());
    }
    None
}

/// Copies the bytes of `name` between `a` and `b` into a fresh vector.
fn copy_range(name: &Vec<u8>, a: usize, b: usize) -> (r: Vec<u8>)
    requires
        a <= b <= name@.len(),
    ensures
        r@ == name@.subrange(a as int, b as int),
{
    let mut r: Vec<u8> = Vec::new();
    let mut i: usize = a;
    while i < b
        invariant
            a <= i <= b <= name@.len(),
            r@ =~= name@.subrange(a as int, i as int),
        decreases b - i,
    {
        r.push(name[i]);
        i = i + 1;
    }
    r
}

/// The stem of a file name: everything before the last dot.
pub fn stem_bytes(name: &Vec<u8>) -> (r: Vec<u8>)
    ensures
        r@ == stem_of(name@),
{
    match find_last_dot(name) {
        Some(j) => {
            if j > 0 {
                copy_range(name, 0, j)
            } else {
                let w = copy_range(name, 0, name.len());
                proof {
                    assert(name@.subrange(0, name@.len() as int) =~= name@);
                }
                w
            }
        },
        None => {
            let w = copy_range(name, 0, name.len());
            proof {
                assert(name@.subrange(0, name@.len() as int) =~= name@);
            }
            w
        },
    }
}

/// The extension of a file name: everything after the last dot, when a
/// dot stands past the first byte; `unknown` otherwise.
pub fn extension_bytes(name: &Vec<u8>) -> (r: Vec<u8>)
    ensures
        r@ == extension_of(name@),
{
    let n = name.len();
    match find_last_dot(name) {
        Some(j) => {
            if j > 0 {
                copy_range(name, j + 1, n)
            } else {
                unknown_extension_bytes()
            }
        },
        None => unknown_extension_bytes(),
    }
}

/// Whether a file name ends in the container suffix `.yava`. Such a
/// name is treated as a container to extract; any other name is a
/// source to archive.
pub fn has_container_suffix(name: &Vec<u8>) -> (r: bool)
    ensures
        r == is_container_name(name@),
{
    let n = name.len();
    if n < 5 {
        return false;
    }
    let tail = copy_range(name, n - 5, n);
    let r = tail[0] == 46 && tail[1] == 121 && tail[2] == 97 && tail[3] == 118 && tail[4] == 97;
    proof {
        if r {
            assert(tail@ =~= yava_suffix());
        } else {
            assert(tail@ != yava_suffix());
        }
    }
    r
}

/// The container name for a source file: its stem with the `.yava`
/// suffix in place of the extension.
pub fn container_name(name: &Vec<u8>) -> (r: Vec<u8>)
    ensures
        r@ == stem_of(name@) + yava_suffix(),
{
    let mut r = stem_bytes(name);
    r.push(46);
    r.push(121);
    r.push(97);
    r.push(118);
    r.push(97);
    proof {
        assert(r@ =~= stem_of(name@) + yava_suffix());
    }
    r
}

/// The restored name for an extracted container: the container's stem
/// with the stored extension.
pub fn restored_name(name: &Vec<u8>, extension: &Vec<u8>) -> (r: Vec<u8>)
    ensures
        r@ == stem_of(name@) + seq![46u8] + extension@,
{
    let mut r = stem_bytes(name);
    r.push(46);
    let mut k: usize = 0;
    let ghost base = r@;
    while k < extension.len()
        invariant
            k <= extension@.len(),
            r@ =~= base + extension@.subrange(0, k as int),
        decreases extension@.len() - k,
    {
        r.push(extension[k]);
        k = k + 1;
    }
    proof {
        assert(r@ =~= stem_of(name@) + seq![46u8] + extension@);
    }
    r
}

/// The name a rewritten container is written under: the original
/// container's stem with `_modified.yava` appended.
pub fn modified_name(name: &Vec<u8>) -> (r: Vec<u8>)
    ensures
        r@ == stem_of(name@) + modified_suffix(),
{
    let mut r = stem_bytes(name);
    r.push(95); r.push(109); r.push(111); r.push(100); r.push(105); r.push(102); r.push(105);
    r.push(101); r.push(100); r.push(46); r.push(121); r.push(97); r.push(118); r.push(97);
    proof {
        assert(r@ =~= stem_of(name@) + modified_suffix());
    }
    r
}

} // verus!
