//! Which file an address is mapped from.
use vstd::prelude::*;

use crate::native_lib::paths::is_same_path;
use crate::tracee::Mapping;

verus! {

/// Whether the block holds the address.
pub open spec fn covers(mapping: Mapping, addr: usize) -> bool {
    mapping.start <= addr < mapping.start + mapping.size
}

/// Whether the block at `i` is the first that holds the address.
pub open spec fn first_covering(maps: Seq<Mapping>, addr: usize, i: int) -> bool {
    &&& 0 <= i < maps.len()
    &&& covers(maps[i], addr)
    &&& forall|j: int| 0 <= j < i ==> !covers(#[trigger] maps[j], addr)
}

/// The name of the file that a block is mapped from.
pub open spec fn file_of(mapping: Mapping) -> Option<Seq<u8>> {
    match mapping.file {
        Some(name) => Some(name@),
        None => None,
    }
}

/// The name of the file that an address is mapped from.
pub open spec fn file_at(maps: Seq<Mapping>, addr: usize) -> Option<Seq<u8>> {
    if exists|i: int| first_covering(maps, addr, i) {
        file_of(maps[choose|i: int| first_covering(maps, addr, i)])
    } else {
        None
    }
}

/// Whether a block is mapped from the named file.
pub open spec fn from_file(mapping: Mapping, name: Seq<u8>) -> bool {
    file_of(mapping) matches Some(file) && crate::native_lib::paths::same_path(file, name)
}

/// Whether the address lies in a block that is mapped from the named file.
pub open spec fn in_file(maps: Seq<Mapping>, name: Seq<u8>, addr: usize) -> bool {
    exists|i: int|
        0 <= i < maps.len() && from_file(#[trigger] maps[i], name) && covers(maps[i], addr)
}

/// Whether an address lies in a block that is mapped from the same file as libc. Nobody
/// can tell if no file is mapped where libc's `exit` is.
pub open spec fn in_libc(maps: Seq<Mapping>, exit_addr: usize, addr: usize) -> Option<bool> {
    match file_at(maps, exit_addr) {
        Some(name) => Some(in_file(maps, name, addr)),
        None => None,
    }
}

/// Whether the block holds the address.
pub fn is_covered(mapping: &Mapping, addr: usize) -> (found: bool)
    ensures
        found == covers(*mapping, addr),
{
    mapping.start <= addr && addr - mapping.start < mapping.size
}

/// The index of the first block that holds the address.
fn find_covering(maps: &Vec<Mapping>, addr: usize) -> (found: Option<usize>)
    ensures
        match found {
            Some(i) => first_covering(maps@, addr, i as int),
            None => forall|i: int| !first_covering(maps@, addr, i),
        },
{
    let mut i: usize = 0;
    while i < maps.len()
        invariant
            i <= maps@.len(),
            forall|j: int| 0 <= j < i ==> !covers(#[trigger] maps@[j], addr),
        decreases maps@.len() - i,
    {
        if is_covered(&maps[i], addr) {
            return Some(i);
        }
        i = i + 1;
    }
    None
}

proof fn lemma_first_unique(maps: Seq<Mapping>, addr: usize, i: int)
    requires
        first_covering(maps, addr, i),
    ensures
        file_at(maps, addr) == file_of(maps[i]),
{
    let k = choose|k: int| first_covering(maps, addr, k);
    assert(first_covering(maps, addr, k));
    if k < i {
        assert(!covers(maps[k], addr));
    } else if i < k {
        assert(!covers(maps[i], addr));
    }
}

/// Whether an address lies in a block that is mapped from the same file as libc, whose
/// `exit` is at `exit_addr`. When libc is calling its own functions, these are not to be
/// intercepted.
pub fn is_in_libc(maps: &Vec<Mapping>, exit_addr: usize, addr: usize) -> (found: Option<bool>)
    ensures
        found == in_libc(maps@, exit_addr, addr),
{
    let home: usize = match find_covering(maps, exit_addr) {
        Some(home) => home,
        None => return None,
    };
    proof {
        lemma_first_unique(maps@, exit_addr, home as int);
    }
    let libc_name: &Vec<u8> = match &maps[home].file {
        Some(name) => name,
        None => return None,
    };
    let mut i: usize = 0;
    while i < maps.len()
        invariant
            i <= maps@.len(),
            forall|j: int|
                0 <= j < i ==> !(from_file(#[trigger] maps@[j], libc_name@) && covers(
                    maps@[j],
                    addr,
                )),
            file_at(maps@, exit_addr) == Some(libc_name@),
        decreases maps@.len() - i,
    {
        if let Some(name) = &maps[i].file {
            if is_same_path(name, libc_name) && is_covered(&maps[i], addr) {
                assert(from_file(maps@[i as int], libc_name@));
                return Some(true);
            }
        }
        i = i + 1;
    }
    Some(false)
}

/// Libc's own code is found to be libc's own.
pub proof fn law_exit_is_in_libc(maps: Seq<Mapping>, exit_addr: usize)
    ensures
        in_libc(maps, exit_addr, exit_addr) != Some(false),
{
    if file_at(maps, exit_addr) is Some {
        let i = choose|i: int| first_covering(maps, exit_addr, i);
        assert(first_covering(maps, exit_addr, i));
        assert(from_file(maps[i], file_at(maps, exit_addr)->0));
    }
}

/// Libc is the file that is mapped where its `exit` is, in the first block that holds it. An
/// address is in libc if some block that holds it is mapped from a file of that name, and nobody
/// can tell if `exit` is in no block, or in one that is mapped from no file.
pub proof fn law_what_is_in_libc(maps: Seq<Mapping>, exit_addr: usize, addr: usize, home: int)
    ensures
        (0 <= home < maps.len() && maps[home].start <= exit_addr < maps[home].start
            + maps[home].size && (forall|j: int|
            0 <= j < home ==> !(#[trigger] maps[j].start <= exit_addr < maps[j].start
                + maps[j].size))) ==> match maps[home].file {
            Some(libc) => in_libc(maps, exit_addr, addr) == Some(
                exists|i: int|
                    0 <= i < maps.len() && #[trigger] maps[i].start <= addr < maps[i].start
                        + maps[i].size && (maps[i].file matches Some(name)
                        && crate::native_lib::paths::same_path(name@, libc@)),
            ),
            None => in_libc(maps, exit_addr, addr) is None,
        },
        (forall|j: int|
            0 <= j < maps.len() ==> !(#[trigger] maps[j].start <= exit_addr < maps[j].start
                + maps[j].size)) ==> in_libc(maps, exit_addr, addr) is None,
{
    if 0 <= home < maps.len() && maps[home].start <= exit_addr < maps[home].start
        + maps[home].size && (forall|j: int|
        0 <= j < home ==> !(#[trigger] maps[j].start <= exit_addr < maps[j].start + maps[j].size)) {
        assert(first_covering(maps, exit_addr, home)) by {
            assert forall|j: int| 0 <= j < home implies !covers(
                #[trigger] maps[j],
                exit_addr,
            ) by {
                assert(!(maps[j].start <= exit_addr < maps[j].start + maps[j].size));
            }
        }
        lemma_first_unique(maps, exit_addr, home);
        if let Some(libc) = maps[home].file {
            if in_file(maps, libc@, addr) {
                let i = choose|i: int|
                    0 <= i < maps.len() && from_file(#[trigger] maps[i], libc@) && covers(
                        maps[i],
                        addr,
                    );
                assert(maps[i].start <= addr < maps[i].start + maps[i].size);
            }
            if exists|i: int|
                0 <= i < maps.len() && #[trigger] maps[i].start <= addr < maps[i].start
                    + maps[i].size && (maps[i].file matches Some(name)
                    && crate::native_lib::paths::same_path(name@, libc@)) {
                let i = choose|i: int|
                    0 <= i < maps.len() && #[trigger] maps[i].start <= addr < maps[i].start
                        + maps[i].size && (maps[i].file matches Some(name)
                        && crate::native_lib::paths::same_path(name@, libc@));
                assert(from_file(maps[i], libc@) && covers(maps[i], addr));
            }
        }
    }
    if forall|j: int|
        0 <= j < maps.len() ==> !(#[trigger] maps[j].start <= exit_addr < maps[j].start
            + maps[j].size) {
        assert forall|i: int| !first_covering(maps, exit_addr, i) by {
            if 0 <= i < maps.len() {
                assert(!(maps[i].start <= exit_addr < maps[i].start + maps[i].size));
            }
        }
    }
}

} // verus!
