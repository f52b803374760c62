//! Names of files, compared by their components.
use vstd::prelude::*;

verus! {

/// The byte that parts of a name are separated by.
pub const SLASH: u8 = 0x2F;

/// The only byte of the part that stands for the directory at hand.
pub const DOT: u8 = 0x2E;

/// The parts of a name between its slashes, from the beginning to the end.
pub open spec fn split(name: Seq<u8>) -> Seq<Seq<u8>>
    decreases name.len(),
{
    if name.len() == 0 {
        seq![seq![]]
    } else {
        let before = split(name.drop_last());
        if name.last() == SLASH {
            before.push(seq![])
        } else {
            before.drop_last().push(before.last().push(name.last()))
        }
    }
}

/// Whether a part counts. Empty ones do not, and the directory at hand only counts if it is
/// the first.
pub open spec fn counts(part: Seq<u8>, first: bool) -> bool {
    part.len() > 0 && (first || part != seq![DOT])
}

/// The parts that count.
pub open spec fn counting(parts: Seq<Seq<u8>>) -> Seq<Seq<u8>>
    decreases parts.len(),
{
    if parts.len() == 0 {
        seq![]
    } else {
        let before = counting(parts.drop_last());
        if counts(parts.last(), parts.len() == 1) {
            before.push(parts.last())
        } else {
            before
        }
    }
}

/// The components of a name.
pub open spec fn components(name: Seq<u8>) -> Seq<Seq<u8>> {
    counting(split(name))
}

/// Whether the name starts at the root.
pub open spec fn has_root(name: Seq<u8>) -> bool {
    name.len() > 0 && name[0] == SLASH
}

/// Whether two names have the same components, from the root or not.
pub open spec fn same_path(a: Seq<u8>, b: Seq<u8>) -> bool {
    has_root(a) == has_root(b) && components(a) == components(b)
}

/// The bytes of each part.
pub open spec fn parts_view(parts: Seq<Vec<u8>>) -> Seq<Seq<u8>> {
    parts.map_values(|part: Vec<u8>| part@)
}

/// Whether two parts are the same.
fn same_bytes(a: &Vec<u8>, b: &Vec<u8>) -> (same: bool)
    ensures
        same == (a@ == b@),
{
    if a.len() != b.len() {
        return false;
    }
    let mut i: usize = 0;
    while i < a.len()
        invariant
            i <= a@.len(),
            a@.len() == b@.len(),
            forall|j: int| 0 <= j < i ==> a@[j] == b@[j],
        decreases a@.len() - i,
    {
        if a[i] != b[i] {
            return false;
        }
        i = i + 1;
    }
    assert(a@ =~= b@);
    true
}

/// Whether a part counts.
fn is_counting(part: &Vec<u8>, first: bool) -> (found: bool)
    ensures
        found == counts(part@, first),
{
    if part.len() == 0 {
        return false;
    }
    let dot: bool = part.len() == 1 && part[0] == DOT;
    assert(dot == (part@ == seq![DOT])) by {
        if dot {
            assert(part@ =~= seq![DOT]);
        }
    }
    first || !dot
}

/// Takes a name apart.
fn take_apart(name: &Vec<u8>) -> (parts: Vec<Vec<u8>>)
    ensures
        parts_view(parts@) == components(name@),
{
    let mut done: Vec<Vec<u8>> = Vec::new();
    let mut curr: Vec<u8> = Vec::new();
    let mut first: bool = true;
    let mut i: usize = 0;
    assert(split(name@.take(0)).drop_last() =~= seq![]);
    assert(parts_view(done@) =~= seq![]);
    while i < name.len()
        invariant
            i <= name@.len(),
            ({
                let parts = split(name@.take(i as int));
                &&& parts.len() > 0
                &&& curr@ == parts.last()
                &&& first == (parts.len() == 1)
                &&& parts_view(done@) == counting(parts.drop_last())
            }),
        decreases name@.len() - i,
    {
        let ghost parts = split(name@.take(i as int));
        let ghost next = split(name@.take(i + 1));
        assert(name@.take(i + 1).drop_last() =~= name@.take(i as int));
        let byte: u8 = name[i];
        if byte == SLASH {
            assert(next.drop_last() =~= parts);
            if is_counting(&curr, first) {
                let ghost before = done@;
                done.push(curr);
                assert(parts_view(done@) =~= parts_view(before).push(curr@));
            }
            curr = Vec::new();
            assert(curr@ =~= next.last());
            first = false;
        } else {
            curr.push(byte);
            assert(next.drop_last() =~= parts.drop_last());
        }
        i = i + 1;
    }
    assert(name@.take(i as int) =~= name@);
    if is_counting(&curr, first) {
        let ghost before = done@;
        done.push(curr);
        assert(parts_view(done@) =~= parts_view(before).push(curr@));
    }
    done
}

/// Whether two lists hold the same parts.
fn same_parts(a: &Vec<Vec<u8>>, b: &Vec<Vec<u8>>) -> (same: bool)
    ensures
        same == (parts_view(a@) == parts_view(b@)),
{
    if a.len() != b.len() {
        assert(parts_view(a@).len() != parts_view(b@).len());
        return false;
    }
    let mut i: usize = 0;
    while i < a.len()
        invariant
            i <= a@.len(),
            a@.len() == b@.len(),
            forall|j: int| 0 <= j < i ==> (#[trigger] a@[j])@ == b@[j]@,
        decreases a@.len() - i,
    {
        if !same_bytes(&a[i], &b[i]) {
            assert(parts_view(a@)[i as int] != parts_view(b@)[i as int]);
            return false;
        }
        i = i + 1;
    }
    assert(parts_view(a@) =~= parts_view(b@));
    true
}

/// Whether two names have the same components, from the root or not. Repeated and trailing
/// slashes make no difference.
pub fn is_same_path(a: &Vec<u8>, b: &Vec<u8>) -> (same: bool)
    ensures
        same == same_path(a@, b@),
{
    let a_root: bool = a.len() > 0 && a[0] == SLASH;
    let b_root: bool = b.len() > 0 && b[0] == SLASH;
    a_root == b_root && same_parts(&take_apart(a), &take_apart(b))
}

/// A slash after another, or at the end of a name, makes no difference.
pub proof fn law_extra_slash(name: Seq<u8>, rest: Seq<u8>)
    requires
        name.len() > 0,
    ensures
        same_path(name.push(SLASH), name),
        same_path(name.push(SLASH).push(SLASH) + rest, name.push(SLASH) + rest),
{
    let one = name.push(SLASH);
    assert(one.drop_last() =~= name);
    assert(split(one).drop_last() =~= split(name));
    lemma_extra_slash(name, rest);
}

proof fn lemma_extra_slash(name: Seq<u8>, rest: Seq<u8>)
    ensures
        ({
            let one = split(name.push(SLASH) + rest);
            let two = split(name.push(SLASH).push(SLASH) + rest);
            &&& two.len() > 1
            &&& one.len() > 1
            &&& two.last() == one.last()
            &&& counting(two.drop_last()) == counting(one.drop_last())
            &&& counting(two) == counting(one)
        }),
    decreases rest.len(),
{
    let a = name.push(SLASH);
    let b = a.push(SLASH);
    let one = split(a + rest);
    let two = split(b + rest);
    lemma_split_nonempty(name);
    if rest.len() == 0 {
        assert(a + rest =~= a);
        assert(b + rest =~= b);
        assert(a.drop_last() =~= name);
        assert(b.drop_last() =~= a);
        assert(one.drop_last() =~= split(name));
        assert(two.drop_last() =~= one);
    } else {
        let most = rest.drop_last();
        lemma_extra_slash(name, most);
        assert((a + rest).drop_last() =~= a + most);
        assert((b + rest).drop_last() =~= b + most);
        assert((a + rest).last() == rest.last());
        assert((b + rest).last() == rest.last());
        let one_before = split(a + most);
        let two_before = split(b + most);
        if rest.last() == SLASH {
            assert(one.drop_last() =~= one_before);
            assert(two.drop_last() =~= two_before);
        } else {
            assert(one.drop_last() =~= one_before.drop_last());
            assert(two.drop_last() =~= two_before.drop_last());
        }
    }
}

proof fn lemma_split_nonempty(name: Seq<u8>)
    ensures
        split(name).len() > 0,
    decreases name.len(),
{
    if name.len() > 0 {
        lemma_split_nonempty(name.drop_last());
    }
}

/// A part without slashes is all there is between them.
proof fn lemma_split_part(name: Seq<u8>, part: Seq<u8>)
    requires
        !part.contains(0x2F),
    ensures
        split(part) =~= seq![part],
        split(name.push(0x2F) + part) =~= split(name).push(part),
    decreases part.len(),
{
    let head = name.push(0x2F);
    if part.len() == 0 {
        assert(head + part =~= head);
        assert(head.drop_last() =~= name);
        assert(part =~= seq![]);
    } else {
        let most = part.drop_last();
        let last = part.last();
        assert(part[part.len() - 1] == last);
        assert forall|i: int| 0 <= i < most.len() implies most[i] != 0x2F by {
            assert(part[i] == most[i]);
        }
        lemma_split_part(name, most);
        assert(most.push(last) =~= part);
        assert((head + part).drop_last() =~= head + most);
        assert((head + part).last() == last);
        let before = split(head + most);
        assert(before.drop_last() =~= split(name));
        assert(before.last() == most);
        let alone = split(most);
        assert(alone.drop_last() =~= seq![]);
        assert(alone.last() == most);
    }
}

/// The components of a name are what stands between its slashes. The last part is one of its
/// own unless it is empty or a dot, and is added behind those before it. A name without a slash
/// has itself as its only component, be it a dot or not, and the empty name has none.
pub proof fn law_components(name: Seq<u8>, part: Seq<u8>)
    requires
        !part.contains(0x2F),
    ensures
        components(name.push(0x2F) + part) == (if part.len() == 0 || part =~= seq![0x2Eu8] {
            components(name)
        } else {
            components(name).push(part)
        }),
        components(part) == (if part.len() == 0 {
            seq![]
        } else {
            seq![part]
        }),
{
    lemma_split_part(name, part);
    lemma_split_nonempty(name);
    let parts = split(name).push(part);
    assert(parts.drop_last() =~= split(name));
    assert(split(part).drop_last() =~= seq![]);
    reveal_with_fuel(counting, 2);
    if part =~= seq![0x2Eu8] {
        assert(part == seq![DOT]);
    }
}

/// Two names are the same exactly if both or neither begin with a slash, and their components
/// are the same.
pub proof fn law_same_path(a: Seq<u8>, b: Seq<u8>)
    ensures
        same_path(a, b) <==> ((a.len() > 0 && a[0] == 0x2F) <==> (b.len() > 0 && b[0] == 0x2F))
            && components(a) == components(b),
{
}

} // verus!
