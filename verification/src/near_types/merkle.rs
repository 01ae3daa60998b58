//! Binary merkle trees over ordered leaves, and paths from a leaf to the root.

use super::hash::{combine_hash, spec_combine_hash, spec_sha256, CryptoHash};
use crate::codec::Encoded;
use vstd::prelude::*;

verus! {

/// A hash in a merkle tree.
pub type MerkleHash = CryptoHash;

/// The side of a node on which its sibling stands.
#[derive(Clone, Copy, Debug, PartialEq, Eq, Structural)]
pub enum Direction {
    Left,
    Right,
}

/// One step of a path: the hash of the sibling, and the side on which it stands.
#[derive(Clone, Copy, Debug, PartialEq, Eq)]
pub struct MerklePathItem {
    pub hash: MerkleHash,
    pub direction: Direction,
}

/// The steps from a leaf to the root.
pub type MerklePath = Vec<MerklePathItem>;

/// The model of a step.
pub struct SpecMerklePathItem {
    pub hash: Seq<u8>,
    pub direction: Direction,
}

impl DeepView for Direction {
    type V = Direction;

    open spec fn deep_view(&self) -> Direction {
        *self
    }
}

impl DeepView for MerklePathItem {
    type V = SpecMerklePathItem;

    open spec fn deep_view(&self) -> SpecMerklePathItem {
        SpecMerklePathItem { hash: self.hash@, direction: self.direction }
    }
}

impl View for MerklePathItem {
    type V = SpecMerklePathItem;

    open spec fn view(&self) -> SpecMerklePathItem {
        self.deep_view()
    }
}

/// The hash of the parent of the node `current`, whose sibling `item` names.
pub open spec fn spec_path_step(item: SpecMerklePathItem, current: Seq<u8>) -> Seq<u8> {
    match item.direction {
        Direction::Left => spec_combine_hash(item.hash, current),
        Direction::Right => spec_combine_hash(current, item.hash),
    }
}

/// The hash at the end of `path`, walked from `item_hash` on.
pub open spec fn spec_compute_root(path: Seq<SpecMerklePathItem>, item_hash: Seq<u8>) -> Seq<u8>
    decreases path.len(),
{
    if path.len() == 0 {
        item_hash
    } else {
        spec_path_step(path.last(), spec_compute_root(path.drop_last(), item_hash))
    }
}

/// The level above `level`: each pair of neighbours is combined, and a node without a
/// neighbour goes up as it is.
pub open spec fn spec_next_level(level: Seq<Seq<u8>>) -> Seq<Seq<u8>> {
    Seq::new(
        ((level.len() + 1) / 2) as nat,
        |j: int|
            if 2 * j + 1 < level.len() {
                spec_combine_hash(level[2 * j], level[2 * j + 1])
            } else {
                level[2 * j]
            },
    )
}

/// The hash of 32 zero bytes.
pub open spec fn spec_zero_hash() -> Seq<u8> {
    Seq::new(32, |i: int| 0u8)
}

/// The root of the tree over the leaf hashes `level`. Without leaves it is the zero hash.
pub open spec fn spec_merkle_root(level: Seq<Seq<u8>>) -> Seq<u8>
    decreases level.len(),
{
    if level.len() == 0 {
        spec_zero_hash()
    } else if level.len() == 1 {
        level[0]
    } else {
        spec_merkle_root(spec_next_level(level))
    }
}

/// The step from the node `i` of `level` to its parent: none where the node has no
/// neighbour.
pub open spec fn spec_sibling(level: Seq<Seq<u8>>, i: int) -> Seq<SpecMerklePathItem> {
    if i % 2 == 1 {
        seq![SpecMerklePathItem { hash: level[i - 1], direction: Direction::Left }]
    } else if i + 1 < level.len() {
        seq![SpecMerklePathItem { hash: level[i + 1], direction: Direction::Right }]
    } else {
        Seq::empty()
    }
}

/// The path from the node `i` of `level` to the root of the tree over `level`.
pub open spec fn spec_merkle_path(level: Seq<Seq<u8>>, i: int) -> Seq<SpecMerklePathItem>
    decreases level.len(),
{
    if level.len() <= 1 {
        Seq::empty()
    } else {
        spec_sibling(level, i) + spec_merkle_path(spec_next_level(level), i / 2)
    }
}

/// Walking two paths one after the other is walking their concatenation.
pub proof fn lemma_compute_root_concat(
    first: Seq<SpecMerklePathItem>,
    second: Seq<SpecMerklePathItem>,
    item_hash: Seq<u8>,
)
    ensures
        spec_compute_root(first + second, item_hash) == spec_compute_root(
            second,
            spec_compute_root(first, item_hash),
        ),
    decreases second.len(),
{
    if second.len() == 0 {
        assert(first + second =~= first);
    } else {
        assert((first + second).drop_last() =~= first + second.drop_last());
        assert((first + second).last() == second.last());
        lemma_compute_root_concat(first, second.drop_last(), item_hash);
    }
}

/// The path that the tree gives for a leaf leads from that leaf to the root of the tree:
/// for every non-empty sequence of leaf hashes and every index in it.
pub proof fn lemma_merkle_path_leads_to_root(level: Seq<Seq<u8>>, i: int)
    requires
        0 <= i < level.len(),
    ensures
        spec_compute_root(spec_merkle_path(level, i), level[i]) == spec_merkle_root(level),
    decreases level.len(),
{
    if level.len() > 1 {
        let next = spec_next_level(level);
        let sibling = spec_sibling(level, i);
        lemma_compute_root_concat(sibling, spec_merkle_path(next, i / 2), level[i]);
        if sibling.len() == 1 {
            assert(sibling.drop_last().len() == 0);
            assert(spec_compute_root(sibling.drop_last(), level[i]) == level[i]);
            assert(sibling.last() == sibling[0]);
            assert(spec_compute_root(sibling, level[i]) == spec_path_step(sibling[0], level[i]));
        }
        assert(spec_compute_root(sibling, level[i]) == next[i / 2]);
        lemma_merkle_path_leads_to_root(next, i / 2);
    }
}

/// The hash at the end of `path`, walked from `item_hash` on.
pub fn compute_root_from_path(path: &MerklePath, item_hash: MerkleHash) -> (root: MerkleHash)
    ensures
        root@ == spec_compute_root(path.deep_view(), item_hash@),
{
    let mut res = item_hash;
    let mut i: usize = 0;
    while i < path.len()
        invariant
            i <= path.len(),
            res@ == spec_compute_root(path.deep_view().take(i as int), item_hash@),
        decreases path.len() - i,
    {
        let item = &path[i];
        assert(path.deep_view().take(i + 1).drop_last() =~= path.deep_view().take(i as int));
        assert(path.deep_view().take(i + 1).last() == item.deep_view());
        match item.direction {
            Direction::Left => {
                res = combine_hash(&item.hash, &res);
            },
            Direction::Right => {
                res = combine_hash(&res, &item.hash);
            },
        }
        i += 1;
    }
    assert(path.deep_view().take(i as int) =~= path.deep_view());
    res
}

/// Whether `path` leads from `item_hash` to `root`.
pub fn verify_hash(root: MerkleHash, path: &MerklePath, item_hash: MerkleHash) -> (ok: bool)
    ensures
        ok == (spec_compute_root(path.deep_view(), item_hash@) == root@),
{
    compute_root_from_path(path, item_hash) == root
}

/// Whether `path` leads from the leaf `item` to `root`. The hash of a leaf is the hash of
/// its encoding.
pub fn verify_path<T: Encoded>(root: MerkleHash, path: &MerklePath, item: &T) -> (ok: bool)
    requires
        T::encodable(item.deep_view()),
    ensures
        ok == (spec_compute_root(
            path.deep_view(),
            spec_sha256(T::spec_encode(item.deep_view())),
        ) == root@),
{
    verify_hash(root, path, CryptoHash::hash_borsh(item))
}

/// The hashes of the leaves `items`: each is the hash of the encoding of its leaf.
pub open spec fn spec_leaf_hashes<T: Encoded>(items: Seq<T::V>) -> Seq<Seq<u8>> {
    Seq::new(items.len(), |i: int| spec_sha256(T::spec_encode(items[i])))
}

/// The level above `level`.
fn next_level(level: &Vec<MerkleHash>) -> (next: Vec<MerkleHash>)
    requires
        level.len() >= 2,
    ensures
        next.deep_view() == spec_next_level(level.deep_view()),
        next.len() < level.len(),
{
    let count = (level.len() - 1) / 2 + 1;
    let mut next: Vec<MerkleHash> = Vec::new();
    let mut j: usize = 0;
    while j < count
        invariant
            j <= count,
            count == (level.len() + 1) / 2,
            level.len() >= 2,
            next.len() == j,
            forall|k: int| 0 <= k < j ==> next[k]@ == #[trigger] spec_next_level(level.deep_view())[k],
        decreases count - j,
    {
        let hash = if 2 * j + 1 < level.len() {
            combine_hash(&level[2 * j], &level[2 * j + 1])
        } else {
            level[2 * j]
        };
        next.push(hash);
        j += 1;
    }
    assert(next.deep_view() =~= spec_next_level(level.deep_view()));
    next
}

/// The root of the tree over `arr`, and for each leaf its path to the root. Without
/// leaves the root is the zero hash.
pub fn merklize<T: Encoded>(arr: &[T]) -> (r: (MerkleHash, Vec<MerklePath>))
    requires
        forall|i: int| 0 <= i < arr@.len() ==> T::encodable(#[trigger] arr.deep_view()[i]),
    ensures
        r.0@ == spec_merkle_root(spec_leaf_hashes::<T>(arr.deep_view())),
        r.1.len() == arr@.len(),
        forall|i: int|
            0 <= i < arr@.len() ==> (#[trigger] r.1[i]).deep_view() == spec_merkle_path(
                spec_leaf_hashes::<T>(arr.deep_view()),
                i,
            ),
{
    let count = arr.len();
    let ghost leaves = spec_leaf_hashes::<T>(arr.deep_view());
    if count == 0 {
        return (CryptoHash::default(), Vec::new());
    }
    let mut level: Vec<MerkleHash> = Vec::new();
    let mut paths: Vec<MerklePath> = Vec::new();
    let mut places: Vec<usize> = Vec::new();
    let mut i: usize = 0;
    while i < count
        invariant
            i <= count,
            count == arr@.len(),
            leaves == spec_leaf_hashes::<T>(arr.deep_view()),
            forall|k: int| 0 <= k < arr@.len() ==> T::encodable(#[trigger] arr.deep_view()[k]),
            level.len() == i,
            paths.len() == i,
            places.len() == i,
            forall|k: int| 0 <= k < i ==> (#[trigger] level[k])@ == leaves[k],
            forall|k: int| 0 <= k < i ==> (#[trigger] paths[k]).len() == 0,
            forall|k: int| 0 <= k < i ==> #[trigger] places[k] == k,
        decreases count - i,
    {
        assert(arr.deep_view()[i as int] == arr[i as int].deep_view());
        level.push(CryptoHash::hash_borsh(&arr[i]));
        paths.push(Vec::new());
        places.push(i);
        i += 1;
    }
    assert(level.deep_view() =~= leaves);
    while level.len() > 1
        invariant
            count == arr@.len(),
            level.len() >= 1,
            paths.len() == count,
            places.len() == count,
            spec_merkle_root(level.deep_view()) == spec_merkle_root(leaves),
            forall|k: int| 0 <= k < count ==> (#[trigger] places[k]) < level.len(),
            forall|k: int|
                0 <= k < count ==> (#[trigger] paths[k]).deep_view() + spec_merkle_path(
                    level.deep_view(),
                    places[k] as int,
                ) == spec_merkle_path(leaves, k),
        decreases level.len(),
    {
        let ghost before = paths;
        let ghost before_places = places;
        let mut k: usize = 0;
        while k < count
            invariant
                k <= count,
                level.len() > 1,
                paths.len() == count,
                places.len() == count,
                before.len() == count,
                before_places.len() == count,
                forall|m: int| 0 <= m < count ==> (#[trigger] before_places[m]) < level.len(),
                forall|m: int| k <= m < count ==> #[trigger] paths[m] == before[m],
                forall|m: int| k <= m < count ==> #[trigger] places[m] == before_places[m],
                forall|m: int|
                    0 <= m < k ==> (#[trigger] paths[m]).deep_view() == before[m].deep_view()
                        + spec_sibling(level.deep_view(), before_places[m] as int),
                forall|m: int| 0 <= m < k ==> #[trigger] places[m] == before_places[m] / 2,
            decreases count - k,
        {
            let place = places[k];
            let ghost old_path = paths[k as int].deep_view();
            let mut path: MerklePath = Vec::new();
            core::mem::swap(&mut path, &mut paths[k]);
            if place % 2 == 1 {
                path.push(MerklePathItem { hash: level[place - 1], direction: Direction::Left });
            } else if place + 1 < level.len() {
                path.push(MerklePathItem { hash: level[place + 1], direction: Direction::Right });
            }
            assert(path.deep_view() =~= old_path + spec_sibling(level.deep_view(), place as int));
            paths[k] = path;
            places[k] = place / 2;
            k += 1;
        }
        let ghost lower = level.deep_view();
        level = next_level(&level);
        assert forall|m: int| 0 <= m < count implies (#[trigger] paths[m]).deep_view()
            + spec_merkle_path(level.deep_view(), places[m] as int) == spec_merkle_path(
            leaves,
            m,
        ) by {
            let place = before_places[m] as int;
            assert(before[m].deep_view() + spec_merkle_path(lower, place) == spec_merkle_path(
                leaves,
                m,
            ));
            assert(spec_merkle_path(lower, place) == spec_sibling(lower, place) + spec_merkle_path(
                spec_next_level(lower),
                place / 2,
            ));
            assert(paths[m].deep_view() + spec_merkle_path(level.deep_view(), places[m] as int)
                =~= before[m].deep_view() + spec_merkle_path(lower, place));
        }
    }
    assert forall|m: int| 0 <= m < count implies (#[trigger] paths[m]).deep_view()
        == spec_merkle_path(leaves, m) by {
        assert(spec_merkle_path(level.deep_view(), places[m] as int).len() == 0);
        assert(paths[m].deep_view() + spec_merkle_path(level.deep_view(), places[m] as int)
            =~= paths[m].deep_view());
    }
    (level[0], paths)
}

impl Encoded for Direction {
    open spec fn encodable(m: Direction) -> bool {
        true
    }

    open spec fn spec_encode(m: Direction) -> Seq<u8> {
        match m {
            Direction::Left => seq![0u8],
            Direction::Right => seq![1u8],
        }
    }

    open spec fn spec_parse(bytes: Seq<u8>) -> Option<(Direction, int)> {
        if bytes.len() >= 1 && bytes[0] == 0 {
            Some((Direction::Left, 1))
        } else if bytes.len() >= 1 && bytes[0] == 1 {
            Some((Direction::Right, 1))
        } else {
            None
        }
    }

    proof fn lemma_parse_encode(m: Direction, rest: Seq<u8>) {
    }

    proof fn lemma_parse_within(bytes: Seq<u8>) {
    }

    fn is_encodable(&self) -> (b: bool) {
        true
    }

    fn encode_into(&self, out: &mut Vec<u8>) {
        match self {
            Direction::Left => {
                out.push(0u8);
            },
            Direction::Right => {
                out.push(1u8);
            },
        }
        assert(out@ =~= old(out)@ + Self::spec_encode(self.deep_view()));
    }

    fn parse(bytes: &[u8], pos: usize) -> (r: Option<(Self, usize)>) {
        if pos >= bytes.len() {
            return None;
        }
        let tag = bytes[pos];
        if tag == 0 {
            Some((Direction::Left, pos + 1))
        } else if tag == 1 {
            Some((Direction::Right, pos + 1))
        } else {
            None
        }
    }
}

impl Encoded for MerklePathItem {
    open spec fn encodable(m: SpecMerklePathItem) -> bool {
        m.hash.len() == 32
    }

    open spec fn spec_encode(m: SpecMerklePathItem) -> Seq<u8> {
        m.hash + Direction::spec_encode(m.direction)
    }

    open spec fn spec_parse(bytes: Seq<u8>) -> Option<(SpecMerklePathItem, int)> {
        if bytes.len() >= 33 {
            match Direction::spec_parse(bytes.skip(32)) {
                Some((direction, _)) => Some(
                    (SpecMerklePathItem { hash: bytes.subrange(0, 32), direction }, 33),
                ),
                None => None,
            }
        } else {
            None
        }
    }

    proof fn lemma_parse_encode(m: SpecMerklePathItem, rest: Seq<u8>) {
        let bytes = Self::spec_encode(m) + rest;
        assert(bytes.subrange(0, 32) =~= m.hash);
        assert(bytes.skip(32) =~= Direction::spec_encode(m.direction) + rest);
    }

    proof fn lemma_parse_within(bytes: Seq<u8>) {
    }

    fn is_encodable(&self) -> (b: bool) {
        true
    }

    fn encode_into(&self, out: &mut Vec<u8>) {
        self.hash.encode_into(out);
        self.direction.encode_into(out);
        assert(out@ =~= old(out)@ + Self::spec_encode(self.deep_view()));
    }

    fn parse(bytes: &[u8], pos: usize) -> (r: Option<(Self, usize)>) {
        if bytes.len() - pos < 33 {
            return None;
        }
        let hash = CryptoHash::read(bytes, pos);
        assert(bytes@.skip(pos as int).subrange(0, 32) =~= bytes@.subrange(pos as int, pos + 32));
        assert(bytes@.skip(pos as int).skip(32) =~= bytes@.skip(pos + 32));
        match Direction::parse(bytes, pos + 32) {
            Some((direction, _)) => Some((MerklePathItem { hash, direction }, pos + 33)),
            None => None,
        }
    }
}

} // verus!
