//! UEFI device paths and the order in which disks are tried: the disk
//! that holds the partition the loader came from, its other partitions
//! first, then every other device.

use vstd::prelude::*;

use crate::thunk::le_u16;

verus! {

/// The node type that ends a device path.
pub const END_TYPE: u8 = 0x7F;

/// One node of a device path.
#[derive(Debug)]
pub struct DevicePathNode {
    pub node_type: u8,
    pub sub_type: u8,
    pub data: Vec<u8>,
}

/// A node as plain values: type, subtype and data.
pub open spec fn node_view(n: DevicePathNode) -> (u8, u8, Seq<u8>) {
    (n.node_type, n.sub_type, n.data@)
}

/// The nodes of a path as plain values.
pub open spec fn path_view(p: Seq<DevicePathNode>) -> Seq<(u8, u8, Seq<u8>)> {
    p.map_values(|n: DevicePathNode| node_view(n))
}

/// How one device path stands to another.
#[derive(Clone, Copy, Debug, PartialEq, Eq, Structural)]
pub enum DevicePathRelation {
    /// The same path.
    This,
    /// The first path is a prefix of the second, which has this many nodes more, less one.
    Parent(usize),
    /// The second path is a prefix of the first, which has this many nodes more, less one.
    Child(usize),
    /// Neither is a prefix of the other.
    Unrelated,
}

/// How path `a` stands to path `b`.
pub open spec fn spec_relation(a: Seq<(u8, u8, Seq<u8>)>, b: Seq<(u8, u8, Seq<u8>)>) -> DevicePathRelation {
    let n = if a.len() < b.len() { a.len() } else { b.len() };
    if exists|i: int| 0 <= i < n && a[i] != b[i] {
        DevicePathRelation::Unrelated
    } else if a.len() == b.len() {
        DevicePathRelation::This
    } else if a.len() < b.len() {
        DevicePathRelation::Parent((b.len() - a.len() - 1) as usize)
    } else {
        DevicePathRelation::Child((a.len() - b.len() - 1) as usize)
    }
}

fn same_node(a: &DevicePathNode, b: &DevicePathNode) -> (r: bool)
    ensures
        r == (node_view(*a) == node_view(*b)),
{
    if a.node_type != b.node_type || a.sub_type != b.sub_type || a.data.len() != b.data.len() {
        return false;
    }
    let mut i: usize = 0;
    while i < a.data.len()
        invariant
            i <= a.data@.len(),
            a.data@.len() == b.data@.len(),
            forall|j: int| 0 <= j < i ==> a.data@[j] == b.data@[j],
        decreases a.data@.len() - i,
    {
        if a.data[i] != b.data[i] {
            return false;
        }
        i = i + 1;
    }
    assert(a.data@ =~= b.data@);
    true
}

/// Compares two device paths node by node.
pub fn device_path_relation(a: &[DevicePathNode], b: &[DevicePathNode]) -> (r: DevicePathRelation)
    ensures
        r == spec_relation(path_view(a@), path_view(b@)),
{
    let n = if a.len() < b.len() { a.len() } else { b.len() };
    let ghost av = path_view(a@);
    let ghost bv = path_view(b@);
    let mut i: usize = 0;
    while i < n
        invariant
            n == (if a@.len() < b@.len() { a@.len() } else { b@.len() }),
            i <= n,
            av == path_view(a@),
            bv == path_view(b@),
            forall|j: int| 0 <= j < i ==> av[j] == bv[j],
        decreases n - i,
    {
        if !same_node(&a[i], &b[i]) {
            proof {
                assert(av[i as int] != bv[i as int]);
            }
            return DevicePathRelation::Unrelated;
        }
        i = i + 1;
    }
    if a.len() == b.len() {
        DevicePathRelation::This
    } else if a.len() < b.len() {
        DevicePathRelation::Parent(b.len() - a.len() - 1)
    } else {
        DevicePathRelation::Child(a.len() - b.len() - 1)
    }
}

/// A disk holds the partition at `esp`: its path is the partition's, less the last node.
pub open spec fn holds(paths: Seq<Seq<(u8, u8, Seq<u8>)>>, esp: Seq<(u8, u8, Seq<u8>)>, i: int) -> bool {
    spec_relation(paths[i], esp) == DevicePathRelation::Parent(0)
}

/// Device `j` is a partition of disk `d`, other than the loader's own.
pub open spec fn part_of(paths: Seq<Seq<(u8, u8, Seq<u8>)>>, is_esp: Seq<bool>, d: int, j: int) -> bool {
    !is_esp[j] && spec_relation(paths[j], paths[d]) == DevicePathRelation::Child(0)
}

/// The order after the boot disks `disks` are placed, from the state
/// `(placed, rest)`: each disk's partitions from `rest`, in order, then the disk.
pub open spec fn place_disks(
    paths: Seq<Seq<(u8, u8, Seq<u8>)>>,
    is_esp: Seq<bool>,
    disks: Seq<usize>,
    placed: Seq<usize>,
    rest: Seq<usize>,
) -> (Seq<usize>, Seq<usize>)
    decreases disks.len(),
{
    if disks.len() == 0 {
        (placed, rest)
    } else {
        let d = disks[0] as int;
        place_disks(
            paths,
            is_esp,
            disks.drop_first(),
            placed + rest.filter(|j: usize| part_of(paths, is_esp, d, j as int)) + seq![disks[0]],
            rest.filter(|j: usize| !part_of(paths, is_esp, d, j as int)),
        )
    }
}

/// The order in which the devices with paths `paths` are tried, given the
/// path of the loader's partition and which devices are that partition.
pub open spec fn spec_priority(
    paths: Seq<Seq<(u8, u8, Seq<u8>)>>,
    is_esp: Seq<bool>,
    esp: Seq<(u8, u8, Seq<u8>)>,
) -> Seq<usize> {
    let all = Seq::new(paths.len(), |i: int| i as usize);
    let disks = all.filter(|i: usize| holds(paths, esp, i as int));
    let rest = all.filter(|i: usize| !holds(paths, esp, i as int));
    let (placed, left) = place_disks(paths, is_esp, disks, Seq::empty(), rest);
    placed + left
}

/// The paths of several devices as plain values.
pub open spec fn paths_view(p: Seq<Vec<DevicePathNode>>) -> Seq<Seq<(u8, u8, Seq<u8>)>> {
    p.map_values(|v: Vec<DevicePathNode>| path_view(v@))
}

proof fn lemma_place_step(
    paths: Seq<Seq<(u8, u8, Seq<u8>)>>,
    is_esp: Seq<bool>,
    disks: Seq<usize>,
    k: int,
    placed: Seq<usize>,
    rest: Seq<usize>,
)
    requires
        0 <= k < disks.len(),
    ensures
        place_disks(paths, is_esp, disks.skip(k), placed, rest) == place_disks(
            paths,
            is_esp,
            disks.skip(k + 1),
            placed + rest.filter(|j: usize| part_of(paths, is_esp, disks[k] as int, j as int)) + seq![disks[k]],
            rest.filter(|j: usize| !part_of(paths, is_esp, disks[k] as int, j as int)),
        ),
{
    assert(disks.skip(k).drop_first() =~= disks.skip(k + 1));
    assert(disks.skip(k)[0] == disks[k]);
}

/// The order in which to try the devices whose paths are `paths`: the disks
/// holding the loader's partition (path `esp`), each preceded by its other
/// partitions, then the remaining devices in their order. `is_esp` tells
/// which devices are the loader's partition itself.
#[verifier::spinoff_prover]
pub fn disk_device_priority(
    paths: &Vec<Vec<DevicePathNode>>,
    is_esp: &Vec<bool>,
    esp: &Vec<DevicePathNode>,
) -> (r: Vec<usize>)
    requires
        is_esp@.len() == paths@.len(),
    ensures
        r@ == spec_priority(paths_view(paths@), is_esp@, path_view(esp@)),
{
    let ghost pv = paths_view(paths@);
    let ghost ev = path_view(esp@);
    let ghost all = Seq::new(paths@.len(), |i: int| i as usize);
    let mut disks: Vec<usize> = Vec::new();
    let mut rest: Vec<usize> = Vec::new();
    let mut i: usize = 0;
    while i < paths.len()
        invariant
            i <= paths@.len(),
            pv == paths_view(paths@),
            ev == path_view(esp@),
            all == Seq::new(paths@.len(), |i: int| i as usize),
            disks@ == all.take(i as int).filter(|j: usize| holds(pv, ev, j as int)),
            rest@ == all.take(i as int).filter(|j: usize| !holds(pv, ev, j as int)),
            forall|q: int| 0 <= q < disks@.len() ==> #[trigger] disks@[q] < i,
            forall|q: int| 0 <= q < rest@.len() ==> #[trigger] rest@[q] < i,
        decreases paths@.len() - i,
    {
        proof {
            reveal(Seq::filter);
            assert(all.take(i + 1).drop_last() =~= all.take(i as int));
            assert(all.take(i + 1).last() == i);
        }
        let rel = device_path_relation(paths[i].as_slice(), esp.as_slice());
        proof {
            assert(pv[i as int] == path_view(paths@[i as int]@));
        }
        if rel == DevicePathRelation::Parent(0) {
            disks.push(i);
        } else {
            rest.push(i);
        }
        i = i + 1;
    }
    proof {
        assert(all.take(paths@.len() as int) =~= all);
    }
    let ghost disks0 = disks@;
    let ghost goal = place_disks(pv, is_esp@, disks0, Seq::empty(), rest@);
    let mut placed: Vec<usize> = Vec::new();
    let mut k: usize = 0;
    proof {
        assert(disks0.skip(0) =~= disks0);
    }
    while k < disks.len()
        invariant
            k <= disks@.len(),
            disks@ == disks0,
            is_esp@.len() == paths@.len(),
            pv == paths_view(paths@),
            forall|q: int| 0 <= q < disks@.len() ==> #[trigger] disks@[q] < paths@.len(),
            forall|q: int| 0 <= q < rest@.len() ==> #[trigger] rest@[q] < paths@.len(),
            goal == place_disks(pv, is_esp@, disks0.skip(k as int), placed@, rest@),
        decreases disks@.len() - k,
    {
        let d = disks[k];
        let ghost rest0 = rest@;
        let ghost placed0 = placed@;
        let mut left: Vec<usize> = Vec::new();
        let mut m: usize = 0;
        while m < rest.len()
            invariant
                m <= rest@.len(),
                rest@ == rest0,
                d < paths@.len(),
                is_esp@.len() == paths@.len(),
                pv == paths_view(paths@),
                forall|q: int| 0 <= q < rest@.len() ==> #[trigger] rest@[q] < paths@.len(),
                placed@ == placed0 + rest0.take(m as int).filter(|j: usize| part_of(pv, is_esp@, d as int, j as int)),
                left@ == rest0.take(m as int).filter(|j: usize| !part_of(pv, is_esp@, d as int, j as int)),
                forall|q: int| 0 <= q < left@.len() ==> #[trigger] left@[q] < paths@.len(),
            decreases rest@.len() - m,
        {
            proof {
                reveal(Seq::filter);
                assert(rest0.take(m + 1).drop_last() =~= rest0.take(m as int));
            }
            let j = rest[m];
            let rel = device_path_relation(paths[j].as_slice(), paths[d].as_slice());
            proof {
                assert(pv[j as int] == path_view(paths@[j as int]@));
                assert(pv[d as int] == path_view(paths@[d as int]@));
            }
            if !is_esp[j] && rel == DevicePathRelation::Child(0) {
                placed.push(j);
                proof {
                    assert(placed@ =~= placed0 + rest0.take(m + 1).filter(|j: usize| part_of(pv, is_esp@, d as int, j as int)));
                }
            } else {
                left.push(j);
                proof {
                    assert(placed@ =~= placed0 + rest0.take(m + 1).filter(|j: usize| part_of(pv, is_esp@, d as int, j as int)));
                }
            }
            m = m + 1;
        }
        proof {
            assert(rest0.take(rest0.len() as int) =~= rest0);
            lemma_place_step(pv, is_esp@, disks0, k as int, placed0, rest0);
        }
        placed.push(d);
        proof {
            let f = rest0.filter(|j: usize| part_of(pv, is_esp@, d as int, j as int));
            assert(placed@ =~= placed0 + f + seq![disks0[k as int]]);
        }
        rest = left;
        k = k + 1;
    }
    proof {
        assert(disks0.skip(disks0.len() as int) =~= Seq::<usize>::empty());
    }
    placed.append(&mut rest);
    placed
}

/// The nodes of the device path encoded in `b`, up to the end node: each
/// node is a type byte, a subtype byte, a little-endian 16-bit length that
/// counts these four bytes, and its data. `None` when a node's length is
/// short or runs past `b`, or no end node comes.
pub open spec fn spec_parse(b: Seq<u8>) -> Option<Seq<(u8, u8, Seq<u8>)>>
    decreases b.len(),
{
    if b.len() < 4 {
        None
    } else if b[0] == END_TYPE {
        Some(Seq::empty())
    } else {
        let len = le_u16(b, 2) as int;
        if len < 4 || len > b.len() {
            None
        } else {
            match spec_parse(b.skip(len)) {
                Some(rest) => Some(seq![(b[0], b[1], b.subrange(4, len))] + rest),
                None => None,
            }
        }
    }
}

/// What the next step through an encoded device path finds.
#[derive(Debug)]
pub enum DevicePathStep {
    /// A node.
    Node(DevicePathNode),
    /// The end node.
    End,
    /// A node whose length is short or runs past the encoding.
    Malformed,
}

/// A position in an encoded device path.
pub struct DevicePathIter {
    off: usize,
}

impl DevicePathIter {
    /// The offset of the next node.
    pub closed spec fn spec_offset(&self) -> int {
        self.off as int
    }

    /// A position at the start of an encoding.
    pub fn new() -> (r: DevicePathIter)
        ensures
            r.spec_offset() == 0,
    {
        DevicePathIter { off: 0 }
    }

    /// Reads the node at the current position of the encoding `b` and moves past it.
    #[verifier::spinoff_prover]
    pub fn next(&mut self, b: &[u8]) -> (r: DevicePathStep)
        requires
            old(self).spec_offset() <= b@.len(),
        ensures
            final(self).spec_offset() <= b@.len(),
            ({
                let t = b@.skip(old(self).spec_offset());
                match spec_parse(t) {
                    None => match r {
                        DevicePathStep::Malformed => true,
                        DevicePathStep::Node(n) => {
                            let len = le_u16(t, 2) as int;
                            &&& 4 <= len <= t.len()
                            &&& node_view(n) == (t[0], t[1], t.subrange(4, len))
                            &&& spec_parse(t.skip(len)) is None
                            &&& final(self).spec_offset() == old(self).spec_offset() + len
                        },
                        DevicePathStep::End => false,
                    },
                    Some(nodes) => match r {
                        DevicePathStep::End => nodes.len() == 0,
                        DevicePathStep::Node(n) => {
                            let len = le_u16(t, 2) as int;
                            &&& 4 <= len <= t.len()
                            &&& nodes.len() > 0
                            &&& node_view(n) == nodes[0]
                            &&& spec_parse(t.skip(len)) == Some(nodes.drop_first())
                            &&& final(self).spec_offset() == old(self).spec_offset() + len
                        },
                        DevicePathStep::Malformed => false,
                    },
                }
            }),
    {
        let n = b.len();
        let off = self.off;
        let ghost t = b@.skip(off as int);
        if n - off < 4 {
            return DevicePathStep::Malformed;
        }
        if b[off] == END_TYPE {
            proof {
                assert(t[0] == b@[off as int]);
            }
            return DevicePathStep::End;
        }
        let len = ((b[off + 2] as u16) | ((b[off + 3] as u16) << 8)) as u16 as usize;
        proof {
            assert(t[0] == b@[off as int]);
            assert(t[1] == b@[off + 1]);
            assert(t[2] == b@[off + 2]);
            assert(t[3] == b@[off + 3]);
            assert(len == le_u16(t, 2));
        }
        if len < 4 || len > n - off {
            return DevicePathStep::Malformed;
        }
        let mut data: Vec<u8> = Vec::new();
        let mut k: usize = 4;
        while k < len
            invariant
                4 <= k <= len,
                off + len <= n,
                n == b@.len(),
                data@ == b@.subrange(off + 4, off + k as int),
            decreases len - k,
        {
            data.push(b[off + k]);
            assert(data@ =~= b@.subrange(off + 4, off + k + 1));
            k = k + 1;
        }
        let node = DevicePathNode { node_type: b[off], sub_type: b[off + 1], data };
        proof {
            assert(t.subrange(4, len as int) =~= b@.subrange(off + 4, off + len));
            match spec_parse(t.skip(len as int)) {
                Some(rest) => {
                    assert((seq![(t[0], t[1], t.subrange(4, len as int))] + rest).drop_first() =~= rest);
                },
                None => {},
            }
        }
        self.off = off + len;
        DevicePathStep::Node(node)
    }
}

/// Decodes the device path encoded in `b`.
#[verifier::spinoff_prover]
pub fn parse_device_path(b: &[u8]) -> (r: Option<Vec<DevicePathNode>>)
    ensures
        r matches Some(v) ==> spec_parse(b@) == Some(path_view(v@)),
        r is None ==> spec_parse(b@) is None,
{
    let mut nodes: Vec<DevicePathNode> = Vec::new();
    let mut it = DevicePathIter::new();
    proof {
        assert(b@.skip(0) =~= b@);
        assert(path_view(nodes@) =~= Seq::<(u8, u8, Seq<u8>)>::empty());
        match spec_parse(b@) {
            Some(rest) => {
                assert(Seq::<(u8, u8, Seq<u8>)>::empty() + rest =~= rest);
            },
            None => {},
        }
    }
    loop
        invariant
            it.spec_offset() <= b@.len(),
            spec_parse(b@) == match spec_parse(b@.skip(it.spec_offset())) {
                Some(rest) => Some(path_view(nodes@) + rest),
                None => None::<Seq<(u8, u8, Seq<u8>)>>,
            },
        decreases b@.len() - it.spec_offset(),
    {
        let ghost off = it.spec_offset();
        match it.next(b) {
            DevicePathStep::End => {
                proof {
                    assert(path_view(nodes@) + Seq::empty() =~= path_view(nodes@));
                }
                return Some(nodes);
            },
            DevicePathStep::Malformed => {
                return None;
            },
            DevicePathStep::Node(node) => {
                proof {
                    let t = b@.skip(off);
                    let len = le_u16(t, 2) as int;
                    assert(t.skip(len) =~= b@.skip(off + len));
                    assert(path_view(nodes@.push(node)) =~= path_view(nodes@).push(node_view(node)));
                    match spec_parse(t) {
                        Some(rest) => {
                            assert(rest =~= seq![rest[0]] + rest.drop_first());
                            assert(path_view(nodes@) + rest =~= path_view(nodes@.push(node)) + rest.drop_first());
                        },
                        None => {},
                    }
                }
                nodes.push(node);
            },
        }
    }
}

} // verus!
