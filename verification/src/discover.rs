//! Hardware discovery over a decoded tree: serial ports, the CPU timebase
//! and memory-mapped regions.

use vstd::prelude::*;
use vstd::string::StringSliceAdditionalSpecFns;
use crate::node::{DeviceTreeNode, NodeModel};
use crate::search::{compatible_with, nodes_view};
use crate::translate::reg_key;

verus! {

/// Name of the property that states the timebase frequency.
pub open spec fn timebase_key() -> Seq<u8> {
    "timebase-frequency".spec_bytes()
}

/// The first `reg` cell of a node, widened, where `reg` reads as at least
/// two 32-bit integers.
pub open spec fn base_address(node: NodeModel) -> Option<u64> {
    match node.u32_seq_of(reg_key()) {
        Some(reg) => if reg.len() >= 2 {
            Some(reg[0] as u64)
        } else {
            None
        },
        None => None,
    }
}

/// The base addresses of those of `nodes` that have one, in order.
pub open spec fn base_addresses(nodes: Seq<NodeModel>) -> Seq<u64>
    decreases nodes.len(),
{
    if nodes.len() == 0 {
        Seq::empty()
    } else {
        base_addresses(nodes.drop_last()) + match base_address(nodes.last()) {
            Some(address) => seq![address],
            None => Seq::empty(),
        }
    }
}

/// The `reg` cells taken two by two as address and size; an odd cell at
/// the end is left out.
pub open spec fn reg_pairs(reg: Seq<u32>) -> Seq<(u64, u64)> {
    Seq::new((reg.len() / 2) as nat, |i: int| (reg[2 * i] as u64, reg[2 * i + 1] as u64))
}

/// The regions that one node states.
pub open spec fn node_regions(node: NodeModel) -> Seq<(u64, u64)> {
    match node.u32_seq_of(reg_key()) {
        Some(reg) => reg_pairs(reg),
        None => Seq::empty(),
    }
}

/// The regions that `nodes` state, node by node.
pub open spec fn regions_of(nodes: Seq<NodeModel>) -> Seq<(u64, u64)>
    decreases nodes.len(),
{
    if nodes.len() == 0 {
        Seq::empty()
    } else {
        regions_of(nodes.drop_last()) + node_regions(nodes.last())
    }
}

/// The first 32-bit value that a node at or after `from` states for `key`.
pub open spec fn first_stated(nodes: Seq<NodeModel>, key: Seq<u8>, from: int) -> Option<u32>
    decreases nodes.len() - from,
{
    if from < 0 || from >= nodes.len() {
        None
    } else {
        match nodes[from].u32_of(key) {
            Some(value) => Some(value),
            None => first_stated(nodes, key, from + 1),
        }
    }
}

impl NodeModel {
    /// The base addresses of the nodes compatible with `compatible`, in
    /// pre-order.
    pub open spec fn bases_of(self, compatible: Seq<u8>) -> Seq<u64> {
        base_addresses(self.preorder().filter(compatible_with(compatible)))
    }

    /// The base addresses of the serial ports: for each known kind of
    /// port in turn, those of the nodes compatible with it.
    pub open spec fn spec_uart_addresses(self) -> Seq<u64> {
        self.bases_of("ns16550a".spec_bytes()) + self.bases_of("ns16550".spec_bytes())
            + self.bases_of("arm,pl011".spec_bytes()) + self.bases_of("arm,sbsa-uart".spec_bytes())
            + self.bases_of("snps,dw-apb-uart".spec_bytes())
    }

    /// The timebase frequency: what `/cpus` states, or else what the
    /// first of its children that states one does.
    pub open spec fn spec_timebase_frequency(self) -> Option<u32> {
        match self.find("/cpus".spec_bytes()) {
            None => None,
            Some(cpus) => match cpus.u32_of(timebase_key()) {
                Some(frequency) => Some(frequency),
                None => first_stated(cpus.children, timebase_key(), 0),
            },
        }
    }

    /// The regions that the nodes of the tree state, in pre-order.
    pub open spec fn spec_mmio_regions(self) -> Seq<(u64, u64)> {
        regions_of(self.preorder())
    }
}

impl<'a> DeviceTreeNode<'a> {
    /// Appends the base addresses of the nodes compatible with
    /// `compatible` to `addresses`.
    fn collect_bases(&self, compatible: &str, addresses: &mut Vec<u64>)
        ensures
            final(addresses)@ == old(addresses)@ + self@.bases_of(compatible.spec_bytes()),
    {
        let nodes = self.find_compatible_nodes(compatible);
        let ghost models = nodes_view(nodes@);
        let mut i: usize = 0;
        proof {
            assert(models.subrange(0, 0) =~= Seq::<NodeModel>::empty());
            assert(addresses@ + base_addresses(Seq::<NodeModel>::empty()) =~= addresses@);
        }
        while i < nodes.len()
            invariant
                i <= nodes.len(),
                models == nodes_view(nodes@),
                addresses@ == old(addresses)@ + base_addresses(models.subrange(0, i as int)),
            decreases nodes.len() - i,
        {
            let ghost before = addresses@;
            proof {
                let next = models.subrange(0, i + 1);
                assert(next.drop_last() =~= models.subrange(0, i as int));
                assert(next.last() == nodes@[i as int]@);
            }
            if let Some(reg) = nodes[i].prop_u32_array("reg") {
                if reg.len() >= 2 {
                    addresses.push(reg[0] as u64);
                    assert(addresses@ =~= before + seq![reg@[0] as u64]);
                }
            }
            proof {
                let more = match base_address(nodes@[i as int]@) {
                    Some(address) => seq![address],
                    None => Seq::empty(),
                };
                assert(addresses@ =~= before + more);
                assert(addresses@ =~= old(addresses)@ + (base_addresses(
                    models.subrange(0, i as int),
                ) + more));
            }
            i += 1;
        }
        assert(models.subrange(0, nodes@.len() as int) =~= models);
    }

    /// The base addresses of the serial ports below this node.
    pub fn uart_addresses(&self) -> (addresses: Vec<u64>)
        ensures
            addresses@ == self@.spec_uart_addresses(),
    {
        let mut addresses: Vec<u64> = Vec::new();
        self.collect_bases("ns16550a", &mut addresses);
        self.collect_bases("ns16550", &mut addresses);
        self.collect_bases("arm,pl011", &mut addresses);
        self.collect_bases("arm,sbsa-uart", &mut addresses);
        self.collect_bases("snps,dw-apb-uart", &mut addresses);
        assert(addresses@ =~= self@.spec_uart_addresses());
        addresses
    }

    /// The timebase frequency that `/cpus` or one of its children states.
    pub fn timebase_frequency(&self) -> (frequency: Option<u32>)
        ensures
            frequency == self@.spec_timebase_frequency(),
    {
        let cpus = match self.find_node("/cpus") {
            Some(node) => node,
            None => {
                return None;
            },
        };
        if let Some(frequency) = cpus.prop_u32("timebase-frequency") {
            return Some(frequency);
        }
        let mut i: usize = 0;
        while i < cpus.children.len()
            invariant
                i <= cpus.children.len(),
                self@.spec_timebase_frequency() == first_stated(
                    cpus@.children,
                    timebase_key(),
                    i as int,
                ),
            decreases cpus.children.len() - i,
        {
            if let Some(frequency) = cpus.children[i].prop_u32("timebase-frequency") {
                return Some(frequency);
            }
            i += 1;
        }
        None
    }

    /// The regions that this node and its descendants state in their `reg`
    /// properties, read two cells by two.
    pub fn discover_mmio_regions(&self) -> (regions: Vec<(u64, u64)>)
        ensures
            regions@ == self@.spec_mmio_regions(),
    {
        let mut regions: Vec<(u64, u64)> = Vec::new();
        let mut walk = self.iter_nodes();
        let ghost all = self@.preorder();
        let ghost mut seen: Seq<NodeModel> = Seq::empty();
        proof {
            assert(seen + walk.remaining() =~= all);
        }
        loop
            invariant
                all == self@.preorder(),
                seen + walk.remaining() == all,
                regions@ == regions_of(seen),
            decreases walk.remaining().len(),
        {
            let ghost before = walk.remaining();
            match walk.next() {
                Some(node) => {
                    let ghost start = regions@;
                    proof {
                        assert(seen.push(node@) + before.drop_first() =~= seen + before);
                        assert(seen.push(node@).drop_last() =~= seen);
                    }
                    if let Some(reg) = node.prop_u32_array("reg") {
                        let pairs = reg.len() / 2;
                        let mut i: usize = 0;
                        while i < pairs
                            invariant
                                i <= pairs,
                                pairs == reg.len() / 2,
                                regions@ == start + reg_pairs(reg@).subrange(0, i as int),
                            decreases pairs - i,
                        {
                            regions.push((reg[2 * i] as u64, reg[2 * i + 1] as u64));
                            assert(regions@ =~= start + reg_pairs(reg@).subrange(0, i + 1));
                            i += 1;
                        }
                        assert(reg_pairs(reg@).subrange(0, pairs as int) =~= reg_pairs(reg@));
                    } else {
                        assert(regions@ =~= start + Seq::<(u64, u64)>::empty());
                    }
                    proof {
                        seen = seen.push(node@);
                    }
                },
                None => {
                    assert(seen =~= all);
                    return regions;
                },
            }
        }
    }
}

} // verus!
