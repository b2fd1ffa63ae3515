//! Compression: destinations become differences in as few bits as they need, property columns
//! become a bitmap and the values that are there.

use vstd::prelude::*;
use vstd::arithmetic::div_mod::lemma_fundamental_div_mod_converse;
use crate::common::types::{LabelId, VertexId};
use crate::common::value::ScalarValue;
use crate::storage::ap::collections::{
    bits16, bits64, clear_bits16, clear_bits64, get_bit16, get_bit64, set_bit16, set_bit64, Bits16,
    Bits64,
};
use crate::storage::ap::deletions::DeletionLog;
use crate::storage::ap::model::{
    column_wf, committed_value, deletion_stamps, BlockModel, ColumnModel, CompressedBlockModel,
    CompressedPropModel, Deletions, PropBlockModel, Reader, StorageModel,
};
use crate::storage::ap::olap_graph::{latest_committed_prop_value, OlapStorage};
use crate::storage::ap::types::{
    CompressedEdgeBlock, CompressedPropertyBlock, CompressedPropertyColumn, EdgeBlock,
    OlapStorageEdge, PropertyBlock, PropertyColumn, BLOCK_CAPACITY, CHUNK_COUNT,
};
use crate::transaction::{Timestamp, TimestampGenerator};

verus! {

// ---------------------------------------------------------------------------------------------
// Bits of numbers
// ---------------------------------------------------------------------------------------------

/// `d` without its last `j` bits.
pub open spec fn halved(d: nat, j: nat) -> nat
    decreases j,
{
    if j == 0 {
        d
    } else {
        halved(d / 2, (j - 1) as nat)
    }
}

/// Bit `j` of `d`, counted from the least significant one.
pub open spec fn bit_of(d: nat, j: nat) -> bool {
    halved(d, j) % 2 == 1
}

/// How many bits `d` needs.
pub open spec fn bit_length(d: nat) -> nat
    decreases d,
{
    if d == 0 {
        0
    } else {
        1 + bit_length(d / 2)
    }
}

/// The number that `width` bits from `start` on stand for, least significant bit first.
pub open spec fn word(bits: Seq<bool>, start: int, width: nat) -> nat
    decreases width,
{
    if width == 0 {
        0
    } else {
        (if bits[start] {
            1nat
        } else {
            0nat
        }) + 2 * word(bits, start + 1, (width - 1) as nat)
    }
}

proof fn lemma_halved_step(d: nat, j: nat)
    ensures
        halved(d, j + 1) == halved(d, j) / 2,
    decreases j,
{
    if j > 0 {
        lemma_halved_step(d / 2, (j - 1) as nat);
    } else {
        assert(halved(d / 2, 0) == d / 2);
    }
}

/// The power of two.
pub open spec fn two_to(k: nat) -> nat
    decreases k,
{
    if k == 0 {
        1
    } else {
        2 * two_to((k - 1) as nat)
    }
}

proof fn lemma_bit_length_bound(d: nat, k: nat)
    requires
        d < two_to(k),
    ensures
        bit_length(d) <= k,
    decreases k,
{
    if k > 0 && d > 0 {
        lemma_bit_length_bound(d / 2, (k - 1) as nat);
    }
}

/// A number fits in as many bits as it needs, and in no fewer.
proof fn lemma_bit_length_exact(d: nat)
    ensures
        d < two_to(bit_length(d)),
        d > 0 ==> bit_length(d) > 0 && d >= two_to((bit_length(d) - 1) as nat),
    decreases d,
{
    if d > 0 {
        lemma_bit_length_exact(d / 2);
    }
}

proof fn lemma_two_to_mono(a: nat, b: nat)
    requires
        a <= b,
    ensures
        0 < two_to(a) <= two_to(b),
    decreases b,
{
    if a < b {
        lemma_two_to_mono(a, (b - 1) as nat);
    } else if b > 0 {
        lemma_two_to_mono((a - 1) as nat, (b - 1) as nat);
    }
}

proof fn lemma_bit_length_u64(d: u64)
    ensures
        bit_length(d as nat) <= 64,
{
    assert(two_to(64) == 0x1_0000_0000_0000_0000) by {
        reveal_with_fuel(two_to, 65);
    }
    lemma_bit_length_bound(d as nat, 64);
}

proof fn lemma_bit_length_mono(a: nat, b: nat)
    requires
        a <= b,
    ensures
        bit_length(a) <= bit_length(b),
    decreases b,
{
    if a > 0 {
        lemma_bit_length_mono(a / 2, b / 2);
    }
}

/// Bits that hold a number which fits in them stand for it.
proof fn lemma_word_holds(bits: Seq<bool>, start: int, width: nat, d: nat)
    requires
        bit_length(d) <= width,
        forall|j: nat| j < width ==> bits[start + j] == #[trigger] bit_of(d, j),
    ensures
        word(bits, start, width) == d,
    decreases width,
{
    if width > 0 {
        assert(bits[start + 0nat] == bit_of(d, 0));
        assert forall|j: nat| j < width - 1 implies bits[start + 1 + j] == #[trigger] bit_of(
            d / 2,
            j,
        ) by {
            assert(bit_of(d, j + 1) == bit_of(d / 2, j));
            assert(bits[start + (j + 1)] == bit_of(d, j + 1));
        }
        lemma_word_holds(bits, start + 1, (width - 1) as nat, d / 2);
    }
}

// ---------------------------------------------------------------------------------------------
// Edge blocks
// ---------------------------------------------------------------------------------------------

/// The difference between the destinations in a slot and in the one before it.
pub open spec fn delta(edges: Seq<OlapStorageEdge>, i: int) -> nat {
    (edges[i].dst_id - edges[i - 1].dst_id) as nat
}

/// The greatest difference before slot `n`.
pub open spec fn max_delta(edges: Seq<OlapStorageEdge>, n: int) -> nat
    decreases n,
{
    if n <= 1 {
        0
    } else {
        let before = max_delta(edges, n - 1);
        if delta(edges, n - 1) > before {
            delta(edges, n - 1)
        } else {
            before
        }
    }
}

/// How many bits a difference gets: as many as the greatest one needs, at least one.
pub open spec fn delta_width(block: BlockModel) -> nat {
    let greatest = max_delta(block.edges, block.edge_counter);
    if greatest == 0 {
        1
    } else {
        bit_length(greatest)
    }
}

/// There is at least one edge, and the destinations do not fall.
pub open spec fn compressible(block: BlockModel) -> bool {
    &&& block.edge_counter >= 1
    &&& forall|i: int|
        1 <= i < block.edge_counter ==> block.edges[i - 1].dst_id <= (
        #[trigger] block.edges[i]).dst_id
}

/// An edge as a compressed block shows it: one that has been deleted shows as label one to vertex
/// one.
pub open spec fn shown(slot: OlapStorageEdge, deletions: Deletions) -> OlapStorageEdge {
    if deletion_stamps(deletions, slot.eid).len() > 0 {
        OlapStorageEdge { label_id: Some(LabelId { raw: 1 }), dst_id: 1, ..slot }
    } else {
        slot
    }
}

/// A block with its edges as its compressed form shows them.
pub open spec fn shown_block(block: BlockModel, deletions: Deletions) -> BlockModel {
    BlockModel {
        edges: Seq::new(
            block.edges.len(),
            |i: int|
                if i < block.edge_counter {
                    shown(block.edges[i], deletions)
                } else {
                    block.edges[i]
                },
        ),
        ..block
    }
}

/// The bits of the differences between the first `n` destinations.
pub open spec fn delta_bits(edges: Seq<OlapStorageEdge>, width: nat, n: int) -> Seq<bool> {
    Seq::new(
        (width * (n - 1)) as nat,
        |p: int| bit_of(delta(edges, p / (width as int) + 1), (p % (width as int)) as nat),
    )
}

/// A block after compression.
pub open spec fn compressed_block(
    block: BlockModel,
    index: usize,
    version_ts: Timestamp,
) -> CompressedBlockModel {
    let width = delta_width(block);
    CompressedBlockModel {
        pre_block_index: block.pre_block_index,
        cur_block_index: index,
        max_label_id: block.max_label_id,
        min_label_id: block.min_label_id,
        max_dst_id: block.max_dst_id,
        min_dst_id: block.min_dst_id,
        min_ts: block.min_ts,
        max_ts: block.max_ts,
        src_id: block.src_id,
        edge_counter: block.edge_counter,
        delta_bit_width: width as int,
        first_dst_id: block.edges[0].dst_id,
        bits: delta_bits(block.edges, width, block.edge_counter),
        label_ids: Seq::new(
            BLOCK_CAPACITY as nat,
            |i: int|
                if i < block.edge_counter {
                    block.edges[i].label_id
                } else {
                    Some(LabelId { raw: 1 })
                },
        ),
        version_ts,
    }
}

impl CompressedBlockModel {
    /// Destination `i`, from the first one and the differences.
    pub open spec fn decoded(self, i: int) -> nat
        decreases i,
    {
        if i <= 0 {
            self.first_dst_id as nat
        } else {
            self.decoded(i - 1) + word(
                self.bits,
                self.delta_bit_width * (i - 1),
                self.delta_bit_width as nat,
            )
        }
    }

    /// The bits that the decoding reads are there, and what it gives fits.
    pub open spec fn decodable(self) -> bool {
        &&& 1 <= self.edge_counter <= BLOCK_CAPACITY
        &&& 1 <= self.delta_bit_width <= 64
        &&& self.bits.len() == self.delta_bit_width * (self.edge_counter - 1)
        &&& forall|i: int| 0 <= i < self.edge_counter ==> #[trigger] self.decoded(i) <= u64::MAX
    }
}

proof fn lemma_max_delta(edges: Seq<OlapStorageEdge>, n: int, i: int)
    requires
        1 <= i < n,
    ensures
        delta(edges, i) <= max_delta(edges, n),
    decreases n,
{
    if i < n - 1 {
        lemma_max_delta(edges, n - 1, i);
    }
}

proof fn lemma_delta_width(block: BlockModel)
    requires
        block.wf(),
        compressible(block),
    ensures
        1 <= delta_width(block) <= 64,
        max_delta(block.edges, block.edge_counter) <= u64::MAX,
{
    let greatest = max_delta(block.edges, block.edge_counter);
    lemma_max_delta_fits(block.edges, block.edge_counter);
    lemma_bit_length_u64(greatest as u64);
}

proof fn lemma_max_delta_fits(edges: Seq<OlapStorageEdge>, n: int)
    requires
        n <= edges.len(),
        forall|i: int| 1 <= i < n ==> edges[i - 1].dst_id <= (#[trigger] edges[i]).dst_id,
    ensures
        max_delta(edges, n) <= u64::MAX,
    decreases n,
{
    if n > 1 {
        lemma_max_delta_fits(edges, n - 1);
        assert(edges[n - 2].dst_id <= edges[n - 1].dst_id);
    }
}

proof fn lemma_bit_position(width: int, i: int, j: int)
    requires
        width > 0,
        i >= 0,
        0 <= j < width,
    ensures
        (width * i + j) / width == i,
        (width * i + j) % width == j,
{
    assert(width * i + j == i * width + j) by (nonlinear_arith);
    lemma_fundamental_div_mod_converse(width * i + j, width, i, j);
}

/// The destinations can be read back from a compressed block.
pub proof fn compression_keeps_destinations(
    block: BlockModel,
    index: usize,
    version_ts: Timestamp,
    i: int,
)
    requires
        block.wf(),
        compressible(block),
        0 <= i < block.edge_counter,
    ensures
        compressed_block(block, index, version_ts).decoded(i) == block.edges[i].dst_id,
    decreases i,
{
    let edges = block.edges;
    let width = delta_width(block);
    let compressed = compressed_block(block, index, version_ts);
    if i > 0 {
        compression_keeps_destinations(block, index, version_ts, i - 1);
        lemma_delta_width(block);
        lemma_max_delta(edges, block.edge_counter, i);
        lemma_bit_length_mono(delta(edges, i), max_delta(edges, block.edge_counter));
        let start = width as int * (i - 1);
        assert(start + width <= width * (block.edge_counter - 1)) by (nonlinear_arith)
            requires
                start == width as int * (i - 1),
                i <= block.edge_counter - 1,
        ;
        assert(start >= 0) by (nonlinear_arith)
            requires
                start == width as int * (i - 1),
                i >= 1,
        ;
        assert forall|j: nat| j < width implies compressed.bits[start + j] == #[trigger] bit_of(
            delta(edges, i),
            j,
        ) by {
            lemma_bit_position(width as int, i - 1, j as int);
        }
        lemma_word_holds(compressed.bits, start, width, delta(edges, i));
        assert(edges[i - 1].dst_id <= edges[i].dst_id);
    }
}

proof fn lemma_max_delta_attained(edges: Seq<OlapStorageEdge>, n: int)
    requires
        max_delta(edges, n) > 0,
    ensures
        exists|i: int| 1 <= i < n && #[trigger] delta(edges, i) == max_delta(edges, n),
    decreases n,
{
    if delta(edges, n - 1) == max_delta(edges, n) {
    } else {
        lemma_max_delta_attained(edges, n - 1);
        let i = choose|i: int|
            1 <= i < n - 1 && #[trigger] delta(edges, i) == max_delta(edges, n - 1);
        assert(delta(edges, i) == max_delta(edges, n));
    }
}

/// The width of the differences is the least one, of at least one bit, in which all of them fit.
pub proof fn width_is_least(block: BlockModel, width: nat)
    requires
        block.wf(),
        compressible(block),
        width >= 1,
    ensures
        delta_width(block) >= 1,
        (forall|i: int|
            1 <= i < block.edge_counter ==> #[trigger] delta(block.edges, i) < two_to(width))
            <==> delta_width(block) <= width,
{
    let edges = block.edges;
    let n = block.edge_counter;
    let greatest = max_delta(edges, n);
    lemma_delta_width(block);
    lemma_bit_length_exact(greatest);
    lemma_two_to_mono(0, width);
    if delta_width(block) <= width {
        assert forall|i: int| 1 <= i < n implies #[trigger] delta(edges, i) < two_to(width) by {
            lemma_max_delta(edges, n, i);
            lemma_two_to_mono(bit_length(greatest), width);
        }
    } else {
        lemma_max_delta_attained(edges, n);
        let i = choose|i: int| 1 <= i < n && #[trigger] delta(edges, i) == max_delta(edges, n);
        lemma_two_to_mono(width, (bit_length(greatest) - 1) as nat);
        assert(delta(edges, i) >= two_to(width));
    }
}

/// How many bits a number needs.
fn bits_needed(d: u64) -> (r: u8)
    ensures
        r == bit_length(d as nat),
        r <= 64,
{
    let mut rest: u64 = d;
    let mut n: u8 = 0;
    proof {
        lemma_bit_length_u64(d);
    }
    while rest > 0
        invariant
            bit_length(d as nat) == n + bit_length(rest as nat),
            bit_length(d as nat) <= 64,
        decreases rest,
    {
        rest = rest / 2;
        n = n + 1;
    }
    n
}

impl EdgeBlock {
    /// The block with its edges as its compressed form shows them.
    fn shown(&self, deletions: &DeletionLog) -> (r: EdgeBlock)
        requires
            self@.wf(),
        ensures
            r@ == shown_block(self@, deletions@),
            r@.wf(),
    {
        let mut edges: [OlapStorageEdge; BLOCK_CAPACITY] = self.edges;
        let mut i: usize = 0;
        while i < self.edge_counter
            invariant
                self@.wf(),
                i <= self.edge_counter <= BLOCK_CAPACITY,
                forall|k: int|
                    0 <= k < BLOCK_CAPACITY ==> #[trigger] edges@[k] == (if k < i {
                        shown(self@.edges[k], deletions@)
                    } else {
                        self@.edges[k]
                    }),
            decreases self.edge_counter - i,
        {
            let slot = self.edges[i];
            if deletions.hides(slot.eid, Reader::Committed) {
                edges[i] = OlapStorageEdge {
                    eid: slot.eid,
                    label_id: Some(LabelId { raw: 1 }),
                    dst_id: 1,
                    commit_ts: slot.commit_ts,
                };
            }
            i = i + 1;
        }
        let r = EdgeBlock {
            pre_block_index: self.pre_block_index,
            cur_block_index: self.cur_block_index,
            is_tombstone: self.is_tombstone,
            max_label_id: self.max_label_id,
            min_label_id: self.min_label_id,
            max_dst_id: self.max_dst_id,
            min_dst_id: self.min_dst_id,
            min_ts: self.min_ts,
            max_ts: self.max_ts,
            src_id: self.src_id,
            edge_counter: self.edge_counter,
            edges,
        };
        assert(r@.edges =~= shown_block(self@, deletions@).edges);
        assert(r@ =~= shown_block(self@, deletions@));
        r
    }

    /// How many bits the difference between neighbouring destinations needs.
    fn delta_bit_width(&self) -> (r: u8)
        requires
            self@.wf(),
            compressible(self@),
        ensures
            r == delta_width(self@),
            1 <= r <= 64,
    {
        let mut greatest: u64 = 0;
        let mut i: usize = 1;
        let ghost edges = self@.edges;
        proof {
            lemma_delta_width(self@);
        }
        while i < self.edge_counter
            invariant
                edges == self@.edges,
                self@.wf(),
                compressible(self@),
                1 <= i <= self.edge_counter,
                greatest == max_delta(edges, i as int),
            decreases self.edge_counter - i,
        {
            assert(edges[i - 1].dst_id <= edges[i as int].dst_id);
            let d: u64 = self.edges[i].dst_id - self.edges[i - 1].dst_id;
            if d > greatest {
                greatest = d;
            }
            i = i + 1;
        }
        if greatest == 0 {
            1
        } else {
            bits_needed(greatest)
        }
    }

    /// Writes one difference into its bits.
    fn write_delta(&self, bits: &mut Bits64, width: u8, i: usize)
        requires
            self@.wf(),
            1 <= i < self.edge_counter,
            self@.edges[i - 1].dst_id <= self@.edges[i as int].dst_id,
            1 <= width <= 64,
            bits64(*old(bits)).len() == width * (self.edge_counter - 1),
        ensures
            bits64(*final(bits)).len() == bits64(*old(bits)).len(),
            forall|p: int|
                0 <= p < bits64(*old(bits)).len() ==> #[trigger] bits64(*final(bits))[p] == (if width
                    * (i - 1) <= p < width * i {
                    bit_of(delta(self@.edges, i as int), (p - width * (i - 1)) as nat)
                } else {
                    bits64(*old(bits))[p]
                }),
    {
        let d: u64 = self.edges[i].dst_id - self.edges[i - 1].dst_id;
        assert(width * (i - 1) + width == width * i) by (nonlinear_arith);
        assert(width * i <= width * (self.edge_counter - 1)) by (nonlinear_arith)
            requires
                i <= self.edge_counter - 1,
        ;
        assert(0 <= width * (i - 1) <= 64 * 255) by (nonlinear_arith)
            requires
                1 <= width <= 64,
                1 <= i <= 256,
        ;
        let start: usize = (width as usize) * (i - 1);
        let mut rest: u64 = d;
        let mut j: usize = 0;
        while j < width as usize
            invariant
                j <= width <= 64,
                start == width * (i - 1),
                start + width == width * i,
                start <= 64 * 255,
                start + width <= bits64(*bits).len(),
                bits64(*bits).len() == bits64(*old(bits)).len(),
                d == delta(self@.edges, i as int),
                rest == halved(d as nat, j as nat),
                forall|p: int|
                    0 <= p < bits64(*old(bits)).len() ==> #[trigger] bits64(*bits)[p] == (if start
                        <= p < start + j {
                        bit_of(d as nat, (p - start) as nat)
                    } else {
                        bits64(*old(bits))[p]
                    }),
            decreases width - j,
        {
            set_bit64(bits, start + j, rest % 2 == 1);
            proof {
                lemma_halved_step(d as nat, j as nat);
            }
            rest = rest / 2;
            j = j + 1;
        }
    }

    /// The block after compression.
    fn compress(&self, index: usize, version_ts: Timestamp) -> (r: CompressedEdgeBlock)
        requires
            self@.wf(),
            compressible(self@),
        ensures
            r@ == compressed_block(self@, index, version_ts),
    {
        let width: u8 = self.delta_bit_width();
        let n: usize = self.edge_counter;
        let ghost edges = self@.edges;
        assert(0 <= width * (n - 1) <= 64 * 255) by (nonlinear_arith)
            requires
                1 <= width <= 64,
                1 <= n <= 256,
        ;
        let required: usize = (width as usize) * (n - 1);
        let mut bits = clear_bits64(required);
        let mut label_ids: [Option<LabelId>; BLOCK_CAPACITY] = [Some(
            LabelId { raw: 1 },
        );BLOCK_CAPACITY];
        label_ids[0] = self.edges[0].label_id;
        let mut i: usize = 1;
        assert(width * (1 - 1) == 0) by (nonlinear_arith);
        while i < n
            invariant
                self@.wf(),
                compressible(self@),
                edges == self@.edges,
                1 <= width <= 64,
                n == self.edge_counter,
                1 <= i <= n <= BLOCK_CAPACITY,
                bits64(bits).len() == width * (n - 1),
                forall|p: int|
                    0 <= p < width * (i - 1) && p < bits64(bits).len() ==> #[trigger] bits64(bits)[p]
                        == bit_of(delta(edges, p / (width as int) + 1), (p % (width as int)) as nat),
                forall|k: int|
                    0 <= k < BLOCK_CAPACITY ==> #[trigger] label_ids@[k] == (if k < i {
                        edges[k].label_id
                    } else {
                        Some(LabelId { raw: 1 })
                    }),
            decreases n - i,
        {
            label_ids[i] = self.edges[i].label_id;
            let ghost before = bits64(bits);
            assert(edges[i - 1].dst_id <= edges[i as int].dst_id);
            self.write_delta(&mut bits, width, i);
            assert forall|p: int|
                0 <= p < width * i && p < bits64(bits).len() implies #[trigger] bits64(bits)[p]
                == bit_of(delta(edges, p / (width as int) + 1), (p % (width as int)) as nat) by {
                if p < width * (i - 1) {
                    assert(bits64(bits)[p] == before[p]);
                } else {
                    let j = p - width * (i - 1);
                    assert(j < width) by (nonlinear_arith)
                        requires
                            j == p - width * (i - 1),
                            p < width * i,
                    ;
                    lemma_bit_position(width as int, i - 1, j);
                }
            }
            i = i + 1;
        }
        let r = CompressedEdgeBlock {
            pre_block_index: self.pre_block_index,
            cur_block_index: index,
            max_label_id: self.max_label_id,
            min_label_id: self.min_label_id,
            max_dst_id: self.max_dst_id,
            min_dst_id: self.min_dst_id,
            min_ts: self.min_ts,
            max_ts: self.max_ts,
            src_id: self.src_id,
            edge_counter: n,
            delta_bit_width: width,
            first_dst_id: self.edges[0].dst_id,
            compressed_dst_ids: bits,
            label_ids,
            version_ts,
        };
        assert(r@.bits =~= delta_bits(edges, width as nat, n as int));
        assert(r@.label_ids =~= compressed_block(self@, index, version_ts).label_ids);
        assert(r@ =~= compressed_block(self@, index, version_ts));
        r
    }
}

impl CompressedEdgeBlock {
    /// The difference between destination `i` and the one before it.
    fn read_delta(&self, i: usize) -> (r: u64)
        requires
            self@.decodable(),
            1 <= i < self.edge_counter,
        ensures
            r == word(
                self@.bits,
                self@.delta_bit_width * (i - 1),
                self@.delta_bit_width as nat,
            ),
    {
        let width: usize = self.delta_bit_width as usize;
        let ghost start = self@.delta_bit_width * (i - 1);
        assert(self@.decoded(i as int) <= u64::MAX);
        assert(width * (i - 1) + width == width * i) by (nonlinear_arith);
        assert(width * i <= width * (self.edge_counter - 1)) by (nonlinear_arith)
            requires
                i <= self.edge_counter - 1,
        ;
        assert(0 <= width * (i - 1) <= 64 * 255) by (nonlinear_arith)
            requires
                1 <= width <= 64,
                1 <= i <= 256,
        ;
        let first: usize = width * (i - 1);
        let mut value: u64 = 0;
        let mut j: usize = width;
        while j > 0
            invariant
                j <= width <= 64,
                width == self.delta_bit_width,
                first == start,
                first <= 64 * 255,
                first + width <= self@.bits.len(),
                value == word(self@.bits, start + j, (width - j) as nat),
                word(self@.bits, start, width as nat) <= u64::MAX,
            decreases j,
        {
            j = j - 1;
            proof {
                lemma_word_tail(self@.bits, start, width as nat, j as nat);
            }
            let set = match get_bit64(&self.compressed_dst_ids, first + j) {
                Some(bit) => bit,
                None => false,
            };
            let low: u64 = if set {
                1
            } else {
                0
            };
            assert(word(self@.bits, start + j, (width - j) as nat) == low + 2 * word(
                self@.bits,
                start + j + 1,
                (width - j - 1) as nat,
            ));
            value = low + 2 * value;
        }
        value
    }

    /// The destinations of the block's edges.
    pub fn dst_ids(&self) -> (r: Vec<VertexId>)
        requires
            self@.decodable(),
        ensures
            r@.len() == self@.edge_counter,
            forall|i: int| 0 <= i < r@.len() ==> #[trigger] r@[i] == self@.decoded(i),
    {
        let mut r: Vec<VertexId> = Vec::new();
        r.push(self.first_dst_id);
        let mut i: usize = 1;
        while i < self.edge_counter
            invariant
                self@.decodable(),
                1 <= i <= self.edge_counter,
                r@.len() == i,
                forall|k: int| 0 <= k < i ==> #[trigger] r@[k] == self@.decoded(k),
            decreases self.edge_counter - i,
        {
            let d: u64 = self.read_delta(i);
            assert(self@.decoded(i as int) <= u64::MAX);
            assert(self@.decoded(i as int) == self@.decoded(i - 1) + d);
            assert(r@[i - 1] == self@.decoded(i - 1));
            let next: VertexId = r[i - 1] + d;
            r.push(next);
            i = i + 1;
        }
        r
    }
}

/// The upper bits of a number stand for no more than the number.
proof fn lemma_word_tail(bits: Seq<bool>, start: int, width: nat, j: nat)
    requires
        j <= width,
    ensures
        word(bits, start + j, (width - j) as nat) <= word(bits, start, width),
    decreases j,
{
    if j > 0 {
        lemma_word_tail(bits, start + 1, (width - 1) as nat, (j - 1) as nat);
    }
}

// ---------------------------------------------------------------------------------------------
// Property columns
// ---------------------------------------------------------------------------------------------

/// How many of the bits in `lo..hi` are set.
pub open spec fn count_set(bitmap: Seq<bool>, lo: int, hi: int) -> nat
    decreases hi - lo,
{
    if hi <= lo {
        0
    } else {
        count_set(bitmap, lo, hi - 1) + (if bitmap[hi - 1] {
            1nat
        } else {
            0nat
        })
    }
}

/// The committed values of the first `n` slots, where there is one.
pub open spec fn committed_values(block: PropBlockModel, n: int) -> Seq<ScalarValue>
    decreases n,
{
    if n <= 0 {
        Seq::empty()
    } else {
        let before = committed_values(block, n - 1);
        match committed_value(block.values[n - 1]) {
            Some(value) => before.push(value),
            None => before,
        }
    }
}

/// Which slots have a committed value.
pub open spec fn committed_bitmap(block: PropBlockModel) -> Seq<bool> {
    Seq::new(
        BLOCK_CAPACITY as nat,
        |i: int| i < block.values.len() && committed_value(block.values[i]) is Some,
    )
}

/// A property block after compression.
pub open spec fn compressed_props(
    block: PropBlockModel,
    version_ts: Timestamp,
) -> CompressedPropModel {
    let bitmap = committed_bitmap(block);
    CompressedPropModel {
        min_ts: block.min_ts,
        max_ts: block.max_ts,
        version_ts,
        bitmap,
        offsets: Seq::new(
            CHUNK_COUNT as nat,
            |c: int| count_set(bitmap, c * 16, c * 16 + 16) as u8,
        ),
        values: committed_values(block, block.values.len() as int),
    }
}

impl CompressedPropModel {
    /// The value in a slot: as many values precede it as slots before it have one.
    pub open spec fn value_in(self, slot: int) -> Option<ScalarValue> {
        if 0 <= slot < self.bitmap.len() && self.bitmap[slot] {
            Some(self.values[count_set(self.bitmap, 0, slot) as int])
        } else {
            None
        }
    }

    /// There is a value for every bit that is set.
    pub open spec fn wf(self) -> bool {
        &&& self.bitmap.len() == BLOCK_CAPACITY
        &&& self.values.len() == count_set(self.bitmap, 0, BLOCK_CAPACITY as int)
    }
}

proof fn lemma_count_set(bitmap: Seq<bool>, lo: int, hi: int)
    requires
        lo <= hi,
    ensures
        count_set(bitmap, lo, hi) <= hi - lo,
    decreases hi - lo,
{
    if lo < hi {
        lemma_count_set(bitmap, lo, hi - 1);
    }
}

proof fn lemma_count_set_mono(bitmap: Seq<bool>, a: int, b: int)
    requires
        0 <= a <= b,
    ensures
        count_set(bitmap, 0, a) <= count_set(bitmap, 0, b),
    decreases b - a,
{
    if a < b {
        lemma_count_set_mono(bitmap, a, b - 1);
    }
}

proof fn lemma_committed_values(block: PropBlockModel, n: int)
    requires
        0 <= n <= block.values.len() == BLOCK_CAPACITY,
    ensures
        committed_values(block, n).len() == count_set(committed_bitmap(block), 0, n),
    decreases n,
{
    if n > 0 {
        lemma_committed_values(block, n - 1);
    }
}

proof fn lemma_committed_value_place(block: PropBlockModel, n: int, slot: int)
    requires
        0 <= slot < n <= block.values.len() == BLOCK_CAPACITY,
        committed_value(block.values[slot]) is Some,
    ensures
        count_set(committed_bitmap(block), 0, slot) < committed_values(block, n).len(),
        Some(committed_values(block, n)[count_set(committed_bitmap(block), 0, slot) as int])
            == committed_value(block.values[slot]),
    decreases n,
{
    lemma_committed_values(block, n - 1);
    if slot < n - 1 {
        lemma_committed_value_place(block, n - 1, slot);
    }
}

/// The newest committed value of every slot can be read back from a compressed property block.
pub proof fn compression_keeps_properties(block: PropBlockModel, version_ts: Timestamp, slot: int)
    requires
        block.wf(),
        0 <= slot < BLOCK_CAPACITY,
    ensures
        compressed_props(block, version_ts).wf(),
        compressed_props(block, version_ts).value_in(slot) == committed_value(block.values[slot]),
{
    lemma_committed_values(block, BLOCK_CAPACITY as int);
    if committed_value(block.values[slot]) is Some {
        lemma_committed_value_place(block, BLOCK_CAPACITY as int, slot);
    }
}

/// The sum of the first `n` of some numbers.
pub open spec fn sum_of(offsets: Seq<u8>, n: int) -> nat
    decreases n,
{
    if n <= 0 {
        0
    } else {
        sum_of(offsets, n - 1) + offsets[n - 1] as nat
    }
}

proof fn lemma_count_set_split(bitmap: Seq<bool>, a: int, b: int, c: int)
    requires
        a <= b <= c,
    ensures
        count_set(bitmap, a, c) == count_set(bitmap, a, b) + count_set(bitmap, b, c),
    decreases c - b,
{
    if b < c {
        lemma_count_set_split(bitmap, a, b, c - 1);
    }
}

proof fn lemma_offsets_sum(block: PropBlockModel, version_ts: Timestamp, n: int)
    requires
        0 <= n <= CHUNK_COUNT,
    ensures
        sum_of(compressed_props(block, version_ts).offsets, n) == count_set(
            committed_bitmap(block),
            0,
            n * 16,
        ),
    decreases n,
{
    if n > 0 {
        let bitmap = committed_bitmap(block);
        lemma_offsets_sum(block, version_ts, n - 1);
        lemma_count_set(bitmap, (n - 1) * 16, (n - 1) * 16 + 16);
        lemma_count_set_split(bitmap, 0, (n - 1) * 16, n * 16);
    }
}

/// The numbers of values by chunk add up to the number of values.
pub proof fn offsets_count_values(block: PropBlockModel, version_ts: Timestamp)
    requires
        block.wf(),
    ensures
        sum_of(compressed_props(block, version_ts).offsets, CHUNK_COUNT as int) == compressed_props(
            block,
            version_ts,
        ).values.len(),
{
    lemma_offsets_sum(block, version_ts, CHUNK_COUNT as int);
    lemma_committed_values(block, BLOCK_CAPACITY as int);
}

impl CompressedPropertyBlock {
    /// The value in a slot.
    pub fn get(&self, slot: usize) -> (r: Option<ScalarValue>)
        requires
            self@.wf(),
        ensures
            r == self@.value_in(slot as int),
    {
        match get_bit16(&self.bitmap, slot) {
            Some(true) => {
                let mut rank: usize = 0;
                let mut i: usize = 0;
                while i < slot
                    invariant
                        self@.wf(),
                        i <= slot < BLOCK_CAPACITY,
                        rank <= i,
                        rank == count_set(self@.bitmap, 0, i as int),
                    decreases slot - i,
                {
                    if let Some(true) = get_bit16(&self.bitmap, i) {
                        rank = rank + 1;
                    }
                    i = i + 1;
                }
                proof {
                    lemma_count_set_mono(self@.bitmap, slot + 1, BLOCK_CAPACITY as int);
                }
                Some(self.values[rank].clone())
            },
            _ => None,
        }
    }
}

impl PropertyBlock {
    /// How many slots of a chunk have a value.
    fn chunk_count(bitmap: &Bits16, chunk: usize) -> (r: u8)
        requires
            chunk < CHUNK_COUNT,
            bits16(*bitmap).len() == BLOCK_CAPACITY,
        ensures
            r == count_set(bits16(*bitmap), chunk * 16, chunk * 16 + 16),
    {
        let start: usize = chunk * 16;
        let mut count: u8 = 0;
        let mut i: usize = 0;
        while i < 16
            invariant
                i <= 16,
                start == chunk * 16,
                start + 16 <= BLOCK_CAPACITY,
                bits16(*bitmap).len() == BLOCK_CAPACITY,
                count <= i,
                count == count_set(bits16(*bitmap), start as int, start + i),
            decreases 16 - i,
        {
            if let Some(true) = get_bit16(bitmap, start + i) {
                count = count + 1;
            }
            i = i + 1;
        }
        count
    }

    /// The block after compression.
    fn compress(&self, version_ts: Timestamp) -> (r: CompressedPropertyBlock)
        requires
            self@.wf(),
        ensures
            r@ == compressed_props(self@, version_ts),
    {
        let mut bitmap = clear_bits16(BLOCK_CAPACITY);
        let mut values: Vec<ScalarValue> = Vec::new();
        let ghost expected = committed_bitmap(self@);
        let mut i: usize = 0;
        while i < self.values.len()
            invariant
                self@.wf(),
                i <= BLOCK_CAPACITY,
                expected == committed_bitmap(self@),
                bits16(bitmap).len() == BLOCK_CAPACITY,
                forall|k: int|
                    0 <= k < BLOCK_CAPACITY ==> #[trigger] bits16(bitmap)[k] == (k < i
                        && expected[k]),
                values@ == committed_values(self@, i as int),
            decreases self.values.len() - i,
        {
            assert(self@.values[i as int] == self.values@[i as int]@);
            if let Some(latest) = latest_committed_prop_value(&self.values[i]) {
                set_bit16(&mut bitmap, i, true);
                values.push(latest);
            }
            i = i + 1;
        }
        assert(bits16(bitmap) =~= expected);
        let mut offsets: [u8; CHUNK_COUNT] = [0;CHUNK_COUNT];
        let mut chunk: usize = 0;
        while chunk < CHUNK_COUNT
            invariant
                chunk <= CHUNK_COUNT,
                bits16(bitmap) == expected,
                expected.len() == BLOCK_CAPACITY,
                forall|c: int|
                    0 <= c < chunk ==> #[trigger] offsets@[c] == count_set(
                        expected,
                        c * 16,
                        c * 16 + 16,
                    ),
            decreases CHUNK_COUNT - chunk,
        {
            offsets[chunk] = Self::chunk_count(&bitmap, chunk);
            chunk = chunk + 1;
        }
        let r = CompressedPropertyBlock {
            min_ts: self.min_ts,
            max_ts: self.max_ts,
            version_ts,
            bitmap,
            offsets,
            values,
        };
        assert(r@.offsets =~= compressed_props(self@, version_ts).offsets);
        assert(r@ =~= compressed_props(self@, version_ts));
        r
    }
}

/// A property column after compression.
pub open spec fn compressed_column(column: ColumnModel, version_ts: Timestamp) -> Seq<
    CompressedPropModel,
> {
    column.map_values(|block: PropBlockModel| compressed_props(block, version_ts))
}

impl PropertyColumn {
    /// The column after compression.
    fn compress(&self, version_ts: Timestamp) -> (r: CompressedPropertyColumn)
        requires
            column_wf(self@),
        ensures
            r@ == compressed_column(self@, version_ts),
    {
        let mut r = CompressedPropertyColumn { blocks: Vec::new() };
        let mut b: usize = 0;
        while b < self.blocks.len()
            invariant
                column_wf(self@),
                b <= self.blocks.len(),
                r@.len() == b,
                forall|k: int|
                    0 <= k < b ==> #[trigger] r@[k] == compressed_props(self@[k], version_ts),
            decreases self.blocks.len() - b,
        {
            let ghost before = r@;
            assert(self@[b as int].wf());
            assert(self@[b as int] == self.blocks[b as int]@);
            let block = self.blocks[b].compress(version_ts);
            r.blocks.push(block);
            assert(r@ =~= before.push(block@));
            b = b + 1;
        }
        assert(r@ =~= compressed_column(self@, version_ts));
        r
    }
}

// ---------------------------------------------------------------------------------------------
// The storage
// ---------------------------------------------------------------------------------------------

impl StorageModel {
    /// The storage after its edge blocks have been compressed, each with the next timestamp. Edges
    /// that have been deleted show as such.
    pub open spec fn edges_compressed(self, clock: TimestampGenerator) -> StorageModel {
        StorageModel {
            is_edge_compressed: true,
            compressed_edges: Seq::new(
                self.blocks.len(),
                |b: int|
                    compressed_block(
                        shown_block(self.blocks[b], self.deletions),
                        b as usize,
                        Timestamp((clock.counter + b) as u64),
                    ),
            ) + self.compressed_edges,
            blocks: Seq::empty(),
            ..self
        }
    }

    /// The storage after its property columns have been compressed, all with one timestamp.
    pub open spec fn properties_compressed(self, version_ts: Timestamp) -> StorageModel {
        StorageModel {
            is_property_compressed: true,
            compressed_properties: self.columns.map_values(
                |column: ColumnModel| compressed_column(column, version_ts),
            ) + self.compressed_properties,
            columns: Seq::empty(),
            ..self
        }
    }
}

impl OlapStorage {
    /// Compresses every edge block, once. The blocks themselves go. Edges that have been deleted
    /// show as label one to vertex one; as they show, the destinations of a block must not fall.
    pub fn compress_edge(&mut self, clock: &mut TimestampGenerator)
        requires
            old(self)@.wf(),
            !old(self)@.is_edge_compressed ==> {
                &&& forall|b: int|
                    0 <= b < old(self)@.blocks.len() ==> compressible(
                        shown_block(#[trigger] old(self)@.blocks[b], old(self)@.deletions),
                    )
                &&& old(clock).counter + old(self)@.blocks.len() <= Timestamp::TXN_ID_START
            },
        ensures
            final(self)@.wf(),
            if old(self)@.is_edge_compressed {
                final(self)@ == old(self)@ && *final(clock) == *old(clock)
            } else {
                &&& final(self)@ == old(self)@.edges_compressed(*old(clock))
                &&& final(clock).counter == old(clock).counter + old(self)@.blocks.len()
            },
    {
        if self.is_edge_compressed {
            return;
        }
        self.is_edge_compressed = true;
        let ghost start = self@;
        let ghost expected = old(self)@.edges_compressed(*old(clock)).compressed_edges;
        let mut b: usize = 0;
        assert(expected.take(0) + start.compressed_edges =~= start.compressed_edges);
        while b < self.edges.len()
            invariant
                b <= start.blocks.len(),
                start.wf(),
                start.blocks == old(self)@.blocks,
                start.deletions == old(self)@.deletions,
                start.compressed_edges == old(self)@.compressed_edges,
                expected == old(self)@.edges_compressed(*old(clock)).compressed_edges,
                self@ == (StorageModel {
                    compressed_edges: expected.take(b as int) + start.compressed_edges,
                    ..start
                }),
                clock.counter == old(clock).counter + b,
                old(clock).counter + start.blocks.len() <= Timestamp::TXN_ID_START,
                forall|k: int|
                    0 <= k < start.blocks.len() ==> compressible(
                        shown_block(#[trigger] start.blocks[k], start.deletions),
                    ),
            decreases self.edges.len() - b,
        {
            let ghost before = self@;
            assert(start.blocks[b as int].wf());
            assert(before.blocks == start.blocks);
            assert(before.blocks[b as int] == self.edges[b as int]@);
            assert(compressible(shown_block(start.blocks[b as int], start.deletions)));
            let version_ts: Timestamp = clock.next().unwrap();
            let block = self.edges[b].shown(&self.deletions).compress(b, version_ts);
            assert(block@ == expected[b as int]);
            assert(self@.compressed_edges.len() >= b);
            self.compressed_edges.insert(b, block);
            assert(self@.compressed_edges =~= before.compressed_edges.insert(b as int, block@));
            assert(self@.compressed_edges =~= expected.take(b + 1) + start.compressed_edges);
            assert(self@ =~= (StorageModel {
                compressed_edges: self@.compressed_edges,
                ..start
            }));
            b = b + 1;
        }
        assert(start.blocks.len() == self.edges.len());
        self.edges = Vec::new();
        assert(expected.take(b as int) + start.compressed_edges =~= expected);
        assert(self@ =~= old(self)@.edges_compressed(*old(clock)));
    }

    /// Compresses every property column, once. The columns themselves go.
    pub fn compress_property(&mut self, clock: &mut TimestampGenerator)
        requires
            old(self)@.wf(),
            !old(self)@.is_property_compressed ==> old(clock).counter < Timestamp::TXN_ID_START,
        ensures
            final(self)@.wf(),
            if old(self)@.is_property_compressed {
                final(self)@ == old(self)@ && *final(clock) == *old(clock)
            } else {
                &&& final(self)@ == old(self)@.properties_compressed(
                    Timestamp(old(clock).counter),
                )
                &&& final(clock).counter == old(clock).counter + 1
            },
    {
        if self.is_property_compressed {
            return;
        }
        self.is_property_compressed = true;
        let ghost start = self@;
        let version_ts: Timestamp = clock.next().unwrap();
        let ghost expected = start.properties_compressed(version_ts).compressed_properties;
        let mut c: usize = 0;
        assert(expected.take(0) + start.compressed_properties =~= start.compressed_properties);
        while c < self.property_columns.len()
            invariant
                c <= start.columns.len(),
                start.wf(),
                expected == start.properties_compressed(version_ts).compressed_properties,
                self@ == (StorageModel {
                    compressed_properties: expected.take(c as int) + start.compressed_properties,
                    ..start
                }),
            decreases self.property_columns.len() - c,
        {
            let ghost before = self@;
            assert(before.columns == start.columns);
            assert(column_wf(start.columns[c as int]));
            assert(before.columns[c as int] == self.property_columns[c as int]@);
            let column = self.property_columns[c].compress(version_ts);
            assert(column@ == expected[c as int]);
            assert(self@.compressed_properties.len() >= c);
            self.compressed_properties.insert(c, column);
            assert(self@.compressed_properties =~= before.compressed_properties.insert(
                c as int,
                column@,
            ));
            assert(self@.compressed_properties =~= expected.take(c + 1)
                + start.compressed_properties);
            assert(self@ =~= (StorageModel {
                compressed_properties: self@.compressed_properties,
                ..start
            }));
            c = c + 1;
        }
        assert(start.columns.len() == self.property_columns.len());
        self.property_columns = Vec::new();
        assert(expected.take(c as int) + start.compressed_properties =~= expected);
        assert(self@ =~= old(self)@.properties_compressed(version_ts));
    }
}

/// Compressing the edges keeps blocks, their order and their edges: the destination and the label
/// of every edge that has not been deleted can be read back, in the block and the slot where it
/// was. An edge that has been deleted shows as label one to vertex one.
pub proof fn compression_keeps_edges(
    storage: StorageModel,
    clock: TimestampGenerator,
    b: int,
    i: int,
)
    requires
        storage.wf(),
        0 <= b < storage.blocks.len() <= usize::MAX,
        compressible(shown_block(storage.blocks[b], storage.deletions)),
        0 <= i < storage.blocks[b].edge_counter,
    ensures
        ({
            let after = storage.edges_compressed(clock);
            let compressed = after.compressed_edges[b];
            let slot = storage.blocks[b].edges[i];
            &&& after.is_edge_compressed
            &&& after.compressed_edges.len() == storage.blocks.len()
                + storage.compressed_edges.len()
            &&& compressed.cur_block_index == b
            &&& compressed.src_id == storage.blocks[b].src_id
            &&& compressed.edge_counter == storage.blocks[b].edge_counter
            &&& compressed.decodable()
            &&& if storage.deleted_for(slot.eid, Reader::Committed) {
                compressed.decoded(i) == 1 && compressed.label_ids[i] == Some(LabelId { raw: 1 })
            } else {
                compressed.decoded(i) == slot.dst_id && compressed.label_ids[i] == slot.label_id
            }
        }),
{
    let block = shown_block(storage.blocks[b], storage.deletions);
    let compressed = storage.edges_compressed(clock).compressed_edges[b];
    assert(storage.blocks[b].wf());
    assert(block.wf());
    lemma_delta_width(block);
    compression_keeps_destinations(block, compressed.cur_block_index, compressed.version_ts, i);
    assert forall|k: int| 0 <= k < compressed.edge_counter implies #[trigger] compressed.decoded(k)
        <= u64::MAX by {
        compression_keeps_destinations(
            block,
            compressed.cur_block_index,
            compressed.version_ts,
            k,
        );
    }
    assert(compressed.delta_bit_width * (block.edge_counter - 1) >= 0) by (nonlinear_arith)
        requires
            compressed.delta_bit_width >= 1,
            block.edge_counter >= 1,
    ;
}

} // verus!
