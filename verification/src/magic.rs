//! Magic lookup of slider attacks: the occupancy of a square's mask is
//! multiplied by a constant and the top bits of the product index a table
//! that holds the attack set. Every table is filled from the ray walk and
//! checked while it is filled, so a lookup and a ray walk always agree.
use vstd::prelude::*;
use crate::bboard::{bit_count, pop_count, BBoard};
use crate::bits::{lemma_masked_subset, lemma_next_subset, lemma_top_bits_bound};
use crate::piece_moves::{
    bishop_attacks, bishop_mask, bishop_mask_scan, bishop_scan, lemma_bishop_attacks_masked,
    lemma_rook_attacks_masked, rook_attacks, rook_mask, rook_mask_scan, rook_scan,
};

verus! {

/// The two kinds of piece that slide along rays; a queen is both.
#[derive(Copy, Clone, PartialEq, Eq, Structural, Debug)]
pub enum Slider {
    Rook,
    Bishop,
}

/// The squares a slider of the given kind attacks from `sq`.
pub open spec fn slider_attacks(kind: Slider, sq: u32, occ: u64) -> u64 {
    match kind {
        Slider::Rook => rook_attacks(sq, occ),
        Slider::Bishop => bishop_attacks(sq, occ),
    }
}

/// The squares whose occupancy decides the slider's attacks from `sq`.
pub open spec fn slider_mask(kind: Slider, sq: u32) -> u64 {
    match kind {
        Slider::Rook => rook_mask(sq),
        Slider::Bishop => bishop_mask(sq),
    }
}

/// The table slot for an occupancy: cut it down to the mask, multiply,
/// keep the top bits.
pub open spec fn magic_slot(occ: u64, mask: u64, magic: u64, shift: u32) -> int {
    ((occ & mask).wrapping_mul(magic) >> shift) as int
}

/// Whether the multiplier serves the slider on `sq`: the mask has from
/// one to twelve squares, and two occupancies of the mask that share a
/// slot have the same attacks.
pub open spec fn magic_fits(kind: Slider, sq: u32, magic: u64) -> bool {
    let mask = slider_mask(kind, sq);
    let shift = (64 - bit_count(mask)) as u32;
    &&& 1 <= bit_count(mask) <= 12
    &&& forall|t1: u64, t2: u64|
        #![trigger magic_slot(t1, mask, magic, shift), magic_slot(t2, mask, magic, shift)]
        t1 & !mask == 0 && t2 & !mask == 0 && magic_slot(t1, mask, magic, shift) == magic_slot(
            t2,
            mask,
            magic,
            shift,
        ) ==> slider_attacks(kind, sq, t1) == slider_attacks(kind, sq, t2)
}

/// Multipliers for the rook, one per square.
pub const ROOK_MAGICS: [u64; 64] = [
    0x008004d08020c000u64,
    0x4040100020004000u64,
    0x0080100080200008u64,
    0x0100200810010004u64,
    0x0200081005020020u64,
    0x4100020801000400u64,
    0x0880020000800100u64,
    0x6600008200205401u64,
    0x0508800880c001a0u64,
    0x0080402000401001u64,
    0x0011004100102000u64,
    0x00060010a4420008u64,
    0x0c00800400800800u64,
    0x0000800400800200u64,
    0x00c2000200040801u64,
    0x000180088006cd00u64,
    0x2380004000200040u64,
    0x000041401001a000u64,
    0x2011050010422002u64,
    0x0023030010008820u64,
    0x0000828004000800u64,
    0x0d02880110402420u64,
    0x0040140001b01208u64,
    0x0000060000410884u64,
    0x1010401480048420u64,
    0x0000400140201000u64,
    0x0080110100402002u64,
    0x0200882300100100u64,
    0x1109280280240080u64,
    0x0100040080020080u64,
    0x0400010400421008u64,
    0x2002048200240449u64,
    0x8080002000400044u64,
    0x02d0012001400040u64,
    0x2501801001802000u64,
    0x0000180081801000u64,
    0x12a4000480800800u64,
    0x0850020080800400u64,
    0x0000010804005042u64,
    0x001041008a000444u64,
    0x0008800100450020u64,
    0x0440412010024000u64,
    0x0040200010008080u64,
    0x00800a0010220040u64,
    0x1200040008008080u64,
    0x0002000810020004u64,
    0x1800021008040001u64,
    0x0498040c50820021u64,
    0x4a00284102088200u64,
    0x0000402200811200u64,
    0x0e01002002104d00u64,
    0x8608008110010880u64,
    0x0010080080040080u64,
    0x442a004411880200u64,
    0x2041008432004100u64,
    0x0328010084004200u64,
    0x800110624b008001u64,
    0x8201022810804202u64,
    0x0004400a20010011u64,
    0x8001200500100009u64,
    0x4412010420081002u64,
    0x4001000400021831u64,
    0x0408008802300104u64,
    0x10060104044094a2u64,
];
/// Multipliers for the bishop, one per square.
pub const BISHOP_MAGICS: [u64; 64] = [
    0x0410501010802046u64,
    0x02900210a400820au64,
    0x0122480044801500u64,
    0x1930918204810000u64,
    0x0254042100000101u64,
    0x00090c0240480004u64,
    0x0024042105100212u64,
    0x0800402c10080400u64,
    0x0020200842408400u64,
    0x0805200852008027u64,
    0x0202512802204050u64,
    0x5080082080200400u64,
    0x2000c40420888202u64,
    0x8203008820084014u64,
    0x000020a808080400u64,
    0x0a020c8241182029u64,
    0x22200040480200a0u64,
    0x0002022004012210u64,
    0x0002000108010103u64,
    0x4020400401042000u64,
    0x010c000a22a00000u64,
    0x122a01c108010446u64,
    0x000411010d180288u64,
    0x00002a0084010801u64,
    0x0414404020280180u64,
    0x10840b0010100d02u64,
    0xc0440400c0490020u64,
    0x0040410008010900u64,
    0x0001040002002100u64,
    0x010808a012018410u64,
    0x0801010812089044u64,
    0x0804059304220110u64,
    0x00021004a0102010u64,
    0x0001143010202180u64,
    0x0000440200900020u64,
    0x0020100821040400u64,
    0x1010120020060028u64,
    0x0a1000a020220200u64,
    0x20b020a100008402u64,
    0x0604010218004040u64,
    0x1842101084000a10u64,
    0x041041480800200cu64,
    0xc000101804000805u64,
    0x8284282104002040u64,
    0x2042200208810c04u64,
    0x2018500040900200u64,
    0x8045100400400100u64,
    0x00e1510102100504u64,
    0x0080444220100008u64,
    0x8004410801110000u64,
    0x48020a090c884144u64,
    0x0606414084040011u64,
    0x0420002008504091u64,
    0x2200205481021000u64,
    0x8020021001010600u64,
    0x5008128806022000u64,
    0x02020104020202c0u64,
    0x86100a020202021du64,
    0x0025020100611001u64,
    0x1020440000420204u64,
    0x4200100010021a02u64,
    0x0601004004480080u64,
    0x0000040810140092u64,
    0x008450040f040050u64,
];
/// Brute-force attacks of a slider: walks the rays.
pub fn slider_scan(kind: Slider, sq: u32, occ: BBoard) -> (r: BBoard)
    requires
        sq < 64,
    ensures
        r == slider_attacks(kind, sq, occ),
{
    match kind {
        Slider::Rook => rook_scan(sq, occ),
        Slider::Bishop => bishop_scan(sq, occ),
    }
}

/// Computes the mask of a slider on `sq`.
pub fn slider_mask_scan(kind: Slider, sq: u32) -> (r: BBoard)
    requires
        sq < 64,
    ensures
        r == slider_mask(kind, sq),
{
    match kind {
        Slider::Rook => rook_mask_scan(sq),
        Slider::Bishop => bishop_mask_scan(sq),
    }
}

/// A slider's attacks depend on the occupancy of its mask alone.
pub proof fn lemma_slider_attacks_masked(kind: Slider, sq: u32, occ: u64)
    ensures
        slider_attacks(kind, sq, occ) == slider_attacks(kind, sq, occ & slider_mask(kind, sq)),
{
    match kind {
        Slider::Rook => lemma_rook_attacks_masked(sq, occ),
        Slider::Bishop => lemma_bishop_attacks_masked(sq, occ),
    }
}

/// A table of `n` empty sets.
fn zeros(n: usize) -> (v: Vec<u64>)
    ensures
        v.len() == n,
        forall|i: int| 0 <= i < n ==> v[i] == 0,
{
    let mut v: Vec<u64> = Vec::new();
    while v.len() < n
        invariant
            v.len() <= n,
            forall|i: int| 0 <= i < v.len() ==> v[i] == 0,
        decreases n - v.len(),
    {
        v.push(0);
    }
    v
}

/// `n` marks, none of them set.
fn all_false(n: usize) -> (v: Vec<bool>)
    ensures
        v.len() == n,
        forall|i: int| 0 <= i < n ==> !v[i],
{
    let mut v: Vec<bool> = Vec::new();
    while v.len() < n
        invariant
            v.len() <= n,
            forall|i: int| 0 <= i < v.len() ==> !v[i],
        decreases n - v.len(),
    {
        v.push(false);
    }
    v
}

/// The lookup data of one slider on one square. The table is there when
/// the multiplier sends no two occupancies with different attacks to one
/// slot; without it the attacks are found by walking the rays.
pub struct MagicEntry {
    kind: Slider,
    square: u32,
    mask: u64,
    magic: u64,
    shift: u32,
    table: Option<Vec<u64>>,
}

impl MagicEntry {
    /// The mask is the slider's, and a table that is there answers every
    /// occupancy as the ray walk does.
    #[verifier::type_invariant]
    pub closed spec fn wf(&self) -> bool {
        &&& self.square < 64
        &&& self.mask == slider_mask(self.kind, self.square)
        &&& match self.table {
            Some(t) => {
                &&& 52 <= self.shift < 64
                &&& forall|occ: u64|
                    #![trigger magic_slot(occ, self.mask, self.magic, self.shift)]
                    0 <= magic_slot(occ, self.mask, self.magic, self.shift) < t.len() && t[magic_slot(
                        occ,
                        self.mask,
                        self.magic,
                        self.shift,
                    )] == slider_attacks(self.kind, self.square, occ)
            },
            None => true,
        }
    }

    /// The kind of slider the entry serves.
    pub closed spec fn spec_kind(&self) -> Slider {
        self.kind
    }

    /// The square the entry serves.
    pub closed spec fn spec_square(&self) -> u32 {
        self.square
    }

    /// The multiplier the entry was built with.
    pub closed spec fn spec_magic(&self) -> u64 {
        self.magic
    }

    /// Whether the entry holds a table.
    pub closed spec fn has_table(&self) -> bool {
        self.table is Some
    }

    /// Builds the entry for a slider on `sq` with the given multiplier:
    /// walks through every subset of the mask, from the empty one up, and
    /// files the attacks found by the ray walk under the subset's slot. The
    /// table is kept unless two subsets with different attacks meet in one
    /// slot.
    pub fn new(kind: Slider, sq: u32, magic: u64) -> (e: MagicEntry)
        requires
            sq < 64,
        ensures
            e.spec_kind() == kind,
            e.spec_square() == sq,
            e.spec_magic() == magic,
            e.has_table() <==> magic_fits(kind, sq, magic),
    {
        let mask = slider_mask_scan(kind, sq);
        let bits = pop_count(mask);
        if bits == 0 || bits > 12 {
            return MagicEntry { kind, square: sq, mask, magic, shift: 0, table: None };
        }
        let shift: u32 = 64 - bits;
        proof {
            lemma_top_bits_bound(0, bits);
        }
        let size: usize = (1u64 << bits) as usize;
        let mut table = zeros(size);
        let mut used = all_false(size);
        let mut sub: u64 = 0;
        let ghost mut owner: Seq<u64> = Seq::new(size as nat, |i: int| 0u64);
        proof {
            lemma_masked_subset(0, mask);
            assert(0u64 & !mask == 0) by (bit_vector);
        }
        loop
            invariant_except_break
                forall|t: u64|
                    #![trigger magic_slot(t, mask, magic, shift)]
                    t & !mask == 0 && t < sub ==> used[magic_slot(t, mask, magic, shift)]
                        && table[magic_slot(t, mask, magic, shift)] == slider_attacks(kind, sq, t),
            invariant
                sq < 64,
                1 <= bits <= 12,
                shift == 64 - bits,
                size == (1u64 << bits),
                table.len() == size,
                used.len() == size,
                mask == slider_mask(kind, sq),
                sub & !mask == 0,
                owner.len() == size,
                bits == bit_count(mask),
                forall|i: int|
                    0 <= i < size && used[i] ==> (#[trigger] owner[i]) & !mask == 0 && magic_slot(
                        owner[i],
                        mask,
                        magic,
                        shift,
                    ) == i && table[i] == slider_attacks(kind, sq, owner[i]),
            ensures
                forall|t: u64|
                    #![trigger magic_slot(t, mask, magic, shift)]
                    t & !mask == 0 ==> used[magic_slot(t, mask, magic, shift)] && table[magic_slot(
                        t,
                        mask,
                        magic,
                        shift,
                    )] == slider_attacks(kind, sq, t),
            decreases mask - sub,
        {
            proof {
                lemma_top_bits_bound((sub & mask).wrapping_mul(magic), bits);
                lemma_masked_subset(sub, mask);
            }
            let idx = ((sub & mask).wrapping_mul(magic) >> shift) as usize;
            assert(idx == magic_slot(sub, mask, magic, shift));
            let found = slider_scan(kind, sq, sub);
            let ghost old_table = table@;
            let ghost old_used = used@;
            if used[idx] {
                if table[idx] != found {
                    proof {
                        let first = owner[idx as int];
                        assert(magic_slot(first, mask, magic, shift) == magic_slot(
                            sub,
                            mask,
                            magic,
                            shift,
                        ));
                        assert(slider_attacks(kind, sq, first) != slider_attacks(kind, sq, sub));
                    }
                    return MagicEntry { kind, square: sq, mask, magic, shift: 0, table: None };
                }
            } else {
                table.set(idx, found);
                used.set(idx, true);
                proof {
                    owner = owner.update(idx as int, sub);
                }
            }
            assert forall|t: u64|
                #![trigger magic_slot(t, mask, magic, shift)]
                t & !mask == 0 && t <= sub implies used[magic_slot(t, mask, magic, shift)]
                && table[magic_slot(t, mask, magic, shift)] == slider_attacks(kind, sq, t) by {
                lemma_top_bits_bound((t & mask).wrapping_mul(magic), bits);
                let slot = magic_slot(t, mask, magic, shift);
                if t < sub {
                    assert(old_used[slot] && old_table[slot] == slider_attacks(kind, sq, t));
                    if slot != idx {
                        assert(table@[slot] == old_table[slot]);
                        assert(used@[slot] == old_used[slot]);
                    }
                } else {
                    assert(t == sub);
                    assert(slot == idx);
                }
            }
            if sub == mask {
                proof {
                    assert forall|t: u64|
                        #![trigger magic_slot(t, mask, magic, shift)]
                        t & !mask == 0 implies t <= sub by {
                        lemma_masked_subset(t, mask);
                    }
                }
                break ;
            }
            proof {
                lemma_next_subset(mask, sub, 0);
            }
            let next: u64 = ((sub | !mask) + 1) & mask;
            proof {
                assert(next == ((((sub | !mask) + 1) as u64) & mask));
                assert(next > sub);
                lemma_masked_subset(next, mask);
                assert forall|t: u64|
                    #![trigger magic_slot(t, mask, magic, shift)]
                    t & !mask == 0 && t < next implies t <= sub by {
                    lemma_next_subset(mask, sub, t);
                }
            }
            sub = next;
        }
        proof {
            assert forall|occ: u64|
                #![trigger magic_slot(occ, mask, magic, shift)]
                0 <= magic_slot(occ, mask, magic, shift) < table.len() && table[magic_slot(
                    occ,
                    mask,
                    magic,
                    shift,
                )] == slider_attacks(kind, sq, occ) by {
                let t = occ & mask;
                lemma_masked_subset(occ, mask);
                lemma_top_bits_bound((occ & mask).wrapping_mul(magic), bits);
                assert(magic_slot(t, mask, magic, shift) == magic_slot(occ, mask, magic, shift));
                lemma_slider_attacks_masked(kind, sq, occ);
            }
            assert(magic_fits(kind, sq, magic));
        }
        MagicEntry { kind, square: sq, mask, magic, shift, table: Some(table) }
    }

    /// Whether attacks are looked up in a table, and not walked.
    pub fn is_magic(&self) -> (r: bool)
        ensures
            r == self.has_table(),
    {
        self.table.is_some()
    }

    /// The table's answer for an occupancy, where there is a table: it is
    /// the set that the ray walk finds.
    pub fn lookup(&self, occ: BBoard) -> (r: Option<BBoard>)
        ensures
            r == if self.has_table() {
                Some(slider_attacks(self.spec_kind(), self.spec_square(), occ))
            } else {
                None
            },
    {
        proof {
            use_type_invariant(self);
        }
        match &self.table {
            Some(t) => {
                let idx = ((occ & self.mask).wrapping_mul(self.magic) >> self.shift) as usize;
                assert(idx == magic_slot(occ, self.mask, self.magic, self.shift));
                Some(t[idx])
            },
            None => None,
        }
    }

    /// The squares the slider attacks when `occ` is occupied.
    pub fn attacks(&self, occ: BBoard) -> (r: BBoard)
        ensures
            r == slider_attacks(self.spec_kind(), self.spec_square(), occ),
    {
        proof {
            use_type_invariant(self);
        }
        match self.lookup(occ) {
            Some(found) => found,
            None => slider_scan(self.kind, self.square, occ),
        }
    }
}

/// The multiplier that the tables are built with.
pub open spec fn magic_of(kind: Slider, sq: u32) -> u64 {
    match kind {
        Slider::Rook => ROOK_MAGICS[sq as int],
        Slider::Bishop => BISHOP_MAGICS[sq as int],
    }
}

/// The multiplier that the tables are built with.
pub fn magic_constant(kind: Slider, sq: u32) -> (r: u64)
    requires
        sq < 64,
    ensures
        r == magic_of(kind, sq),
{
    match kind {
        Slider::Rook => ROOK_MAGICS[sq as usize],
        Slider::Bishop => BISHOP_MAGICS[sq as usize],
    }
}

/// Builds the 64 entries of one kind of slider.
pub fn build_entries(kind: Slider) -> (v: Vec<MagicEntry>)
    ensures
        v.len() == 64,
        forall|i: int|
            0 <= i < 64 ==> (#[trigger] v[i]).spec_kind() == kind && v[i].spec_square() == i
                && (v[i].has_table() <==> magic_fits(kind, i as u32, magic_of(kind, i as u32))),
{
    let mut v: Vec<MagicEntry> = Vec::new();
    let mut sq: u32 = 0;
    while sq < 64
        invariant
            sq <= 64,
            v.len() == sq,
            forall|i: int|
                0 <= i < sq ==> (#[trigger] v[i]).spec_kind() == kind && v[i].spec_square() == i
                    && (v[i].has_table() <==> magic_fits(kind, i as u32, magic_of(kind, i as u32))),
        decreases 64 - sq,
    {
        v.push(MagicEntry::new(kind, sq, magic_constant(kind, sq)));
        sq = sq + 1;
    }
    v
}

} // verus!
