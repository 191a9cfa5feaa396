use vstd::prelude::*;
use vstd::arithmetic::power2::{pow2, lemma_pow2_unfold, lemma2_to64, lemma_pow2_pos};
use crate::square::Square;

verus! {

/// Whether position `j` of an abstract line is occupied in the pattern `occ`.
pub open spec fn occupied(occ: nat, j: nat) -> bool {
    (occ / pow2(j)) % 2 == 1
}

/// The positions below `from` that a slider standing on `from` reaches: each one
/// going down is attacked, and the first occupied one stops the ray.
pub open spec fn ray_down(occ: nat, from: nat) -> nat
    decreases from,
{
    if from == 0 {
        0
    } else {
        let j = (from - 1) as nat;
        if occupied(occ, j) {
            pow2(j)
        } else {
            pow2(j) + ray_down(occ, j)
        }
    }
}

/// The positions above `from` on a line of eight, reached the same way upwards.
pub open spec fn ray_up(occ: nat, from: nat) -> nat
    decreases 7 - from,
{
    if from >= 7 {
        0
    } else {
        let j = from + 1;
        if occupied(occ, j) {
            pow2(j)
        } else {
            pow2(j) + ray_up(occ, j)
        }
    }
}

/// The attack pattern of a slider on position `idx` of a line of eight squares
/// whose occupancy is `occ`.
pub open spec fn line_attacks(idx: nat, occ: nat) -> nat {
    ray_down(occ, idx) + ray_up(occ, idx)
}

proof fn lemma_ray_down_bound(occ: nat, from: nat)
    ensures
        ray_down(occ, from) < pow2(from),
    decreases from,
{
    if from == 0 {
        lemma2_to64();
    } else {
        let j = (from - 1) as nat;
        lemma_ray_down_bound(occ, j);
        lemma_pow2_unfold(from);
        lemma_pow2_pos(j);
    }
}

proof fn lemma_ray_up_bound(occ: nat, from: nat)
    requires
        from <= 7,
    ensures
        ray_up(occ, from) + 2 * pow2(from) <= 256,
    decreases 7 - from,
{
    lemma2_to64();
    if from < 7 {
        let j = from + 1;
        lemma_ray_up_bound(occ, j);
        lemma_pow2_unfold(j);
        lemma_pow2_pos(j);
    }
}

pub proof fn lemma_line_attacks_bound(idx: nat, occ: nat)
    requires
        idx < 8,
    ensures
        line_attacks(idx, occ) < 256,
{
    lemma_ray_down_bound(occ, idx);
    lemma_ray_up_bound(occ, idx);
}

fn bit_value(j: u64) -> (r: u64)
    requires
        j < 64,
    ensures
        r == pow2(j as nat),
        r > 0,
{
    proof {
        vstd::bits::lemma_u64_pow2_no_overflow(j as nat);
        vstd::bits::lemma_u64_shl_is_mul(1, j);
    }
    1u64 << j
}

fn scan_down(occ: u64, from: u64) -> (r: u64)
    requires
        from < 8,
    ensures
        r == ray_down(occ as nat, from as nat),
    decreases from,
{
    if from == 0 {
        0
    } else {
        let j = from - 1;
        let b = bit_value(j);
        proof {
            lemma_ray_down_bound(occ as nat, from as nat);
            lemma2_to64();
        }
        if (occ / b) % 2 == 1 {
            b
        } else {
            b + scan_down(occ, j)
        }
    }
}

fn scan_up(occ: u64, from: u64) -> (r: u64)
    requires
        from < 8,
    ensures
        r == ray_up(occ as nat, from as nat),
    decreases 7 - from,
{
    if from >= 7 {
        0
    } else {
        let j = from + 1;
        let b = bit_value(j);
        proof {
            lemma_ray_up_bound(occ as nat, from as nat);
        }
        if (occ / b) % 2 == 1 {
            b
        } else {
            b + scan_up(occ, j)
        }
    }
}

/// The attack tables of the sliding pieces.
pub struct AttackTables {
    pub rook_attacks: SlidingAttackTable,
}

/// One attack set per square, for the squares that have one.
pub struct BishopAttackTable {
    pub table: Vec<Option<u64>>,
}

impl BishopAttackTable {
    pub open spec fn wf(&self) -> bool {
        self.table@.len() == 64
    }

    /// A table with no entries.
    pub fn new() -> (r: Self)
        ensures
            r.wf(),
            forall|s: int| 0 <= s < 64 ==> #[trigger] r.table@[s] == None::<u64>,
    {
        let mut table: Vec<Option<u64>> = Vec::new();
        let mut k: usize = 0;
        while k < 64
            invariant
                k <= 64,
                table@.len() == k,
                forall|j: int| 0 <= j < k ==> table@[j] == None::<u64>,
            decreases 64 - k,
        {
            table.push(None);
            k += 1;
        }
        BishopAttackTable { table }
    }

    /// Records `value` for `square`; the occupancy `mask` does not take part in the key.
    pub fn insert(&mut self, square: Square, mask: u64, value: u64)
        requires
            old(self).wf(),
            square.wf(),
        ensures
            final(self).wf(),
            final(self).table@ == old(self).table@.update(square.index_spec() as int, Some(value)),
    {
        self.table.set(square.index() as usize, Some(value));
    }

    /// The value recorded for `square`.
    pub fn get(&self, square: Square, mask: u64) -> (r: Option<u64>)
        requires
            self.wf(),
            square.wf(),
        ensures
            r == self.table@[square.index_spec() as int],
    {
        self.table[square.index() as usize]
    }
}

/// One attack set per square, for the knight.
pub struct KnightAttackTable {
    pub table: Vec<Option<u64>>,
}

/// Table from (line position, 8-bit occupancy) to an 8-bit attack pattern,
/// stored row by row: entry `index * 256 + occupancy`.
pub struct SlidingAttackTable {
    pub table: Vec<Option<u64>>,
}

impl SlidingAttackTable {
    pub open spec fn wf(&self) -> bool {
        self.table@.len() == 2048
    }

    /// What the table holds for a line position and an occupancy pattern.
    pub open spec fn entry(&self, index: nat, occ: nat) -> Option<u64> {
        if index < 8 && occ < 256 {
            self.table@[(index * 256 + occ) as int]
        } else {
            None
        }
    }

    /// Every entry holds the attack pattern of its position and occupancy.
    pub open spec fn is_rank_attack_table(&self) -> bool {
        &&& self.wf()
        &&& forall|i: nat, o: nat|
            i < 8 && o < 256 ==> #[trigger] self.entry(i, o) == Some(line_attacks(i, o) as u64)
    }

    /// A table with no entries.
    pub fn new() -> (r: Self)
        ensures
            r.wf(),
            forall|i: nat, o: nat| #[trigger] r.entry(i, o) == None::<u64>,
    {
        let mut table: Vec<Option<u64>> = Vec::new();
        let mut k: usize = 0;
        while k < 2048
            invariant
                k <= 2048,
                table@.len() == k,
                forall|j: int| 0 <= j < k ==> table@[j] == None::<u64>,
            decreases 2048 - k,
        {
            table.push(None);
            k += 1;
        }
        let r = SlidingAttackTable { table };
        assert forall|i: nat, o: nat| #[trigger] r.entry(i, o) == None::<u64> by {
            if i < 8 && o < 256 {
                assert(i * 256 + o < 2048) by (nonlinear_arith)
                    requires
                        i < 8,
                        o < 256,
                ;
            }
        }
        r
    }

    /// Records `value` for the line position `index` and occupancy pattern `mask`.
    pub fn insert(&mut self, index: u8, mask: u64, value: u64)
        requires
            old(self).wf(),
            index < 8,
            mask < 256,
        ensures
            final(self).wf(),
            final(self).entry(index as nat, mask as nat) == Some(value),
            forall|i: nat, o: nat|
                !(i == index && o == mask) ==> #[trigger] final(self).entry(i, o) == old(self).entry(i, o),
    {
        let k = index as usize * 256 + mask as usize;
        self.table.set(k, Some(value));
        assert forall|i: nat, o: nat|
            !(i == index && o == mask) implies #[trigger] self.entry(i, o) == old(self).entry(i, o) by {
            if i < 8 && o < 256 {
                assert(i * 256 + o != index * 256 + mask && i * 256 + o < 2048) by (nonlinear_arith)
                    requires
                        i < 8,
                        o < 256,
                        index < 8,
                        mask < 256,
                        !(i == index && o == mask),
                ;
            }
        }
    }

    /// The value recorded for the line position `index` and occupancy pattern `mask`.
    pub fn get(&self, index: u8, mask: u64) -> (r: Option<u64>)
        requires
            self.wf(),
        ensures
            r == self.entry(index as nat, mask as nat),
    {
        if index < 8 && mask < 256 {
            self.table[index as usize * 256 + mask as usize]
        } else {
            None
        }
    }
}

/// Two tables built as rank attack tables hold the same entries.
pub proof fn lemma_rank_attack_table_unique(a: SlidingAttackTable, b: SlidingAttackTable)
    requires
        a.is_rank_attack_table(),
        b.is_rank_attack_table(),
    ensures
        forall|i: nat, o: nat| #[trigger] a.entry(i, o) == b.entry(i, o),
{
}

/// Builds the table of attack patterns for every position of a line of eight
/// and every occupancy of that line.
pub fn generate_rank_attack_table() -> (r: SlidingAttackTable)
    ensures
        r.is_rank_attack_table(),
{
    let mut rank_attacks = SlidingAttackTable::new();
    let mut file: u8 = 0;
    while file < 8
        invariant
            file <= 8,
            rank_attacks.wf(),
            forall|i: nat, o: nat|
                i < file && o < 256 ==> #[trigger] rank_attacks.entry(i, o) == Some(line_attacks(i, o) as u64),
        decreases 8 - file,
    {
        let mut mask: u64 = 0;
        while mask < 256
            invariant
                file < 8,
                mask <= 256,
                rank_attacks.wf(),
                forall|i: nat, o: nat|
                    (i < file && o < 256) || (i == file && o < mask) ==> #[trigger] rank_attacks.entry(i, o)
                        == Some(line_attacks(i, o) as u64),
            decreases 256 - mask,
        {
            let down = scan_down(mask, file as u64);
            let up = scan_up(mask, file as u64);
            proof {
                lemma_line_attacks_bound(file as nat, mask as nat);
            }
            rank_attacks.insert(file, mask, down + up);
            mask += 1;
        }
        file += 1;
    }
    rank_attacks
}

} // verus!
