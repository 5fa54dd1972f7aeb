//! Weights of the system calls: a base cost per call, a cost per item, and the database reads
//! and writes each call makes, all combined with saturating arithmetic.

use vstd::prelude::*;

verus! {

/// An amount of execution weight.
pub type Weight = u64;

/// `x` clamped to the range of `u64`.
pub open spec fn sat(x: int) -> u64 {
    if x > u64::MAX {
        u64::MAX
    } else {
        x as u64
    }
}

/// `a * b`, or `u64::MAX` where the product does not fit.
pub fn saturating_mul(a: u64, b: u64) -> (r: u64)
    ensures
        r == sat(a * b),
{
    if b != 0 && a > u64::MAX / b {
        proof {
            assert(a * b > u64::MAX) by (nonlinear_arith)
                requires
                    b != 0,
                    a > u64::MAX / b,
            ;
        }
        u64::MAX
    } else {
        proof {
            assert(a * b <= u64::MAX) by (nonlinear_arith)
                requires
                    b == 0 || a <= u64::MAX / b,
            ;
        }
        a * b
    }
}

/// `a + b`, or `u64::MAX` where the sum does not fit.
pub fn saturating_add(a: u64, b: u64) -> (r: u64)
    ensures
        r == sat(a + b),
{
    a.saturating_add(b)
}

/// The weight of one database read and of one database write.
#[derive(Clone, Copy, Debug, PartialEq, Eq, Structural)]
pub struct RuntimeDbWeight {
    pub read: Weight,
    pub write: Weight,
}

/// Weight of one read of a RocksDB database.
pub const ROCKS_DB_READ: Weight = 25_000_000;

/// Weight of one write to a RocksDB database.
pub const ROCKS_DB_WRITE: Weight = 100_000_000;

impl RuntimeDbWeight {
    /// The weights of a RocksDB database.
    pub fn rocks_db() -> (r: Self)
        ensures
            r.read == ROCKS_DB_READ,
            r.write == ROCKS_DB_WRITE,
    {
        RuntimeDbWeight { read: ROCKS_DB_READ, write: ROCKS_DB_WRITE }
    }

    /// Weight of `r` reads.
    pub fn reads(&self, r: Weight) -> (w: Weight)
        ensures
            w == sat(self.read * r),
    {
        saturating_mul(self.read, r)
    }

    /// Weight of `n` writes.
    pub fn writes(&self, n: Weight) -> (w: Weight)
        ensures
            w == sat(self.write * n),
    {
        saturating_mul(self.write, n)
    }
}

/// Weight functions of the system calls.
pub trait WeightInfo {
    fn remark(&self, b: u32) -> Weight;

    fn remark_with_event(&self, b: u32) -> Weight;

    fn set_heap_pages(&self) -> Weight;

    fn set_storage(&self, i: u32) -> Weight;

    fn kill_storage(&self, i: u32) -> Weight;

    fn kill_prefix(&self, p: u32) -> Weight;

    fn worst_case_write_no_transactional(&self) -> Weight;

    fn worst_case_transactional_no_write(&self, l: u32) -> Weight;

    fn worst_case_transactional_write(&self, l: u32) -> Weight;
}

/// Weights measured on reference hardware, over the database weights of the runtime.
pub struct SubstrateWeight {
    pub db: RuntimeDbWeight,
}

impl WeightInfo for SubstrateWeight {
    fn remark(&self, b: u32) -> (r: Weight)
        ensures
            r == 0,
    {
        0
    }

    fn remark_with_event(&self, b: u32) -> (r: Weight)
        ensures
            r == 1_000 * b,
    {
        saturating_add(0, saturating_mul(1_000, b as u64))
    }

    fn set_heap_pages(&self) -> (r: Weight)
        ensures
            r == sat(sat(2_952_000 + sat(self.db.read * 1)) + sat(self.db.write * 2)),
    {
        saturating_add(saturating_add(2_952_000, self.db.reads(1)), self.db.writes(2))
    }

    fn set_storage(&self, i: u32) -> (r: Weight)
        ensures
            r == sat(417_000 * i + sat(self.db.write * i)),
    {
        saturating_add(
            saturating_add(0, saturating_mul(417_000, i as u64)),
            self.db.writes(saturating_mul(1, i as u64)),
        )
    }

    fn kill_storage(&self, i: u32) -> (r: Weight)
        ensures
            r == sat(312_000 * i + sat(self.db.write * i)),
    {
        saturating_add(
            saturating_add(0, saturating_mul(312_000, i as u64)),
            self.db.writes(saturating_mul(1, i as u64)),
        )
    }

    fn kill_prefix(&self, p: u32) -> (r: Weight)
        ensures
            r == sat(650_000 * p + sat(self.db.write * p)),
    {
        saturating_add(
            saturating_add(0, saturating_mul(650_000, p as u64)),
            self.db.writes(saturating_mul(1, p as u64)),
        )
    }

    fn worst_case_write_no_transactional(&self) -> (r: Weight)
        ensures
            r == sat(529_094_000 + sat(self.db.write * 1000)),
    {
        saturating_add(529_094_000, self.db.writes(1000))
    }

    fn worst_case_transactional_no_write(&self, l: u32) -> (r: Weight)
        ensures
            r == 715_000 + 49_000 * l,
    {
        saturating_add(715_000, saturating_mul(49_000, l as u64))
    }

    fn worst_case_transactional_write(&self, l: u32) -> (r: Weight)
        ensures
            r == sat(480_023_000 + 146_163_000 * l + sat(self.db.write * 1000)),
    {
        saturating_add(
            saturating_add(480_023_000, saturating_mul(146_163_000, l as u64)),
            self.db.writes(1000),
        )
    }
}

/// The weights over a RocksDB database, for setups without a runtime of their own.
impl WeightInfo for () {
    fn remark(&self, b: u32) -> (r: Weight)
        ensures
            r == 0,
    {
        rocks_db_weights().remark(b)
    }

    fn remark_with_event(&self, b: u32) -> (r: Weight)
        ensures
            r == 1_000 * b,
    {
        rocks_db_weights().remark_with_event(b)
    }

    fn set_heap_pages(&self) -> (r: Weight)
        ensures
            r == 2_952_000 + ROCKS_DB_READ + 2 * ROCKS_DB_WRITE,
    {
        rocks_db_weights().set_heap_pages()
    }

    fn set_storage(&self, i: u32) -> (r: Weight)
        ensures
            r == 417_000 * i + ROCKS_DB_WRITE * i,
    {
        rocks_db_weights().set_storage(i)
    }

    fn kill_storage(&self, i: u32) -> (r: Weight)
        ensures
            r == 312_000 * i + ROCKS_DB_WRITE * i,
    {
        rocks_db_weights().kill_storage(i)
    }

    fn kill_prefix(&self, p: u32) -> (r: Weight)
        ensures
            r == 650_000 * p + ROCKS_DB_WRITE * p,
    {
        rocks_db_weights().kill_prefix(p)
    }

    fn worst_case_write_no_transactional(&self) -> (r: Weight)
        ensures
            r == 529_094_000 + 1000 * ROCKS_DB_WRITE,
    {
        rocks_db_weights().worst_case_write_no_transactional()
    }

    fn worst_case_transactional_no_write(&self, l: u32) -> (r: Weight)
        ensures
            r == 715_000 + 49_000 * l,
    {
        rocks_db_weights().worst_case_transactional_no_write(l)
    }

    fn worst_case_transactional_write(&self, l: u32) -> (r: Weight)
        ensures
            r == 480_023_000 + 146_163_000 * l + 1000 * ROCKS_DB_WRITE,
    {
        rocks_db_weights().worst_case_transactional_write(l)
    }
}

/// The reference weights over a RocksDB database.
fn rocks_db_weights() -> (r: SubstrateWeight)
    ensures
        r.db.read == ROCKS_DB_READ,
        r.db.write == ROCKS_DB_WRITE,
{
    SubstrateWeight { db: RuntimeDbWeight::rocks_db() }
}

} // verus!
