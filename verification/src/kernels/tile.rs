//! What one block of a kernel does to memory, symbolically.
//!
//! A kernel here is an ordinary function that runs one block on symbolic values:
//! a loaded element is [`Expr::Load`], arithmetic builds larger expressions, and
//! the stores and atomic additions are collected in a [`Trace`]. Buffers are named
//! by the position of their pointer among the kernel's arguments; distinct
//! positions are distinct buffers.

use vstd::prelude::*;

use crate::ieee::F32Bits;

verus! {

/// An element-wise function of one argument.
#[derive(Clone, Copy, Debug, PartialEq, Eq, Structural)]
pub enum UnOp {
    Neg,
    Exp,
    Log,
    Sin,
    Cos,
    Sigmoid,
    Rsqrt,
    /// A conversion to the element type of the kernel.
    Cast,
}

/// An element-wise function of two arguments.
#[derive(Clone, Copy, Debug, PartialEq, Eq, Structural)]
pub enum BinOp {
    Add,
    Sub,
    Mul,
    Div,
    Max,
}

/// A scalar that a block computes.
#[derive(Debug)]
pub enum Expr {
    /// The contents that the cell `off` of buffer `buf` had before the block ran.
    Load { buf: usize, off: i32 },
    /// A single-precision constant.
    Const(F32Bits),
    /// The single-precision kernel argument at this position.
    Arg(usize),
    /// An integer converted to floating point.
    Int(i32),
    Un(UnOp, Box<Expr>),
    Bin(BinOp, Box<Expr>, Box<Expr>),
    /// The sum over the lanes of a tile.
    Sum(Box<Lanes>),
}

/// The lanes of a tile under a sum.
#[derive(Debug)]
pub enum Lanes {
    Nil,
    Cons(Box<Expr>, Box<Lanes>),
}

/// The lanes `tile`, as a list.
pub open spec fn lanes_of(tile: Seq<Expr>) -> Lanes
    decreases tile.len(),
{
    if tile.len() == 0 {
        Lanes::Nil
    } else {
        Lanes::Cons(Box::new(tile[0]), Box::new(lanes_of(tile.drop_first())))
    }
}

/// The cell `off` of buffer `buf` before the block ran.
pub open spec fn at(buf: int, off: int) -> Expr {
    Expr::Load { buf: buf as usize, off: off as i32 }
}

/// The sum over the lanes of `tile`.
pub open spec fn sum_of(tile: Seq<Expr>) -> Expr {
    Expr::Sum(Box::new(lanes_of(tile)))
}

/// The positive zero that fills masked-off lanes.
pub open spec fn zero() -> Expr {
    Expr::Const(0)
}

/// A sum that is accumulated tile by tile, after `tiles` tiles of `block` columns.
pub open spec fn tiled_sum(lane: spec_fn(int) -> Expr, block: int, tiles: nat) -> Expr
    decreases tiles,
{
    if tiles == 0 {
        zero()
    } else {
        let first = (tiles - 1) * block;
        tiled_sum(lane, block, (tiles - 1) as nat).plus(
            sum_of(Seq::new(block as nat, |i: int| lane(first + i))),
        )
    }
}

/// The number of tiles of `block` columns that cover `n` columns.
pub open spec fn tiles_in(n: int, block: int) -> nat {
    ((n + block - 1) / block) as nat
}

impl Expr {
    pub open spec fn plus(self, other: Expr) -> Expr {
        Expr::Bin(BinOp::Add, Box::new(self), Box::new(other))
    }

    pub open spec fn minus(self, other: Expr) -> Expr {
        Expr::Bin(BinOp::Sub, Box::new(self), Box::new(other))
    }

    pub open spec fn times(self, other: Expr) -> Expr {
        Expr::Bin(BinOp::Mul, Box::new(self), Box::new(other))
    }

    pub open spec fn over(self, other: Expr) -> Expr {
        Expr::Bin(BinOp::Div, Box::new(self), Box::new(other))
    }

    pub open spec fn maximum(self, other: Expr) -> Expr {
        Expr::Bin(BinOp::Max, Box::new(self), Box::new(other))
    }

    pub open spec fn apply(self, op: UnOp) -> Expr {
        Expr::Un(op, Box::new(self))
    }

    /// A copy of the expression.
    pub fn dup(&self) -> (r: Expr)
        ensures
            r == *self,
        decreases self,
    {
        match self {
            Expr::Load { buf, off } => Expr::Load { buf: *buf, off: *off },
            Expr::Const(bits) => Expr::Const(*bits),
            Expr::Arg(i) => Expr::Arg(*i),
            Expr::Int(n) => Expr::Int(*n),
            Expr::Un(op, a) => Expr::Un(*op, Box::new(a.dup())),
            Expr::Bin(op, a, b) => Expr::Bin(*op, Box::new(a.dup()), Box::new(b.dup())),
            Expr::Sum(lanes) => Expr::Sum(Box::new(lanes.dup())),
        }
    }
}

impl Lanes {
    /// A copy of the list.
    pub fn dup(&self) -> (r: Lanes)
        ensures
            r == *self,
        decreases self,
    {
        match self {
            Lanes::Nil => Lanes::Nil,
            Lanes::Cons(head, tail) => Lanes::Cons(Box::new(head.dup()), Box::new(tail.dup())),
        }
    }
}

// ---------------------------------------------------------------------------
// Tiles
// ---------------------------------------------------------------------------
/// The lanes of a tile of values.
pub type Tile = Vec<Expr>;

/// `op` on every lane.
pub open spec fn mapped(op: UnOp, a: Seq<Expr>) -> Seq<Expr> {
    Seq::new(a.len(), |i: int| a[i].apply(op))
}

/// `op` lane by lane.
pub open spec fn zipped(op: BinOp, a: Seq<Expr>, b: Seq<Expr>) -> Seq<Expr> {
    Seq::new(a.len(), |i: int| Expr::Bin(op, Box::new(a[i]), Box::new(b[i])))
}

/// `n` lanes of `e`.
pub open spec fn filled(n: nat, e: Expr) -> Seq<Expr> {
    Seq::new(n, |i: int| e)
}

/// Applies `op` to every lane.
pub fn tile_map(op: UnOp, a: &Tile) -> (r: Tile)
    ensures
        r@ == mapped(op, a@),
{
    let mut r: Tile = Vec::new();
    let mut i: usize = 0;
    while i < a.len()
        invariant
            i <= a@.len(),
            r@ == mapped(op, a@).take(i as int),
        decreases a@.len() - i,
    {
        r.push(Expr::Un(op, Box::new(a[i].dup())));
        i += 1;
        assert(r@ =~= mapped(op, a@).take(i as int));
    }
    assert(r@ =~= mapped(op, a@));
    r
}

/// Applies `op` lane by lane.
pub fn tile_zip(op: BinOp, a: &Tile, b: &Tile) -> (r: Tile)
    requires
        a@.len() == b@.len(),
    ensures
        r@ == zipped(op, a@, b@),
{
    let mut r: Tile = Vec::new();
    let mut i: usize = 0;
    while i < a.len()
        invariant
            i <= a@.len(),
            a@.len() == b@.len(),
            r@ == zipped(op, a@, b@).take(i as int),
        decreases a@.len() - i,
    {
        r.push(Expr::Bin(op, Box::new(a[i].dup()), Box::new(b[i].dup())));
        i += 1;
        assert(r@ =~= zipped(op, a@, b@).take(i as int));
    }
    assert(r@ =~= zipped(op, a@, b@));
    r
}

/// A tile of `n` lanes that all hold `e`: `full`, or a broadcast of one lane.
pub fn tile_full(n: usize, e: &Expr) -> (r: Tile)
    ensures
        r@ == filled(n as nat, *e),
{
    let mut r: Tile = Vec::new();
    let mut i: usize = 0;
    while i < n
        invariant
            i <= n,
            r@ == filled(i as nat, *e),
        decreases n - i,
    {
        r.push(e.dup());
        i += 1;
        assert(r@ =~= filled(i as nat, *e));
    }
    r
}

/// The sum over the lanes.
pub fn tile_sum(a: &Tile) -> (r: Expr)
    ensures
        r == sum_of(a@),
{
    let mut lanes = Lanes::Nil;
    let mut i: usize = a.len();
    assert(a@.skip(i as int) =~= Seq::empty());
    while i > 0
        invariant
            i <= a@.len(),
            lanes == lanes_of(a@.skip(i as int)),
        decreases i,
    {
        i -= 1;
        lanes = Lanes::Cons(Box::new(a[i].dup()), Box::new(lanes));
        assert(a@.skip(i as int).drop_first() =~= a@.skip(i + 1));
    }
    assert(a@.skip(0) =~= a@);
    Expr::Sum(Box::new(lanes))
}

// ---------------------------------------------------------------------------
// Memory
// ---------------------------------------------------------------------------
/// A value for a cell.
#[derive(Debug)]
pub struct Cell {
    pub buf: usize,
    pub off: i32,
    pub value: Expr,
}

/// The cells of a list of writes, the last write to a cell counting.
pub open spec fn cells_of(writes: Seq<Cell>) -> Map<(int, int), Expr>
    decreases writes.len(),
{
    if writes.len() == 0 {
        Map::empty()
    } else {
        let w = writes.last();
        cells_of(writes.drop_last()).insert((w.buf as int, w.off as int), w.value)
    }
}

/// What a block does to memory.
#[derive(Debug)]
pub struct Trace {
    /// Stores, in order.
    pub stores: Vec<Cell>,
    /// Running totals of the atomic additions, in order.
    pub adds: Vec<Cell>,
}

/// The mathematical value of a [`Trace`]: by buffer and offset, what is stored and
/// what is added.
#[verifier::ext_equal]
pub struct TraceView {
    pub stores: Map<(int, int), Expr>,
    pub adds: Map<(int, int), Expr>,
}

impl View for Trace {
    type V = TraceView;

    open spec fn view(&self) -> TraceView {
        TraceView { stores: cells_of(self.stores@), adds: cells_of(self.adds@) }
    }
}

/// `(buf, off)` is one of the `len` cells from `base` on.
pub open spec fn in_run(c: (int, int), buf: int, base: int, len: nat) -> bool {
    c.0 == buf && base <= c.1 < base + len
}

/// `cells` with the cells of `buf` from `base` on set to `values`.
pub open spec fn with_run(
    cells: Map<(int, int), Expr>,
    buf: int,
    base: int,
    values: Seq<Expr>,
) -> Map<(int, int), Expr> {
    Map::new(
        |c: (int, int)| cells.dom().contains(c) || in_run(c, buf, base, values.len()),
        |c: (int, int)|
            if in_run(c, buf, base, values.len()) {
                values[c.1 - base]
            } else {
                cells[c]
            },
    )
}

/// `cells` with every other cell of `buf` from `base` on set to `values`.
pub open spec fn with_every_other(
    cells: Map<(int, int), Expr>,
    buf: int,
    base: int,
    values: Seq<Expr>,
) -> Map<(int, int), Expr> {
    Map::new(
        |c: (int, int)|
            cells.dom().contains(c) || (in_run(c, buf, base, 2 * values.len()) && (c.1 - base) % 2
                == 0),
        |c: (int, int)|
            if in_run(c, buf, base, 2 * values.len()) && (c.1 - base) % 2 == 0 {
                values[(c.1 - base) / 2]
            } else {
                cells[c]
            },
    )
}

/// `cells` with `values` added to the cells of `buf` from `base` on.
pub open spec fn with_run_added(
    cells: Map<(int, int), Expr>,
    buf: int,
    base: int,
    values: Seq<Expr>,
) -> Map<(int, int), Expr> {
    Map::new(
        |c: (int, int)| cells.dom().contains(c) || in_run(c, buf, base, values.len()),
        |c: (int, int)|
            if !in_run(c, buf, base, values.len()) {
                cells[c]
            } else if cells.dom().contains(c) {
                cells[c].plus(values[c.1 - base])
            } else {
                values[c.1 - base]
            },
    )
}

impl TraceView {
    /// What a load of a cell gives: the value that the block stored there, or the
    /// cell's earlier contents.
    pub open spec fn read(self, buf: int, off: int) -> Expr {
        if self.stores.dom().contains((buf, off)) {
            self.stores[(buf, off)]
        } else {
            at(buf, off)
        }
    }

    /// The `len` cells of `buf` from `base` on.
    pub open spec fn row(self, buf: int, base: int, len: nat) -> Seq<Expr> {
        Seq::new(len, |i: int| self.read(buf, base + i))
    }

    /// A tile of `len` columns from column `start` on, of the row of `buf` at `base`
    /// that is `limit` columns wide; zero beyond its end.
    pub open spec fn masked_row(
        self,
        buf: int,
        base: int,
        start: int,
        limit: int,
        len: nat,
    ) -> Seq<Expr> {
        Seq::new(
            len,
            |i: int|
                if start + i < limit {
                    self.read(buf, base + start + i)
                } else {
                    zero()
                },
        )
    }
}

/// The value that the last write to a cell left, if any.
fn find(writes: &Vec<Cell>, buf: usize, off: i32) -> (r: Option<Expr>)
    ensures
        match r {
            Some(e) => cells_of(writes@).dom().contains((buf as int, off as int)) && e == cells_of(
                writes@,
            )[(buf as int, off as int)],
            None => !cells_of(writes@).dom().contains((buf as int, off as int)),
        },
{
    let mut i: usize = writes.len();
    assert(writes@.take(i as int) =~= writes@);
    while i > 0
        invariant
            i <= writes@.len(),
            ({
                let c = (buf as int, off as int);
                let all = cells_of(writes@);
                let some = cells_of(writes@.take(i as int));
                &&& all.dom().contains(c) == some.dom().contains(c)
                &&& some.dom().contains(c) ==> all[c] == some[c]
            }),
        decreases i,
    {
        assert(writes@.take(i as int).drop_last() =~= writes@.take(i - 1));
        i -= 1;
        let w: &Cell = &writes[i];
        if w.buf == buf && w.off == off {
            return Some(w.value.dup());
        }
    }
    None
}

fn write(writes: &mut Vec<Cell>, buf: usize, off: i32, value: Expr)
    ensures
        cells_of(final(writes)@) == cells_of(old(writes)@).insert((buf as int, off as int), value),
{
    writes.push(Cell { buf, off, value });
    assert(writes@.drop_last() =~= old(writes)@);
}

impl Trace {
    /// Nothing stored, nothing added.
    pub fn new() -> (t: Self)
        ensures
            t@ == (TraceView { stores: Map::empty(), adds: Map::empty() }),
    {
        Trace { stores: Vec::new(), adds: Vec::new() }
    }

    fn load(&self, buf: usize, off: i32) -> (r: Expr)
        ensures
            r == self@.read(buf as int, off as int),
    {
        match find(&self.stores, buf, off) {
            Some(e) => e,
            None => Expr::Load { buf, off },
        }
    }

    /// Loads the `len` cells of `buf` from `base` on.
    pub fn load_row(&self, buf: usize, base: i32, len: i32) -> (r: Tile)
        requires
            0 <= base,
            0 <= len,
            base + len <= i32::MAX,
        ensures
            r@ == self@.row(buf as int, base as int, len as nat),
    {
        let mut r: Tile = Vec::new();
        let mut i: i32 = 0;
        while i < len
            invariant
                0 <= i <= len,
                0 <= base,
                base + len <= i32::MAX,
                r@ == self@.row(buf as int, base as int, i as nat),
            decreases len - i,
        {
            r.push(self.load(buf, base + i));
            i += 1;
            assert(r@ =~= self@.row(buf as int, base as int, i as nat));
        }
        r
    }

    /// Loads every other cell of `buf` from `base` on.
    pub fn load_every_other(&self, buf: usize, base: i32, len: i32) -> (r: Tile)
        requires
            0 <= base,
            0 <= len,
            base + 2 * len - 1 <= i32::MAX,
        ensures
            r@ == Seq::new(len as nat, |i: int| self@.read(buf as int, base + 2 * i)),
    {
        let mut r: Tile = Vec::new();
        let mut i: i32 = 0;
        while i < len
            invariant
                0 <= i <= len,
                0 <= base,
                base + 2 * len - 1 <= i32::MAX,
                r@ == Seq::new(i as nat, |i: int| self@.read(buf as int, base + 2 * i)),
            decreases len - i,
        {
            r.push(self.load(buf, base + 2 * i));
            i += 1;
            assert(r@ =~= Seq::new(i as nat, |i: int| self@.read(buf as int, base + 2 * i)));
        }
        r
    }

    /// Loads a tile of `len` columns from column `start` on, of the row of `buf` at
    /// `base` that is `limit` columns wide. Lanes beyond its end are zero.
    pub fn load_masked(&self, buf: usize, base: i32, start: i32, limit: i32, len: i32) -> (r: Tile)
        requires
            0 <= base,
            0 <= start,
            0 <= len,
            start + len <= i32::MAX,
            base + limit <= i32::MAX,
        ensures
            r@ == self@.masked_row(
                buf as int,
                base as int,
                start as int,
                limit as int,
                len as nat,
            ),
    {
        let mut r: Tile = Vec::new();
        let mut i: i32 = 0;
        while i < len
            invariant
                0 <= i <= len,
                0 <= base,
                0 <= start,
                start + len <= i32::MAX,
                base + limit <= i32::MAX,
                r@ == self@.masked_row(
                    buf as int,
                    base as int,
                    start as int,
                    limit as int,
                    i as nat,
                ),
            decreases len - i,
        {
            let col: i32 = start + i;
            if col < limit {
                r.push(self.load(buf, base + col));
            } else {
                r.push(Expr::Const(0));
            }
            i += 1;
            assert(r@ =~= self@.masked_row(
                buf as int,
                base as int,
                start as int,
                limit as int,
                i as nat,
            ));
        }
        r
    }

    /// Stores the lanes of `tile` to the cells of `buf` from `base` on.
    pub fn store_row(&mut self, buf: usize, base: i32, tile: &Tile)
        requires
            0 <= base,
            base + tile@.len() <= i32::MAX,
        ensures
            final(self)@.stores == with_run(
                old(self)@.stores,
                buf as int,
                base as int,
                tile@,
            ),
            final(self)@.adds == old(self)@.adds,
    {
        let mut i: usize = 0;
        assert(self@.stores =~= with_run(
            old(self)@.stores,
            buf as int,
            base as int,
            tile@.take(0),
        ));
        while i < tile.len()
            invariant
                i <= tile@.len(),
                0 <= base,
                base + tile@.len() <= i32::MAX,
                self@.stores == with_run(
                    old(self)@.stores,
                    buf as int,
                    base as int,
                    tile@.take(i as int),
                ),
                self@.adds == old(self)@.adds,
            decreases tile@.len() - i,
        {
            write(&mut self.stores, buf, base + i as i32, tile[i].dup());
            i += 1;
            assert(self@.stores =~= with_run(
                old(self)@.stores,
                buf as int,
                base as int,
                tile@.take(i as int),
            ));
        }
        assert(tile@.take(i as int) =~= tile@);
    }

    /// Stores the lanes of `tile` to every other cell of `buf` from `base` on.
    pub fn store_every_other(&mut self, buf: usize, base: i32, tile: &Tile)
        requires
            0 <= base,
            base + 2 * tile@.len() - 1 <= i32::MAX,
        ensures
            final(self)@.stores == with_every_other(
                old(self)@.stores,
                buf as int,
                base as int,
                tile@,
            ),
            final(self)@.adds == old(self)@.adds,
    {
        let mut i: usize = 0;
        assert(self@.stores =~= with_every_other(
            old(self)@.stores,
            buf as int,
            base as int,
            tile@.take(0),
        ));
        while i < tile.len()
            invariant
                i <= tile@.len(),
                0 <= base,
                base + 2 * tile@.len() - 1 <= i32::MAX,
                self@.stores == with_every_other(
                    old(self)@.stores,
                    buf as int,
                    base as int,
                    tile@.take(i as int),
                ),
                self@.adds == old(self)@.adds,
            decreases tile@.len() - i,
        {
            write(&mut self.stores, buf, base + 2 * i as i32, tile[i].dup());
            i += 1;
            assert(self@.stores =~= with_every_other(
                old(self)@.stores,
                buf as int,
                base as int,
                tile@.take(i as int),
            ));
        }
        assert(tile@.take(i as int) =~= tile@);
    }

    /// Stores the lanes of `tile` to the columns from `start` on of the row of `buf` at
    /// `base` that is `limit` columns wide. Lanes beyond its end are dropped.
    pub fn store_masked(&mut self, buf: usize, base: i32, start: i32, limit: i32, tile: &Tile)
        requires
            0 <= base,
            0 <= start <= limit,
            start + tile@.len() <= i32::MAX,
            base + limit <= i32::MAX,
        ensures
            final(self)@.stores == with_run(
                old(self)@.stores,
                buf as int,
                base + start,
                if tile@.len() <= limit - start {
                    tile@
                } else {
                    tile@.take(limit - start)
                },
            ),
            final(self)@.adds == old(self)@.adds,
    {
        let mut i: usize = 0;
        assert(self@.stores =~= with_run(
            old(self)@.stores,
            buf as int,
            base + start,
            tile@.take(0),
        ));
        while i < tile.len() && start + (i as i32) < limit
            invariant
                i <= tile@.len(),
                0 <= base,
                0 <= start,
                start + i <= limit,
                start + tile@.len() <= i32::MAX,
                base + limit <= i32::MAX,
                self@.stores == with_run(
                    old(self)@.stores,
                    buf as int,
                    base + start,
                    tile@.take(i as int),
                ),
                self@.adds == old(self)@.adds,
            decreases tile@.len() - i,
        {
            write(&mut self.stores, buf, base + start + i as i32, tile[i].dup());
            i += 1;
            assert(self@.stores =~= with_run(
                old(self)@.stores,
                buf as int,
                base + start,
                tile@.take(i as int),
            ));
        }
        assert(tile@.take(tile@.len() as int) =~= tile@);
    }

    /// Adds the lanes of `tile` atomically to the cells of `buf` from `base` on.
    pub fn add_row(&mut self, buf: usize, base: i32, tile: &Tile)
        requires
            0 <= base,
            base + tile@.len() <= i32::MAX,
        ensures
            final(self)@.adds == with_run_added(
                old(self)@.adds,
                buf as int,
                base as int,
                tile@,
            ),
            final(self)@.stores == old(self)@.stores,
    {
        let mut i: usize = 0;
        assert(self@.adds =~= with_run_added(
            old(self)@.adds,
            buf as int,
            base as int,
            tile@.take(0),
        ));
        while i < tile.len()
            invariant
                i <= tile@.len(),
                0 <= base,
                base + tile@.len() <= i32::MAX,
                self@.adds == with_run_added(
                    old(self)@.adds,
                    buf as int,
                    base as int,
                    tile@.take(i as int),
                ),
                self@.stores == old(self)@.stores,
            decreases tile@.len() - i,
        {
            let off: i32 = base + i as i32;
            let total: Expr = match find(&self.adds, buf, off) {
                Some(e) => Expr::Bin(BinOp::Add, Box::new(e), Box::new(tile[i].dup())),
                None => tile[i].dup(),
            };
            write(&mut self.adds, buf, off, total);
            i += 1;
            assert(self@.adds =~= with_run_added(
                old(self)@.adds,
                buf as int,
                base as int,
                tile@.take(i as int),
            ));
        }
        assert(tile@.take(i as int) =~= tile@);
    }

    /// Adds the lanes of `tile` atomically to the columns from `start` on of the row of
    /// `buf` at `base` that is `limit` columns wide. Lanes beyond its end are dropped.
    pub fn add_masked(&mut self, buf: usize, base: i32, start: i32, limit: i32, tile: &Tile)
        requires
            0 <= base,
            0 <= start <= limit,
            start + tile@.len() <= i32::MAX,
            base + limit <= i32::MAX,
        ensures
            final(self)@.adds == with_run_added(
                old(self)@.adds,
                buf as int,
                base + start,
                if tile@.len() <= limit - start {
                    tile@
                } else {
                    tile@.take(limit - start)
                },
            ),
            final(self)@.stores == old(self)@.stores,
    {
        let mut i: usize = 0;
        assert(self@.adds =~= with_run_added(
            old(self)@.adds,
            buf as int,
            base + start,
            tile@.take(0),
        ));
        while i < tile.len() && start + (i as i32) < limit
            invariant
                i <= tile@.len(),
                0 <= base,
                0 <= start,
                start + i <= limit,
                start + tile@.len() <= i32::MAX,
                base + limit <= i32::MAX,
                self@.adds == with_run_added(
                    old(self)@.adds,
                    buf as int,
                    base + start,
                    tile@.take(i as int),
                ),
                self@.stores == old(self)@.stores,
            decreases tile@.len() - i,
        {
            let off: i32 = base + start + i as i32;
            let total: Expr = match find(&self.adds, buf, off) {
                Some(e) => Expr::Bin(BinOp::Add, Box::new(e), Box::new(tile[i].dup())),
                None => tile[i].dup(),
            };
            write(&mut self.adds, buf, off, total);
            i += 1;
            assert(self@.adds =~= with_run_added(
                old(self)@.adds,
                buf as int,
                base + start,
                tile@.take(i as int),
            ));
        }
        assert(tile@.take(tile@.len() as int) =~= tile@);
    }
}

/// Of several writes to a cell the last counts; a cell without a write is not there.
pub proof fn last_write_counts(writes: Seq<Cell>, k: int, c: (int, int))
    requires
        -1 <= k < writes.len(),
        k >= 0 ==> writes[k].buf == c.0 && writes[k].off == c.1,
        forall|j: int|
            k < j < writes.len() ==> (#[trigger] writes[j]).buf != c.0 || writes[j].off != c.1,
    ensures
        k >= 0 ==> cells_of(writes).dom().contains(c) && cells_of(writes)[c] == writes[k].value,
        k == -1 ==> !cells_of(writes).dom().contains(c),
    decreases writes.len(),
{
    if writes.len() > 0 && k < writes.len() - 1 {
        let rest = writes.drop_last();
        let last = writes[writes.len() - 1];
        assert(last.buf != c.0 || last.off != c.1);
        assert forall|j: int| k < j < rest.len() implies (#[trigger] rest[j]).buf != c.0
            || rest[j].off != c.1 by {
            assert(writes[j].buf != c.0 || writes[j].off != c.1);
        }
        last_write_counts(rest, k, c);
    }
}

/// A row of stores sets the cells from its base on to the lanes, in order, and leaves all
/// others alone; one to every other cell sets those at even distances. A row of additions
/// adds the lanes to what was added before.
pub proof fn rows_change_their_cells(
    cells: Map<(int, int), Expr>,
    buf: int,
    base: int,
    values: Seq<Expr>,
    c: (int, int),
    i: int,
)
    requires
        0 <= i < values.len(),
    ensures
        ({
            let run = with_run(cells, buf, base, values);
            let gaps = with_every_other(cells, buf, base, values);
            let sums = with_run_added(cells, buf, base, values);
            let n = values.len();
            &&& run.dom().contains((buf, base + i)) && run[(buf, base + i)] == values[i]
            &&& gaps.dom().contains((buf, base + 2 * i)) && gaps[(buf, base + 2 * i)] == values[i]
            &&& sums.dom().contains((buf, base + i))
            &&& cells.dom().contains((buf, base + i)) ==> sums[(buf, base + i)] == Expr::Bin(
                BinOp::Add,
                Box::new(cells[(buf, base + i)]),
                Box::new(values[i]),
            )
            &&& !cells.dom().contains((buf, base + i)) ==> sums[(buf, base + i)] == values[i]
            &&& c.0 != buf || c.1 < base || c.1 >= base + n ==> {
                &&& run.dom().contains(c) == cells.dom().contains(c)
                &&& sums.dom().contains(c) == cells.dom().contains(c)
                &&& cells.dom().contains(c) ==> run[c] == cells[c] && sums[c] == cells[c]
            }
            &&& c.0 != buf || c.1 < base || c.1 >= base + 2 * n || (c.1 - base) % 2 != 0 ==> {
                &&& gaps.dom().contains(c) == cells.dom().contains(c)
                &&& cells.dom().contains(c) ==> gaps[c] == cells[c]
            }
        }),
{
}

/// A load gives what the block stored in the cell, or else what the cell held before. A row
/// is read in order; columns beyond its end read as zero.
pub proof fn loads_see_stores(
    t: TraceView,
    buf: usize,
    base: i32,
    start: int,
    limit: int,
    len: nat,
    i: int,
)
    requires
        0 <= i < len,
    ensures
        t.stores.dom().contains((buf as int, base as int)) ==> t.read(buf as int, base as int)
            == t.stores[(buf as int, base as int)],
        !t.stores.dom().contains((buf as int, base as int)) ==> t.read(buf as int, base as int) == (
        Expr::Load { buf, off: base }),
        t.row(buf as int, base as int, len).len() == len,
        t.row(buf as int, base as int, len)[i] == t.read(buf as int, base + i),
        t.masked_row(buf as int, base as int, start, limit, len).len() == len,
        start + i < limit ==> t.masked_row(buf as int, base as int, start, limit, len)[i] == t.read(
            buf as int,
            base + start + i,
        ),
        start + i >= limit ==> t.masked_row(buf as int, base as int, start, limit, len)[i]
            == Expr::Const(0),
{
}

} // verus!
