//! Kernel traces, evaluated on numbers.

use std::collections::BTreeMap;

use teenyformers::kernels::flash_attn2::{
    flash_attn2_backward, flash_attn2_causal_bwd, flash_attn2_causal_fwd,
};
use teenyformers::kernels::fused_add_rmsnorm::{
    fused_add_rmsnorm_backward, fused_add_rmsnorm_forward,
};
use teenyformers::kernels::rope::{rope_backward, rope_forward};
use teenyformers::kernels::swiglu::{swiglu_backward, swiglu_forward};
use teenyformers::kernels::tile::{BinOp, Cell, Expr, Lanes, Trace, UnOp};
use teenyformers::kernels::token_embed::{token_embed_forward, token_embed_gather};
use teenyformers::kernels::transpose_heads::{merge_heads, transpose_heads};

/// Buffers by argument position, scalar arguments by argument position.
struct Machine {
    buffers: BTreeMap<usize, Vec<f64>>,
    args: BTreeMap<usize, f64>,
}

impl Machine {
    fn new() -> Self {
        Machine { buffers: BTreeMap::new(), args: BTreeMap::new() }
    }

    fn buffer(mut self, position: usize, data: Vec<f64>) -> Self {
        self.buffers.insert(position, data);
        self
    }

    fn arg(mut self, position: usize, value: f64) -> Self {
        self.args.insert(position, value);
        self
    }

    fn eval(&self, e: &Expr) -> f64 {
        match e {
            Expr::Load { buf, off } => self.buffers[buf][*off as usize],
            Expr::Const(bits) => f32::from_bits(*bits) as f64,
            Expr::Arg(i) => self.args[i],
            Expr::Int(n) => *n as f64,
            Expr::Un(op, a) => {
                let x = self.eval(a);
                match op {
                    UnOp::Neg => -x,
                    UnOp::Exp => x.exp(),
                    UnOp::Log => x.ln(),
                    UnOp::Sin => x.sin(),
                    UnOp::Cos => x.cos(),
                    UnOp::Sigmoid => 1.0 / (1.0 + (-x).exp()),
                    UnOp::Rsqrt => 1.0 / x.sqrt(),
                    UnOp::Cast => x,
                }
            }
            Expr::Bin(op, a, b) => {
                let (x, y) = (self.eval(a), self.eval(b));
                match op {
                    BinOp::Add => x + y,
                    BinOp::Sub => x - y,
                    BinOp::Mul => x * y,
                    BinOp::Div => x / y,
                    BinOp::Max => x.max(y),
                }
            }
            Expr::Sum(lanes) => {
                let mut total = 0.0;
                let mut rest: &Lanes = lanes;
                while let Lanes::Cons(head, tail) = rest {
                    total += self.eval(head);
                    rest = tail;
                }
                total
            }
        }
    }

    fn cells(&self, list: &[Cell]) -> BTreeMap<(usize, i32), f64> {
        let mut out = BTreeMap::new();
        for c in list {
            out.insert((c.buf, c.off), self.eval(&c.value));
        }
        out
    }

    fn stores(&self, t: &Trace) -> BTreeMap<(usize, i32), f64> {
        self.cells(&t.stores)
    }

    fn adds(&self, t: &Trace) -> BTreeMap<(usize, i32), f64> {
        self.cells(&t.adds)
    }

    /// Applies a block: its stores replace, its additions accumulate.
    fn run(&mut self, t: &Trace) {
        let (stores, adds) = (self.stores(t), self.adds(t));
        self.apply(stores, adds);
    }

    /// Runs blocks that all read before any of them writes; they write in reverse order.
    fn run_overlapping(&mut self, blocks: &[Trace]) {
        let effects: Vec<_> = blocks.iter().map(|t| (self.stores(t), self.adds(t))).collect();
        for (stores, adds) in effects.into_iter().rev() {
            self.apply(stores, adds);
        }
    }

    fn apply(
        &mut self,
        stores: BTreeMap<(usize, i32), f64>,
        adds: BTreeMap<(usize, i32), f64>,
    ) {
        for ((buf, off), x) in stores {
            self.buffers.get_mut(&buf).unwrap()[off as usize] = x;
        }
        for ((buf, off), x) in adds {
            self.buffers.get_mut(&buf).unwrap()[off as usize] += x;
        }
    }
}

fn near(a: f64, b: f64) -> bool {
    (a - b).abs() <= 1e-9 * (1.0 + a.abs().max(b.abs()))
}

fn all_near(a: &[f64], b: &[f64]) -> bool {
    a.len() == b.len() && a.iter().zip(b).all(|(x, y)| near(*x, *y))
}

/// `n` numbers without a pattern.
fn data(n: usize, seed: u64) -> Vec<f64> {
    let mut s = seed.wrapping_mul(0x9E37_79B9_7F4A_7C15).wrapping_add(12345);
    (0..n)
        .map(|_| {
            s = s.wrapping_mul(6364136223846793005).wrapping_add(1442695040888963407);
            ((s >> 33) as f64 / (1u64 << 31) as f64) * 2.0 - 1.0
        })
        .collect()
}

#[test]
fn transpose_splits_heads() {
    let (s, h, d) = (3, 2, 4);
    let src: Vec<f64> = (0..s * h * d).map(|i| i as f64).collect();
    let mut m = Machine::new().buffer(0, src.clone()).buffer(1, vec![-1.0; s * h * d]);
    for ps in 0..s {
        for ph in 0..h {
            m.run(&transpose_heads(ps as i32, ph as i32, d as i32, s as i32, h as i32));
        }
    }
    for ps in 0..s {
        for ph in 0..h {
            for i in 0..d {
                assert_eq!(m.buffers[&1][(ph * s + ps) * d + i], src[(ps * h + ph) * d + i]);
            }
        }
    }
}

#[test]
fn merge_undoes_transpose() {
    let (s, h, d) = (5, 3, 2);
    let src = data(s * h * d, 1);
    let mut m = Machine::new().buffer(0, src.clone()).buffer(1, vec![0.0; s * h * d]);
    for ps in 0..s {
        for ph in 0..h {
            m.run(&transpose_heads(ps as i32, ph as i32, d as i32, s as i32, h as i32));
        }
    }
    let mut back = Machine::new().buffer(0, m.buffers[&1].clone()).buffer(1, vec![0.0; s * h * d]);
    for ps in 0..s {
        for ph in 0..h {
            back.run(&merge_heads(ps as i32, ph as i32, d as i32, s as i32, h as i32));
        }
    }
    assert_eq!(back.buffers[&1], src);
}

#[test]
fn swiglu_forward_values() {
    let (m_rows, d_ff) = (3, 5);
    let z = data(m_rows * 2 * d_ff, 2);
    for block_n in [1, 2, 4, 5, 8] {
        let mut m = Machine::new().buffer(0, z.clone()).buffer(1, vec![0.0; m_rows * d_ff]);
        for row in 0..m_rows {
            m.run(&swiglu_forward(row as i32, block_n, m_rows as i32, d_ff as i32));
        }
        for row in 0..m_rows {
            for n in 0..d_ff {
                let gate = z[row * 2 * d_ff + n];
                let up = z[row * 2 * d_ff + d_ff + n];
                let expected = gate / (1.0 + (-gate).exp()) * up;
                assert!(near(m.buffers[&1][row * d_ff + n], expected));
            }
        }
    }
}

#[test]
fn swiglu_backward_is_the_derivative() {
    let (m_rows, d_ff) = (2, 3);
    let z = data(m_rows * 2 * d_ff, 3);
    let grad = data(m_rows * d_ff, 4);
    let mut m = Machine::new()
        .buffer(0, grad.clone())
        .buffer(1, z.clone())
        .buffer(2, vec![0.0; z.len()]);
    for row in 0..m_rows {
        m.run(&swiglu_backward(row as i32, 2, m_rows as i32, d_ff as i32));
    }
    let loss = |z: &[f64]| {
        let mut total = 0.0;
        for row in 0..m_rows {
            for n in 0..d_ff {
                let gate = z[row * 2 * d_ff + n];
                let up = z[row * 2 * d_ff + d_ff + n];
                total += grad[row * d_ff + n] * gate / (1.0 + (-gate).exp()) * up;
            }
        }
        total
    };
    for i in 0..z.len() {
        let (mut lo, mut hi) = (z.clone(), z.clone());
        lo[i] -= 1e-5;
        hi[i] += 1e-5;
        let slope = (loss(&hi) - loss(&lo)) / 2e-5;
        assert!((slope - m.buffers[&2][i]).abs() < 1e-8);
    }
}

#[test]
fn token_embed_copies_rows() {
    let (vocab, seq, d_model) = (7, 3, 5);
    let table = data(vocab * d_model, 5);
    let ids = [6, 0, 3];
    for block_d in [1, 4, 16] {
        let mut m = Machine::new().buffer(1, table.clone()).buffer(2, vec![0.0; seq * d_model]);
        for (pid, id) in ids.iter().enumerate() {
            m.run(&token_embed_forward(pid as i32, *id, block_d, seq as i32, d_model as i32));
        }
        for (pid, id) in ids.iter().enumerate() {
            let id = *id as usize;
            assert_eq!(
                m.buffers[&2][pid * d_model..(pid + 1) * d_model],
                table[id * d_model..(id + 1) * d_model]
            );
        }
    }
}

#[test]
fn gather_reads_its_ids() {
    let (vocab, d_model) = (7, 5);
    let table = data(vocab * d_model, 5);
    let ids: Vec<u32> = [6.0_f32, 0.0, 3.75, -0.5].iter().map(|x| x.to_bits()).collect();
    let seq = ids.len();
    let mut m = Machine::new().buffer(1, table.clone()).buffer(2, vec![0.0; seq * d_model]);
    for pid in 0..seq {
        m.run(&token_embed_gather(&ids, pid as i32, 4, seq as i32, d_model as i32));
    }
    for (pid, id) in [6, 0, 3, 0].into_iter().enumerate() {
        assert_eq!(
            m.buffers[&2][pid * d_model..(pid + 1) * d_model],
            table[id * d_model..(id + 1) * d_model]
        );
    }
}

#[test]
fn rope_rotates_pairs() {
    let (bh, n_ctx, head_dim) = (2, 3, 4);
    let x = data(bh * n_ctx * head_dim, 6);
    let base = 10_000.0_f64;
    let mut m = Machine::new().buffer(0, x.clone()).buffer(1, vec![0.0; x.len()]).arg(3, base.ln());
    for b in 0..bh {
        for p in 0..n_ctx {
            m.run(&rope_forward(p as i32, b as i32, head_dim as i32, n_ctx as i32));
        }
    }
    for b in 0..bh {
        for p in 0..n_ctx {
            for k in 0..head_dim / 2 {
                let row = (b * n_ctx + p) * head_dim;
                let theta = p as f64 * base.powf(-2.0 * k as f64 / head_dim as f64);
                let (u, v) = (x[row + 2 * k], x[row + 2 * k + 1]);
                assert!(near(m.buffers[&1][row + 2 * k], u * theta.cos() - v * theta.sin()));
                assert!(near(m.buffers[&1][row + 2 * k + 1], u * theta.sin() + v * theta.cos()));
            }
        }
    }
}

#[test]
fn rope_backward_undoes_forward() {
    let (n_ctx, head_dim) = (4, 8);
    let x = data(n_ctx * head_dim, 7);
    let mut m = Machine::new().buffer(0, x.clone()).buffer(1, vec![0.0; x.len()]).arg(3, 9.2);
    for p in 0..n_ctx {
        m.run(&rope_forward(p as i32, 0, head_dim as i32, n_ctx as i32));
    }
    let mut back = Machine::new()
        .buffer(0, m.buffers[&1].clone())
        .buffer(1, vec![0.0; x.len()])
        .arg(3, 9.2);
    for p in 0..n_ctx {
        back.run(&rope_backward(p as i32, 0, head_dim as i32, n_ctx as i32));
    }
    assert!(all_near(&back.buffers[&1], &x));
}

#[test]
fn rope_ignores_the_last_cell_of_an_odd_head() {
    let t = rope_forward(0, 0, 3, 1);
    let cells: Vec<i32> = t.stores.iter().map(|c| c.off).collect();
    assert_eq!(cells, vec![0, 1]);
}

/// Row-wise reference of the fused addition and normalisation.
fn rmsnorm_reference(x: &[f64], r: &[f64], w: &[f64], eps: f64) -> (Vec<f64>, Vec<f64>, f64) {
    let h: Vec<f64> = x.iter().zip(r).map(|(a, b)| a + b).collect();
    let mean = h.iter().map(|v| v * v).sum::<f64>() / h.len() as f64;
    let rstd = 1.0 / (mean + eps).sqrt();
    let y = h.iter().zip(w).map(|(v, g)| v * rstd * g).collect();
    (h, y, rstd)
}

#[test]
fn fused_forward_values() {
    let (rows, n) = (2, 5);
    let (x, r, w) = (data(rows * n, 8), data(rows * n, 9), data(n, 10));
    for block_n in [1, 2, 3, 5, 7] {
        let mut m = Machine::new()
            .buffer(0, x.clone())
            .buffer(1, r.clone())
            .buffer(2, vec![0.0; rows * n])
            .buffer(3, vec![0.0; rows * n])
            .buffer(4, vec![0.0; rows])
            .buffer(5, w.clone())
            .arg(8, 1e-5);
        for row in 0..rows {
            m.run(&fused_add_rmsnorm_forward(row as i32, block_n, rows as i32, n as i32));
        }
        for row in 0..rows {
            let span = row * n..(row + 1) * n;
            let (h, y, rstd) = rmsnorm_reference(&x[span.clone()], &r[span.clone()], &w, 1e-5);
            assert!(all_near(&m.buffers[&3][span.clone()], &h));
            assert!(all_near(&m.buffers[&2][span], &y));
            assert!(near(m.buffers[&4][row], rstd));
        }
    }
}

#[test]
fn fused_backward_values() {
    let (rows, n) = (3, 4);
    let (dy, h, w) = (data(rows * n, 11), data(rows * n, 12), data(n, 13));
    let rstd: Vec<f64> = vec![0.7, 1.3, 2.1];
    for block_n in [1, 3, 4, 8] {
        let mut m = Machine::new()
            .buffer(0, dy.clone())
            .buffer(1, h.clone())
            .buffer(2, vec![0.0; rows * n])
            .buffer(3, vec![0.0; rows * n])
            .buffer(4, vec![0.0; n])
            .buffer(5, w.clone())
            .buffer(6, rstd.clone());
        for row in 0..rows {
            m.run(&fused_add_rmsnorm_backward(row as i32, block_n, rows as i32, n as i32));
        }
        let mut dw = vec![0.0; n];
        for row in 0..rows {
            let dot = (0..n).map(|c| dy[row * n + c] * w[c] * h[row * n + c]).sum::<f64>() / n as f64;
            for c in 0..n {
                let i = row * n + c;
                let dx = rstd[row] * w[c] * (dy[i] - h[i] * rstd[row] * rstd[row] * dot);
                assert!(near(m.buffers[&2][i], dx));
                assert!(near(m.buffers[&3][i], dx));
                dw[c] += dy[i] * h[i] * rstd[row];
            }
        }
        assert!(all_near(&m.buffers[&4], &dw));
    }
}

#[test]
fn weight_gradient_counts_rows_that_overlap() {
    let mut m = Machine::new()
        .buffer(0, vec![1.0; 2])
        .buffer(1, vec![1.0; 2])
        .buffer(2, vec![0.0; 2])
        .buffer(3, vec![0.0; 2])
        .buffer(4, vec![0.0; 1])
        .buffer(5, vec![1.0; 1])
        .buffer(6, vec![1.0; 2]);
    let blocks: Vec<Trace> =
        (0..2).map(|row| fused_add_rmsnorm_backward(row, 4, 2, 1)).collect();
    m.run_overlapping(&blocks);
    assert_eq!(m.buffers[&4], vec![2.0]);

    let (rows, n) = (3, 5);
    let (dy, h, rstd) = (data(rows * n, 14), data(rows * n, 15), data(rows, 16));
    let mut m = Machine::new()
        .buffer(0, dy.clone())
        .buffer(1, h.clone())
        .buffer(2, vec![0.0; rows * n])
        .buffer(3, vec![0.0; rows * n])
        .buffer(4, vec![0.5; n])
        .buffer(5, data(n, 17))
        .buffer(6, rstd.clone());
    let blocks: Vec<Trace> = (0..rows)
        .map(|row| fused_add_rmsnorm_backward(row as i32, 2, rows as i32, n as i32))
        .collect();
    m.run_overlapping(&blocks);
    let total: Vec<f64> = (0..n)
        .map(|c| 0.5 + (0..rows).map(|r| dy[r * n + c] * h[r * n + c] * rstd[r]).sum::<f64>())
        .collect();
    assert!(all_near(&m.buffers[&4], &total));
}

struct Attention {
    bh: usize,
    nq: usize,
    nk: usize,
    d: usize,
    q: Vec<f64>,
    k: Vec<f64>,
    v: Vec<f64>,
    scale: f64,
}

impl Attention {
    fn new(bh: usize, nq: usize, nk: usize, d: usize) -> Self {
        Attention {
            bh,
            nq,
            nk,
            d,
            q: data(bh * nq * d, 20),
            k: data(bh * nk * d, 21),
            v: data(bh * nk * d, 22),
            scale: 1.0 / (d as f64).sqrt(),
        }
    }

    fn score(&self, b: usize, i: usize, j: usize) -> f64 {
        let (q, k) = ((b * self.nq + i) * self.d, (b * self.nk + j) * self.d);
        (0..self.d).map(|t| self.q[q + t] * self.k[k + t]).sum::<f64>() * self.scale
    }

    /// Softmax weights of a query row, and the log-sum-exp.
    fn weights(&self, b: usize, i: usize, causal: bool) -> (Vec<f64>, f64) {
        let exps: Vec<f64> = (0..self.nk)
            .map(|j| if causal && j > i { 0.0 } else { self.score(b, i, j).exp() })
            .collect();
        let z = exps.iter().sum::<f64>();
        (exps.iter().map(|e| e / z).collect(), z.ln())
    }

    fn output(&self, causal: bool) -> (Vec<f64>, Vec<f64>) {
        let mut o = vec![0.0; self.bh * self.nq * self.d];
        let mut l = vec![0.0; self.bh * self.nq];
        for b in 0..self.bh {
            for i in 0..self.nq {
                let (w, lse) = self.weights(b, i, causal);
                l[b * self.nq + i] = lse;
                for t in 0..self.d {
                    o[(b * self.nq + i) * self.d + t] =
                        (0..self.nk).map(|j| w[j] * self.v[(b * self.nk + j) * self.d + t]).sum();
                }
            }
        }
        (o, l)
    }
}

#[test]
fn causal_forward_is_softmax() {
    for (nq, nk) in [(4, 4), (3, 5), (5, 2)] {
        let a = Attention::new(2, nq, nk, 3);
        let mut m = Machine::new()
            .buffer(0, a.q.clone())
            .buffer(1, a.k.clone())
            .buffer(2, a.v.clone())
            .buffer(3, vec![0.0; a.q.len()])
            .buffer(4, vec![0.0; 2 * nq])
            .arg(7, a.scale)
            .arg(8, f64::NEG_INFINITY);
        for b in 0..2 {
            for i in 0..nq {
                m.run(&flash_attn2_causal_fwd(i as i32, b, 3, nq as i32, nk as i32));
            }
        }
        let (o, l) = a.output(true);
        assert!(all_near(&m.buffers[&3], &o));
        assert!(all_near(&m.buffers[&4], &l));
    }
}

#[test]
fn future_keys_do_not_matter() {
    let a = Attention::new(1, 3, 3, 2);
    let t = flash_attn2_causal_fwd(1, 0, 2, 3, 3);
    let machine = |k: Vec<f64>, v: Vec<f64>| {
        Machine::new()
            .buffer(0, a.q.clone())
            .buffer(1, k)
            .buffer(2, v)
            .arg(7, a.scale)
            .arg(8, f64::NEG_INFINITY)
    };
    let before = machine(a.k.clone(), a.v.clone()).stores(&t);
    let (mut k, mut v) = (a.k.clone(), a.v.clone());
    for i in 4..6 {
        k[i] += 100.0;
        v[i] -= 7.0;
    }
    assert_eq!(machine(k, v).stores(&t), before);
}

fn backward_matches_derivative(causal: bool, nq: usize, nk: usize) {
    let a = Attention::new(1, nq, nk, 2);
    let (o, l) = a.output(causal);
    let grad = data(o.len(), 30);
    let mut m = Machine::new()
        .buffer(0, a.q.clone())
        .buffer(1, a.k.clone())
        .buffer(2, a.v.clone())
        .buffer(3, o)
        .buffer(4, grad.clone())
        .buffer(5, l)
        .buffer(6, vec![0.0; a.q.len()])
        .buffer(7, vec![0.0; a.k.len()])
        .buffer(8, vec![0.0; a.v.len()])
        .arg(11, a.scale);
    for i in 0..nq {
        let t = if causal {
            flash_attn2_causal_bwd(i as i32, 0, 2, nq as i32, nk as i32)
        } else {
            flash_attn2_backward(i as i32, 0, 2, nq as i32, nk as i32)
        };
        m.run(&t);
    }
    let loss = |q: &[f64], k: &[f64], v: &[f64]| {
        let b = Attention { q: q.to_vec(), k: k.to_vec(), v: v.to_vec(), ..Attention::new(1, nq, nk, 2) };
        b.output(causal).0.iter().zip(&grad).map(|(x, g)| x * g).sum::<f64>()
    };
    for which in 0..3 {
        let base = [a.q.clone(), a.k.clone(), a.v.clone()];
        for i in 0..base[which].len() {
            let (mut lo, mut hi) = (base.clone(), base.clone());
            lo[which][i] -= 1e-5;
            hi[which][i] += 1e-5;
            let slope = (loss(&hi[0], &hi[1], &hi[2]) - loss(&lo[0], &lo[1], &lo[2])) / 2e-5;
            assert!((slope - m.buffers[&(6 + which)][i]).abs() < 1e-7);
        }
    }
}

#[test]
fn backward_is_the_derivative() {
    backward_matches_derivative(false, 3, 3);
    backward_matches_derivative(false, 2, 4);
}

#[test]
fn causal_backward_is_the_derivative() {
    backward_matches_derivative(true, 3, 3);
    backward_matches_derivative(true, 4, 2);
}

#[test]
fn key_and_value_gradients_count_query_rows_that_overlap() {
    let (bh, nq, nk, d) = (2, 3, 4, 2);
    let a = Attention::new(bh, nq, nk, d);
    let (o, l) = a.output(false);
    let grad = data(o.len(), 31);
    let machine = || {
        Machine::new()
            .buffer(0, a.q.clone())
            .buffer(1, a.k.clone())
            .buffer(2, a.v.clone())
            .buffer(3, o.clone())
            .buffer(4, grad.clone())
            .buffer(5, l.clone())
            .buffer(6, vec![0.0; a.q.len()])
            .buffer(7, vec![0.0; a.k.len()])
            .buffer(8, vec![0.0; a.v.len()])
            .arg(11, a.scale)
    };
    let blocks: Vec<Trace> = (0..bh * nq)
        .map(|g| {
            let (q, b) = ((g % nq) as i32, (g / nq) as i32);
            flash_attn2_backward(q, b, d as i32, nq as i32, nk as i32)
        })
        .collect();
    let mut m = machine();
    m.run_overlapping(&blocks);
    for b in 0..bh {
        for k in 0..nk {
            for i in 0..d {
                let dv: f64 = (0..nq)
                    .map(|q| a.weights(b, q, false).0[k] * grad[(b * nq + q) * d + i])
                    .sum();
                assert!(near(m.buffers[&8][(b * nk + k) * d + i], dv));
            }
        }
    }
    let mut in_turn = machine();
    for t in &blocks {
        in_turn.run(t);
    }
    assert!(all_near(&m.buffers[&7], &in_turn.buffers[&7]));
}

#[test]
fn causal_backward_adds_nothing_for_future_keys() {
    let t = flash_attn2_causal_bwd(0, 0, 2, 3, 3);
    let m = Machine::new()
        .buffer(0, vec![1.0; 6])
        .buffer(1, vec![1.0; 6])
        .buffer(2, vec![1.0; 6])
        .buffer(3, vec![1.0; 6])
        .buffer(4, vec![1.0; 6])
        .buffer(5, vec![0.5; 3])
        .arg(11, 1.0);
    let adds = m.adds(&t);
    assert_eq!(adds.len(), 12);
    for off in 2..6 {
        assert_eq!(adds[&(8, off)], 0.0);
        assert_eq!(adds[&(7, off)], 0.0);
    }
    assert!(adds[&(8, 0)] > 0.0);
}

#[test]
fn reads_see_earlier_stores_and_additions_add_up() {
    let mut t = Trace::new();
    let tile = t.load_row(0, 3, 2);
    t.store_row(1, 0, &tile);
    let again = t.load_row(1, 0, 2);
    t.add_row(2, 5, &again);
    t.add_row(2, 5, &again);
    let m = Machine::new().buffer(0, vec![0.0, 1.0, 2.0, 3.0, 4.0]);
    assert_eq!(m.stores(&t)[&(1, 1)], 4.0);
    assert_eq!(m.adds(&t)[&(2, 5)], 6.0);
    assert_eq!(m.adds(&t)[&(2, 6)], 8.0);
}
