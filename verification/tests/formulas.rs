use std::rc::Rc;

use npu_kernels::context::{Buffer, Context, Matrix, Operands, Stage, Unit};
use npu_kernels::ffn7::blocks::{apply_scales, down_scales_bf16, scales_bf16};
use npu_kernels::ffn7::gate::{gate_factor_vrf, geglu, quantize_gather, regroup};
use npu_kernels::ffn7::norm::normalize_quantize;
use npu_kernels::ffn7::normalize_add_gate_in_place;
use npu_kernels::output31::{pool_load, pool_vrf, quantise_x};
use npu_kernels::quant::{first_term, second_term, split_terms};
use npu_kernels::symbolic::{leaf, terms_of, Symbolic, Term};
use npu_kernels::tensor::{dot_at, fill, fresh, list, Dm};

type Number = Rc<Term>;

fn numbered(elems: usize, from: u64) -> Dm<Number> {
    fill(elems, |s: usize, e: usize| leaf(from + (s * elems + e) as u64))
}

fn leaves(len: usize, from: u64) -> Vec<Number> {
    (0..len).map(|i| leaf(from + i as u64)).collect()
}

fn lit(digits: u64, places: u32) -> Number {
    Rc::new(Term::Lit(digits, places))
}

fn mul(a: &Number, b: &Number) -> Number {
    Rc::new(Term::Mul(Rc::clone(a), Rc::clone(b)))
}

fn add(a: &Number, b: &Number) -> Number {
    Rc::new(Term::Add(Rc::clone(a), Rc::clone(b)))
}

fn div(a: &Number, b: &Number) -> Number {
    Rc::new(Term::Div(Rc::clone(a), Rc::clone(b)))
}

fn bf16(a: &Number) -> Number {
    Rc::new(Term::Bf16(Rc::clone(a)))
}

fn f8(a: &Number) -> Number {
    Rc::new(Term::F8(Rc::clone(a)))
}

fn sum(a: &Vec<Number>) -> Number {
    Rc::new(Term::Sum(terms_of(a)))
}

fn term(v: &Number, gain: &Number, t: usize) -> Number {
    let scaled = mul(v, gain);
    if t == 0 {
        f8(&scaled)
    } else {
        let first = f8(&scaled);
        f8(&Rc::new(Term::Sub(scaled, first)))
    }
}

fn mean_square(v: &[Number]) -> Number {
    let squares: Vec<Number> = v.iter().map(|x| mul(x, x)).collect();
    div(&sum(&squares), &lit(3840, 0))
}

#[test]
fn a_list_keeps_its_order() {
    let three = list(3, |i: usize| 10 * i);
    assert_eq!(three, vec![0, 10, 20]);
}

#[test]
fn a_contraction_takes_both_ranges() {
    let a = leaves(6, 0);
    let b = leaves(6, 100);
    let got = dot_at::<Symbolic>(&a, 1, &b, 3, 2);
    let want = Term::Dot(
        terms_of(&vec![leaf(1), leaf(2)]),
        terms_of(&vec![leaf(103), leaf(104)]),
    );
    assert_eq!(*got, want);
}

#[test]
fn fresh_memory_holds_nothing_of_the_kernel() {
    let memory: Dm<Number> = fresh::<Symbolic>(3);
    assert_eq!(memory.rows.len(), 512);
    assert_eq!(memory.rows[511].len(), 3);
    assert_eq!(*memory.rows[17][2], Term::Unset);
}

#[test]
fn terms_of_one_number() {
    let v = leaf(1);
    let gain = leaf(2);
    let first = first_term::<Symbolic>(&v, &gain);
    assert_eq!(first, term(&v, &gain, 0));
    let second = second_term::<Symbolic>(&v, &gain, &first);
    assert_eq!(second, term(&v, &gain, 1));
}

#[test]
fn terms_of_a_tensor() {
    let x = numbered(4, 0);
    let gain = leaf(9999);
    let mut ctx = Context::new();
    let q = split_terms::<Symbolic>(&mut ctx, Stage::Gated, Buffer::Gated, &x, 4, &gain);
    assert_eq!(q.rows[5].len(), 8);
    assert_eq!(q.rows[5][2], term(&leaf(22), &gain, 0));
    assert_eq!(q.rows[5][6], term(&leaf(22), &gain, 1));
    let order: Vec<(Unit, Buffer)> = ctx.issued.iter().map(|c| (c.unit, c.target)).collect();
    assert_eq!(
        order,
        vec![
            (Unit::Main, Buffer::Term(Stage::Gated, 0)),
            (Unit::Sub, Buffer::TermVrf(Stage::Gated)),
            (Unit::Main, Buffer::Term(Stage::Gated, 1)),
        ]
    );
    assert_eq!(ctx.issued[2].operands, Operands::One(Buffer::TermVrf(Stage::Gated)));
}

#[test]
fn normalized_terms_reach_every_slice() {
    let x = leaves(3840, 0);
    let w = leaves(3840, 10_000);
    let eps = leaf(77_777);
    let mut ctx = Context::new();
    let (trf, pool) = normalize_quantize::<Symbolic>(&mut ctx, &x, &w, &eps);

    let parts: Vec<Number> = (0..8).map(|p| mean_square(&x[p * 480..p * 480 + 480])).collect();
    let rms = Rc::new(Term::Sqrt(add(&sum(&parts), &eps)));
    for (s, h) in [(0usize, 0usize), (9, 3839), (255, 480), (256, 1000), (511, 2399)] {
        let norm = bf16(&mul(&div(&x[h], &rms), &w[h]));
        assert_eq!(trf.rows[s][h], term(&norm, &lit(128, 0), 0));
        assert_eq!(trf.rows[s][3840 + h], term(&norm, &lit(128, 0), 1));
    }
    // Only the first ring of every four is loaded.
    assert_eq!(pool.rows[39][5], leaf(7 * 480 + 5));
    assert_eq!(pool.rows[39][480 + 5], leaf(10_000 + 7 * 480 + 5));
    assert_eq!(*pool.rows[40][5], Term::Unset);
    assert_eq!(ctx.issued.len(), 14);
    assert_eq!(ctx.issued[13].target, Buffer::ActivationTrf(Stage::Pre));
}

#[test]
fn block_scales_of_whole_rows() {
    let scale = leaves(15360 * 240, 0);
    let mut ctx = Context::new();
    let r = scales_bf16::<Symbolic>(&mut ctx, Matrix::Gate, &scale);
    // Slice 3 holds the rows 90..120.
    assert_eq!(r.rows[3][2 * 240 + 7], bf16(&leaf(92 * 240 + 7)));
    assert_eq!(r.rows[511][29 * 240 + 239], bf16(&leaf(15359 * 240 + 239)));
    assert_eq!(ctx.issued[0].source, Buffer::BlockScale(Matrix::Gate));
    assert_eq!(ctx.issued[1].unit, Unit::Sub);
}

#[test]
fn block_scales_of_half_rows() {
    let scale = leaves(3840 * 960, 0);
    let mut ctx = Context::new();
    let r = down_scales_bf16::<Symbolic>(&mut ctx, &scale);
    // Slice 5 of cluster 1 holds the odd rows of 60..90, the second half of each.
    assert_eq!(r.rows[256 + 5][4 * 480 + 11], bf16(&leaf(69 * 960 + 480 + 11)));
    assert_eq!(r.rows[4][0], bf16(&leaf(60 * 960)));
}

#[test]
fn sums_times_scales() {
    let z = numbered(7200, 0);
    let s = numbered(7200, 10_000_000);
    let mut ctx = Context::new();
    let y = apply_scales::<Symbolic>(&mut ctx, Matrix::Up, &z, &s);
    let at = (2 * 7200 + 3 * 240) as u64;
    let want = Term::Dot(
        terms_of(&leaves(240, at)),
        terms_of(&leaves(240, 10_000_000 + at)),
    );
    assert_eq!(*y.rows[2][3], want);
    assert_eq!(ctx.issued[1].operands, Operands::One(Buffer::ScaleTrf(Matrix::Up, 0)));
}

#[test]
fn four_slices_meet() {
    let y = numbered(30, 0);
    let mut ctx = Context::new();
    let r = regroup::<Symbolic>(&mut ctx, Matrix::Up, &y);
    for s in [0usize, 3, 4, 130, 511] {
        for e in [0usize, 29, 30, 75, 119] {
            assert_eq!(r.rows[s][e], leaf((s / 4 * 120 + e) as u64));
        }
    }
}

#[test]
fn one_factor_for_all_slices() {
    let mut ctx = Context::new();
    let r = gate_factor_vrf::<Symbolic>(&mut ctx, &leaf(3));
    let want = mul(&leaf(3), &div(&lit(70_710_678_118, 11), &lit(128, 0)));
    for s in 0..512 {
        assert_eq!(r.rows[s][0], want);
    }
}

#[test]
fn gated_activation() {
    let up = numbered(120, 0);
    let gate = numbered(120, 100_000);
    let factor = numbered(1, 200_000);
    let mut ctx = Context::new();
    let r = geglu::<Symbolic>(&mut ctx, &up, &gate, &factor);
    let t = mul(&leaf(100_000 + 7 * 120 + 9), &leaf(200_007));
    let gelu = mul(&add(&Rc::new(Term::Erf(Rc::clone(&t))), &lit(1, 0)), &t);
    let divisor = mul(&mul(&lit(2, 0), &lit(128, 0)), &lit(70_710_678_118, 11));
    let want = bf16(&div(&mul(&leaf(7 * 120 + 9), &gelu), &divisor));
    assert_eq!(r.rows[7][9], want);
    assert_eq!(ctx.issued[0].unit, Unit::Sub);
    assert_eq!(ctx.issued[2].unit, Unit::Main);
}

#[test]
fn groups_are_gathered_along_their_copies() {
    let x = numbered(120, 0);
    let mut ctx = Context::new();
    let r = quantize_gather::<Symbolic>(&mut ctx, x);
    // Column 250 of cluster 1 is element 10 of group 2, which slice 6 reads from copy 2.
    let from = (256 + 2 * 4 + 2) * 120 + 10;
    assert_eq!(r.rows[256 + 6][250], term(&leaf(from), &lit(25, 2), 0));
    assert_eq!(r.rows[256 + 6][7680 + 250], term(&leaf(from), &lit(25, 2), 1));
    assert_eq!(ctx.issued.len(), 5);
}

#[test]
fn post_norm_in_one_pass() {
    let x = numbered(480, 0);
    let w = leaves(3840, 1_000_000);
    let pool = numbered(960, 2_000_000);
    let g = leaf(5_000_000);
    let eps = leaf(6_000_000);
    let mut ctx = Context::new();
    let r = normalize_add_gate_in_place::<Symbolic>(&mut ctx, &x, &w, &pool, &g, &eps);
    let columns = leaves(3840, 0);
    let parts: Vec<Number> = (0..8).map(|p| mean_square(&columns[p * 480..p * 480 + 480])).collect();
    let rms = Rc::new(Term::Sqrt(add(&sum(&parts), &eps)));
    let h = 3 * 480 + 33;
    let scaled = mul(&div(&columns[h], &rms), &w[h]);
    let want = bf16(&mul(&add(&scaled, &leaf(2_000_000 + 3 * 960 + 33)), &g));
    assert_eq!(r.rows[3][33], want);
    assert_eq!(ctx.issued.len(), 9);
}

#[test]
fn pool_slots_do_not_touch_each_other() {
    let mut ctx = Context::new();
    let mut pool = fresh::<Symbolic>(720);
    pool_load::<Symbolic>(&mut ctx, Buffer::ChannelScale, &mut pool, &leaves(3840, 0), 1);
    assert_eq!(pool.rows[15][240], leaf(15 * 240));
    assert_eq!(*pool.rows[15][239], Term::Unset);
    assert_eq!(*pool.rows[15][480], Term::Unset);
    assert_eq!(*pool.rows[16][240], Term::Unset);
    pool_load::<Symbolic>(&mut ctx, Buffer::NormWeight, &mut pool, &leaves(3840, 9000), 2);
    assert_eq!(pool.rows[15][479], leaf(3839));
    let read = pool_vrf::<Symbolic>(&mut ctx, &pool, 2);
    assert_eq!(read.rows[4][5], leaf(9000 + 4 * 240 + 5));
    assert_eq!(ctx.issued[0].source, Buffer::ChannelScale);
    assert_eq!(ctx.issued[2].source, Buffer::Pool(2));
    assert_eq!(ctx.issued[2].target, Buffer::PoolVrf(2));
}

#[test]
fn levels_of_the_attention_output() {
    let x = numbered(256, 0);
    let mut ctx = Context::new();
    let r = quantise_x::<Symbolic>(&mut ctx, &x);
    assert_eq!(r.rows[8][3], term(&leaf(8 * 256 + 3), &lit(16, 0), 0));
    assert_eq!(r.rows[8][256 + 3], term(&leaf(8 * 256 + 3), &lit(16, 0), 1));
    assert_eq!(ctx.issued.len(), 4);
}
