use npu_kernels::arith::Arith;
use npu_kernels::context::{Context, Matrix};
use npu_kernels::ffn7::blocks::{apply_scales, block_sums_all, scales_bf16};
use npu_kernels::ffn7::gate::geglu;
use npu_kernels::ffn7::norm::normalize_quantize;
use npu_kernels::ffn7::{feedforward, normalize_add_gate_in_place};
use npu_kernels::output31::project_normalize_add;
use npu_kernels::tensor::{fill, Dm};

/// Single-precision arithmetic.
struct Single {}

fn to_bf16(x: f32) -> f32 {
    let bits = x.to_bits();
    let rounded = bits.wrapping_add(0x7fff + ((bits >> 16) & 1));
    f32::from_bits(rounded & 0xffff_0000)
}

fn to_f8(x: f32) -> f32 {
    let a = x.abs();
    if a == 0.0 {
        return 0.0;
    }
    let exponent = (a.log2().floor() as i32).max(-6);
    let quantum = (2.0f32).powi(exponent - 3);
    ((a / quantum).round_ties_even() * quantum).min(448.0).copysign(x)
}

impl Arith for Single {
    type Num = f32;

    fn mul(a: &f32, b: &f32) -> f32 {
        a * b
    }
    fn add(a: &f32, b: &f32) -> f32 {
        a + b
    }
    fn sub(a: &f32, b: &f32) -> f32 {
        a - b
    }
    fn div(a: &f32, b: &f32) -> f32 {
        a / b
    }
    fn sqrt(a: &f32) -> f32 {
        a.sqrt()
    }
    fn erf(a: &f32) -> f32 {
        // Any odd function between -1 and 1.
        a / (1.0 + a.abs())
    }
    fn sum(a: &Vec<f32>) -> f32 {
        a.iter().sum()
    }
    fn dot(a: &Vec<f32>, b: &Vec<f32>) -> f32 {
        a.iter().zip(b.iter()).map(|(x, y)| x * y).sum()
    }
    fn bf16(a: &f32) -> f32 {
        to_bf16(*a)
    }
    fn f8(a: &f32) -> f32 {
        to_f8(*a)
    }
    fn f4(code: u8) -> f32 {
        let m = [0.0, 0.5, 1.0, 1.5, 2.0, 3.0, 4.0, 6.0][(code % 8) as usize];
        if code % 16 < 8 {
            m
        } else {
            -m
        }
    }
    fn lit(digits: u64, places: u32) -> f32 {
        (digits as f64 / (10f64).powi(places as i32)) as f32
    }
    fn dup(a: &f32) -> f32 {
        *a
    }
    fn unset() -> f32 {
        f32::NAN
    }
}

/// Double-precision arithmetic that rounds to no smaller format.
struct Double {}

impl Arith for Double {
    type Num = f64;

    fn mul(a: &f64, b: &f64) -> f64 {
        a * b
    }
    fn add(a: &f64, b: &f64) -> f64 {
        a + b
    }
    fn sub(a: &f64, b: &f64) -> f64 {
        a - b
    }
    fn div(a: &f64, b: &f64) -> f64 {
        a / b
    }
    fn sqrt(a: &f64) -> f64 {
        a.sqrt()
    }
    fn erf(a: &f64) -> f64 {
        // Any odd function between -1 and 1.
        a / (1.0 + a.abs())
    }
    fn sum(a: &Vec<f64>) -> f64 {
        a.iter().sum()
    }
    fn dot(a: &Vec<f64>, b: &Vec<f64>) -> f64 {
        a.iter().zip(b.iter()).map(|(x, y)| x * y).sum()
    }
    fn bf16(a: &f64) -> f64 {
        *a
    }
    fn f8(a: &f64) -> f64 {
        *a
    }
    fn f4(code: u8) -> f64 {
        let m = [0.0, 0.5, 1.0, 1.5, 2.0, 3.0, 4.0, 6.0][(code % 8) as usize];
        if code % 16 < 8 {
            m
        } else {
            -m
        }
    }
    fn lit(digits: u64, places: u32) -> f64 {
        digits as f64 / (10f64).powi(places as i32)
    }
    fn dup(a: &f64) -> f64 {
        *a
    }
    fn unset() -> f64 {
        f64::NAN
    }
}

/// A permutation of the numbers below 3840.
fn moved(h: usize) -> usize {
    (h * 7 + 5) % 3840
}

fn signs(h: usize) -> f32 {
    if h % 3 == 0 {
        -1.0
    } else {
        1.0
    }
}

#[test]
fn negating_the_hidden_state_or_the_weight_negates_the_terms() {
    let x: Vec<f32> = (0..3840).map(|h| (h % 11) as f32 - 4.25).collect();
    let w: Vec<f32> = (0..3840).map(|h| (h % 97) as f32 / 64.0).collect();
    let minus_x: Vec<f32> = x.iter().map(|v| -v).collect();
    let minus_w: Vec<f32> = w.iter().map(|v| -v).collect();
    let mut ctx = Context::new();
    let (terms, _) = normalize_quantize::<Single>(&mut ctx, &x, &w, &0.5);
    let (of_x, _) = normalize_quantize::<Single>(&mut ctx, &minus_x, &w, &0.5);
    let (of_w, _) = normalize_quantize::<Single>(&mut ctx, &x, &minus_w, &0.5);
    for e in 0..7680 {
        assert_eq!(of_x.rows[77][e], -terms.rows[77][e]);
        assert_eq!(of_w.rows[77][e], -terms.rows[77][e]);
    }
    assert!(terms.rows[77][1] != 0.0);
}

#[test]
fn permuting_the_hidden_state_permutes_the_terms() {
    let x: Vec<f32> = (0..3840).map(signs).collect();
    let w: Vec<f32> = (0..3840).map(|h| (h % 97) as f32 / 64.0).collect();
    let moved_x: Vec<f32> = (0..3840).map(|h| x[moved(h)]).collect();
    let moved_w: Vec<f32> = (0..3840).map(|h| w[moved(h)]).collect();
    let mut ctx = Context::new();
    let (terms, _) = normalize_quantize::<Single>(&mut ctx, &x, &w, &0.0);
    let (other, _) = normalize_quantize::<Single>(&mut ctx, &moved_x, &moved_w, &0.0);
    for h in 0..3840 {
        assert_eq!(other.rows[300][h], terms.rows[300][moved(h)]);
        assert_eq!(other.rows[300][3840 + h], terms.rows[300][3840 + moved(h)]);
    }
}

#[test]
fn the_terms_of_a_normalized_state_lose_nothing() {
    // The root mean square is 1, so the weight is the normalized state: eight bits, up to 3.5.
    let x = vec![1.0f32; 3840];
    let w: Vec<f32> = (0..3840).map(|h| (h % 225) as f32 / 64.0).collect();
    let mut ctx = Context::new();
    let (terms, _) = normalize_quantize::<Single>(&mut ctx, &x, &w, &0.0);
    for h in 0..3840 {
        assert_eq!(terms.rows[5][h] + terms.rows[5][3840 + h], 128.0 * w[h]);
    }
}

#[test]
fn a_term_is_rounded_once() {
    // 128 times the normalized state is 151/4096: 18.875 units of 2^-9, where the format has 18 and 20.
    let x = vec![1.0f32; 3840];
    let w = vec![151.0f32 / 524_288.0; 3840];
    let mut ctx = Context::new();
    let (terms, _) = normalize_quantize::<Single>(&mut ctx, &x, &w, &0.0);
    assert_eq!(terms.rows[0][7], 18.0 / 512.0);
    assert_eq!(terms.rows[0][3840 + 7], 1.0 / 512.0);
}

#[test]
fn block_scales_are_kept() {
    // Every positive number of the eight-bit format: steps of 2^-9, then eight to a power of two.
    let mut all: Vec<f32> = (0..16).map(|k| k as f32 / 512.0).collect();
    for j in 1..15 {
        for k in 8..16 {
            all.push((k << j) as f32 / 512.0);
        }
    }
    let scale: Vec<f32> = (0..15360 * 240).map(|i| all[i % all.len()]).collect();
    let mut ctx = Context::new();
    let r = scales_bf16::<Single>(&mut ctx, Matrix::Up, &scale);
    for e in 0..7200 {
        assert_eq!(r.rows[9][e], scale[9 * 7200 + e]);
    }
}

#[test]
fn the_layer_scalar_is_a_factor() {
    let x: Dm<f32> = fill(480, |s: usize, e: usize| ((s * 480 + e) % 13) as f32 - 5.5);
    let pool: Dm<f32> = fill(960, |s: usize, e: usize| ((s + e) % 17) as f32);
    let w: Vec<f32> = (0..3840).map(|h| (h % 19) as f32 / 16.0).collect();
    let mut ctx = Context::new();
    let once = normalize_add_gate_in_place::<Single>(&mut ctx, &x, &w, &pool, &0.75, &0.5);
    let twice = normalize_add_gate_in_place::<Single>(&mut ctx, &x, &w, &pool, &1.5, &0.5);
    let none = normalize_add_gate_in_place::<Single>(&mut ctx, &x, &w, &pool, &0.0, &0.5);
    for h in 0..3840 {
        assert_eq!(twice.rows[h / 480][h % 480], 2.0 * once.rows[h / 480][h % 480]);
        assert_eq!(none.rows[h / 480][h % 480], 0.0);
    }
    assert!(once.rows[0][1] != 0.0);
}

/// The block on a sparse layer, with the given global scales of `up` and `down`.
fn block(up_global: f32, down_global: f32) -> Vec<f32> {
    let x: Vec<f32> = (0..3840).map(signs).collect();
    let norm_weight: Vec<f32> = (0..3840).map(|h| (128 + h % 3) as f32 / 128.0).collect();
    let mut up = vec![0u8; 15360 * 3840];
    let mut gate = vec![0u8; 15360 * 3840];
    let mut down = vec![0u8; 3840 * 15360];
    for l in 0..15360 {
        up[l * 3840 + l % 3840] = 3;
        gate[l * 3840 + 1] = 2;
    }
    for h in 0..3840 {
        down[h * 15360 + h] = 2;
        down[h * 15360 + 15359 - h] = 5;
    }
    let ones = vec![1.0f32; 15360 * 240];
    let mut ctx = Context::new();
    let (out, _) = feedforward::<Single>(
        &mut ctx, &x, &norm_weight, &up, &gate, &down, &ones, &ones, &ones, &up_global, &8.0,
        &down_global, &0.0,
    );
    (0..3840).map(|h| out.rows[h / 480][h % 480]).collect()
}

#[test]
fn the_global_scale_of_up_is_a_factor() {
    let once = block(0.5, 0.25);
    let twice = block(1.0, 0.25);
    for h in 0..3840 {
        assert_eq!(twice[h], 2.0 * once[h]);
    }
    assert!(once[1] != 0.0);
}

#[test]
fn the_global_scale_of_down_is_a_factor() {
    let once = block(0.5, 0.25);
    let twice = block(0.5, 0.5);
    for h in 0..3840 {
        assert_eq!(twice[h], 2.0 * once[h]);
    }
}

#[test]
fn halved_weights_and_a_doubled_scale_give_the_same_row() {
    // Row 2 of slice 3 is row 92. Its block 7 holds 6, 4, 2 and 1, or half of that.
    let mut w = vec![0u8; 15360 * 3840];
    let mut halved = vec![0u8; 15360 * 3840];
    for c in 0..3840 {
        w[92 * 3840 + c] = (c % 16) as u8;
        halved[92 * 3840 + c] = (c % 16) as u8;
    }
    for i in 0..16 {
        w[92 * 3840 + 112 + i] = [7u8, 14, 4, 2][i % 4];
        halved[92 * 3840 + 112 + i] = [5u8, 12, 2, 1][i % 4];
    }
    let trf: Dm<f32> = fill(7680, |_s: usize, e: usize| (e % 23) as f32 - 7.0);
    let scale: Dm<f32> = fill(7200, |_s: usize, e: usize| (1 + e % 5) as f32 / 4.0);
    let rescaled: Dm<f32> = fill(7200, |s: usize, e: usize| {
        if s == 3 && e == 2 * 240 + 7 {
            2.0 * scale.rows[s][e]
        } else {
            scale.rows[s][e]
        }
    });
    let mut ctx = Context::new();
    let z = block_sums_all::<Single>(&mut ctx, Matrix::Up, &w, &trf);
    let half = block_sums_all::<Single>(&mut ctx, Matrix::Up, &halved, &trf);
    assert!(z.rows[3][2 * 240 + 7] != 0.0);
    assert_eq!(z.rows[3][2 * 240 + 7], 2.0 * half.rows[3][2 * 240 + 7]);
    let y = apply_scales::<Single>(&mut ctx, Matrix::Up, &z, &scale);
    let other = apply_scales::<Single>(&mut ctx, Matrix::Up, &half, &rescaled);
    assert_eq!(y.rows[3], other.rows[3]);
}

#[test]
fn gates_of_either_sign() {
    let up: Dm<f64> = fill(120, |_s: usize, e: usize| e as f64 - 31.5);
    let gate: Dm<f64> = fill(120, |s: usize, e: usize| (s % 7 + e) as f64 / 8.0);
    let minus: Dm<f64> = fill(120, |s: usize, e: usize| -gate.rows[s][e]);
    let none: Dm<f64> = fill(120, |_s: usize, _e: usize| 0.0);
    let factor: Dm<f64> = fill(1, |_s: usize, _e: usize| 0.375);
    let mut ctx = Context::new();
    let a = geglu::<Double>(&mut ctx, &up, &gate, &factor);
    let b = geglu::<Double>(&mut ctx, &up, &minus, &factor);
    let zero = geglu::<Double>(&mut ctx, &up, &none, &factor);
    for e in 0..120 {
        let want = up.rows[20][e] * gate.rows[20][e] * 0.375 / (128.0 * 0.70710678118);
        assert!((a.rows[20][e] - b.rows[20][e] - want).abs() < 1e-12);
        assert_eq!(zero.rows[20][e], 0.0);
    }
}

#[test]
fn the_gated_activation_is_linear_in_up() {
    let up: Dm<f64> = fill(120, |_s: usize, e: usize| e as f64 - 31.5);
    let more: Dm<f64> = fill(120, |s: usize, e: usize| 3.0 * up.rows[s][e]);
    let gate: Dm<f64> = fill(120, |s: usize, e: usize| (s % 7 + e) as f64 / 8.0 - 5.0);
    let factor: Dm<f64> = fill(1, |_s: usize, _e: usize| 0.375);
    let mut ctx = Context::new();
    let a = geglu::<Double>(&mut ctx, &up, &gate, &factor);
    let b = geglu::<Double>(&mut ctx, &more, &gate, &factor);
    for e in 0..120 {
        assert!((b.rows[20][e] - 3.0 * a.rows[20][e]).abs() < 1e-12);
    }
}

#[test]
fn sums_and_scales_change_places() {
    let z: Dm<f64> = fill(7200, |s: usize, e: usize| ((s + 3 * e) % 31) as f64 - 9.5);
    let s: Dm<f64> = fill(7200, |s: usize, e: usize| ((2 * s + e) % 29) as f64 / 8.0);
    let mut ctx = Context::new();
    let a = apply_scales::<Double>(&mut ctx, Matrix::Gate, &z, &s);
    let b = apply_scales::<Double>(&mut ctx, Matrix::Gate, &s, &z);
    assert_eq!(a.rows, b.rows);
}

/// A weight with three entries in every row.
fn attention_weight() -> Vec<f32> {
    let mut weight = vec![0.0f32; 3840 * 4096];
    for h in 0..3840 {
        weight[h * 4096 + h] = 1.0;
        weight[h * 4096 + (h * 5 + 1) % 4096] += 0.5;
        weight[h * 4096 + 4095] += 2.0;
    }
    weight
}

#[test]
fn negating_the_attention_output_negates_the_rows() {
    let weight = attention_weight();
    let x: Vec<f32> = (0..4096).map(|q| (q % 9) as f32 - 3.5).collect();
    let minus: Vec<f32> = x.iter().map(|v| -v).collect();
    let scale: Vec<f32> = (0..3840).map(|h| (1 + h % 3) as f32 / 4.0).collect();
    let norm: Vec<f32> = (0..3840).map(|h| (h % 5) as f32).collect();
    let mut a = vec![0.0f32; 3840];
    let mut b = vec![0.0f32; 3840];
    let mut ctx = Context::new();
    project_normalize_add::<Single>(&mut ctx, &x, &weight, &scale, &norm, &mut a, &0.5);
    project_normalize_add::<Single>(&mut ctx, &minus, &weight, &scale, &norm, &mut b, &0.5);
    for h in 0..3840 {
        assert_eq!(b[h], -a[h]);
    }
    assert!(a[1] != 0.0);
}

#[test]
fn permuting_the_rows_permutes_the_result() {
    // Every scaled row is 1 or -1, so the root mean square is exact in any order.
    let mut weight = vec![0.0f32; 3840 * 4096];
    let mut moved_weight = vec![0.0f32; 3840 * 4096];
    for h in 0..3840 {
        weight[h * 4096 + h] = signs(h);
        moved_weight[h * 4096 + moved(h)] = signs(moved(h));
    }
    let x = vec![2.0f32; 4096];
    let scale: Vec<f32> = (0..3840).map(|h| signs(h / 2) / 2.0).collect();
    let norm: Vec<f32> = (0..3840).map(|h| (h % 5) as f32).collect();
    let residual: Vec<f32> = (0..3840).map(|h| (h % 41) as f32).collect();
    let moved_scale: Vec<f32> = (0..3840).map(|h| scale[moved(h)]).collect();
    let moved_norm: Vec<f32> = (0..3840).map(|h| norm[moved(h)]).collect();
    let mut a = residual.clone();
    let mut b: Vec<f32> = (0..3840).map(|h| residual[moved(h)]).collect();
    let mut ctx = Context::new();
    project_normalize_add::<Single>(&mut ctx, &x, &weight, &scale, &norm, &mut a, &0.0);
    project_normalize_add::<Single>(
        &mut ctx, &x, &moved_weight, &moved_scale, &moved_norm, &mut b, &0.0,
    );
    for h in 0..3840 {
        assert_eq!(b[h], a[moved(h)]);
    }
    assert_eq!(a[1], 0.0);
    assert_eq!(a[2], 4.0);
}
