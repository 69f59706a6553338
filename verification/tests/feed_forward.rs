use npu_kernels::arith::Arith;
use npu_kernels::context::{Buffer, Context, Operands, Unit};
use npu_kernels::ffn7::{feedforward, normalize_add_gate_in_place};

/// Single-precision arithmetic.
struct Single {}

fn to_bf16(x: f32) -> f32 {
    let bits = x.to_bits();
    let rounded = bits.wrapping_add(0x7fff + ((bits >> 16) & 1));
    f32::from_bits(rounded & 0xffff_0000)
}

fn to_f8(x: f32) -> f32 {
    let a = x.abs();
    if a == 0.0 {
        return 0.0;
    }
    let exponent = (a.log2().floor() as i32).max(-6);
    let quantum = (2.0f32).powi(exponent - 3);
    ((a / quantum).round_ties_even() * quantum).min(448.0).copysign(x)
}

impl Arith for Single {
    type Num = f32;

    fn mul(a: &f32, b: &f32) -> f32 {
        a * b
    }
    fn add(a: &f32, b: &f32) -> f32 {
        a + b
    }
    fn sub(a: &f32, b: &f32) -> f32 {
        a - b
    }
    fn div(a: &f32, b: &f32) -> f32 {
        a / b
    }
    fn sqrt(a: &f32) -> f32 {
        a.sqrt()
    }
    fn erf(a: &f32) -> f32 {
        if *a > 4.0 {
            1.0
        } else if *a < -4.0 {
            -1.0
        } else {
            panic!("no value of erf here")
        }
    }
    fn sum(a: &Vec<f32>) -> f32 {
        a.iter().sum()
    }
    fn dot(a: &Vec<f32>, b: &Vec<f32>) -> f32 {
        a.iter().zip(b.iter()).map(|(x, y)| x * y).sum()
    }
    fn bf16(a: &f32) -> f32 {
        to_bf16(*a)
    }
    fn f8(a: &f32) -> f32 {
        to_f8(*a)
    }
    fn f4(code: u8) -> f32 {
        let m = [0.0, 0.5, 1.0, 1.5, 2.0, 3.0, 4.0, 6.0][(code % 8) as usize];
        if code % 16 < 8 {
            m
        } else {
            -m
        }
    }
    fn lit(digits: u64, places: u32) -> f32 {
        (digits as f64 / (10f64).powi(places as i32)) as f32
    }
    fn dup(a: &f32) -> f32 {
        *a
    }
    fn unset() -> f32 {
        f32::NAN
    }
}


#[test]
fn feedforward_block() {
    // The hidden state is all ones, so the norm weight is what the projections see.
    let x = vec![1.0f32; 3840];
    // Scaled by 128 it is 128, 129 or 130: both terms are needed to hold it.
    let norm_weight: Vec<f32> = (0..3840).map(|h| (128 + h % 3) as f32 / 128.0).collect();
    // Code 2 stands for 1. Row l of `up` picks column l % 3840, row l of `gate` column 0.
    let mut up = vec![0u8; 15360 * 3840];
    let mut gate = vec![0u8; 15360 * 3840];
    for l in 0..15360 {
        up[l * 3840 + l % 3840] = 2;
        gate[l * 3840] = 2;
    }
    // Row h of `down` picks row h and row 15359 - h of the activation, one in each cluster's half.
    let mut down = vec![0u8; 3840 * 15360];
    for h in 0..3840 {
        down[h * 15360 + h] = 2;
        down[h * 15360 + 15359 - h] = 4;
    }
    let ones = vec![1.0f32; 15360 * 240];
    let mut ctx = Context::new();
    // With a gate of 8 the error function is 1, so the activation is 8 times the norm weight.
    let (out, pool) = feedforward::<Single>(
        &mut ctx,
        &x,
        &norm_weight,
        &up,
        &gate,
        &down,
        &ones,
        &ones,
        &ones,
        &0.5,
        &8.0,
        &0.25,
        &0.0,
    );
    let act = |l: usize| 8.0 * norm_weight[l % 3840];
    for h in 0..3840 {
        let want = to_bf16((act(h) + 2.0 * act(15359 - h)) * 0.25 * 0.5);
        assert_eq!(out.rows[h / 480][h % 480], want);
        assert_eq!(pool.rows[h / 480][h % 480], 1.0);
        assert_eq!(pool.rows[h / 480][480 + h % 480], norm_weight[h]);
    }
    assert_eq!(ctx.issued.len(), 57);
    assert_eq!(ctx.issued[0].unit, Unit::Sub);
    assert_eq!(ctx.issued[0].source, Buffer::Fresh);
    assert_eq!(ctx.issued[0].operands, Operands::Nothing);
    assert_eq!(ctx.issued[1].target, Buffer::Pool(1));
    assert_eq!(ctx.issued[2].target, Buffer::Pool(0));
    assert_eq!(ctx.issued[56].target, Buffer::Block);

    // The post-norm reads the block's result and the pool as they lie.
    let weight = vec![2.0f32; 3840];
    let done = normalize_add_gate_in_place::<Single>(&mut ctx, &out, &weight, &pool, &0.5, &0.0);
    let column = |h: usize| out.rows[h / 480][h % 480];
    let mut parts = Vec::new();
    for p in 0..8 {
        let squares: f32 = (0..480).map(|e| column(p * 480 + e) * column(p * 480 + e)).sum();
        parts.push(squares / 3840.0);
    }
    let rms = parts.iter().sum::<f32>().sqrt();
    for h in 0..3840 {
        let want = to_bf16((column(h) / rms * 2.0 + 1.0) * 0.5);
        assert_eq!(done.rows[h / 480][h % 480], want);
    }
    assert_eq!(ctx.issued.len(), 66);
}
