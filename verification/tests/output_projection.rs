use npu_kernels::arith::Arith;
use npu_kernels::context::{Buffer, Context, Unit};
use npu_kernels::output31::{contract_tile_a, contract_tile_b, project_normalize_add};
use npu_kernels::tensor::{fill, fresh, Dm};

/// Single-precision arithmetic.
struct Single {}

fn to_bf16(x: f32) -> f32 {
    let bits = x.to_bits();
    let rounded = bits.wrapping_add(0x7fff + ((bits >> 16) & 1));
    f32::from_bits(rounded & 0xffff_0000)
}

fn to_f8(x: f32) -> f32 {
    let a = x.abs();
    if a == 0.0 {
        return 0.0;
    }
    let exponent = (a.log2().floor() as i32).max(-6);
    let quantum = (2.0f32).powi(exponent - 3);
    ((a / quantum).round_ties_even() * quantum).min(448.0).copysign(x)
}

impl Arith for Single {
    type Num = f32;

    fn mul(a: &f32, b: &f32) -> f32 {
        a * b
    }
    fn add(a: &f32, b: &f32) -> f32 {
        a + b
    }
    fn sub(a: &f32, b: &f32) -> f32 {
        a - b
    }
    fn div(a: &f32, b: &f32) -> f32 {
        a / b
    }
    fn sqrt(a: &f32) -> f32 {
        a.sqrt()
    }
    fn erf(a: &f32) -> f32 {
        if *a > 4.0 {
            1.0
        } else if *a < -4.0 {
            -1.0
        } else {
            panic!("no value of erf here")
        }
    }
    fn sum(a: &Vec<f32>) -> f32 {
        a.iter().sum()
    }
    fn dot(a: &Vec<f32>, b: &Vec<f32>) -> f32 {
        a.iter().zip(b.iter()).map(|(x, y)| x * y).sum()
    }
    fn bf16(a: &f32) -> f32 {
        to_bf16(*a)
    }
    fn f8(a: &f32) -> f32 {
        to_f8(*a)
    }
    fn f4(code: u8) -> f32 {
        let m = [0.0, 0.5, 1.0, 1.5, 2.0, 3.0, 4.0, 6.0][(code % 8) as usize];
        if code % 16 < 8 {
            m
        } else {
            -m
        }
    }
    fn lit(digits: u64, places: u32) -> f32 {
        (digits as f64 / (10f64).powi(places as i32)) as f32
    }
    fn dup(a: &f32) -> f32 {
        *a
    }
    fn unset() -> f32 {
        f32::NAN
    }
}

#[test]
fn rows_are_projected_normalized_and_added() {
    // Row h picks column h of the attention output, so every row is 2.
    let mut weight = vec![0.0f32; 3840 * 4096];
    for h in 0..3840 {
        weight[h * 4096 + h] = 1.0;
    }
    let x = vec![2.0f32; 4096];
    let scale = vec![1.0f32; 3840];
    let rms_weight: Vec<f32> = (0..3840).map(|h| (h % 5) as f32).collect();
    let mut residual: Vec<f32> = (0..3840).map(|h| (h % 7) as f32 + 0.5).collect();
    let mut ctx = Context::new();
    project_normalize_add::<Single>(&mut ctx, &x, &weight, &scale, &rms_weight, &mut residual, &0.0);
    assert_eq!(residual.len(), 3840);
    for h in 0..3840 {
        assert_eq!(residual[h], (h % 5) as f32 + (h % 7) as f32 + 0.5);
    }
    assert_eq!(ctx.issued.len(), 22);
    assert_eq!(ctx.issued[21].unit, Unit::Tdma);
    assert_eq!(ctx.issued[21].target, Buffer::Residual);
}

#[test]
fn the_factor_sixteen_cancels() {
    // The rows are 1 after the channel scale, and with an epsilon of 3 their root mean square is 2.
    let mut weight = vec![0.0f32; 3840 * 4096];
    for h in 0..3840 {
        weight[h * 4096 + 4095 - h] = 0.5;
    }
    let x = vec![4.0f32; 4096];
    let scale = vec![0.5f32; 3840];
    let rms_weight: Vec<f32> = (0..3840).map(|h| (h % 5) as f32).collect();
    let mut residual = vec![-1.0f32; 3840];
    let mut ctx = Context::new();
    project_normalize_add::<Single>(&mut ctx, &x, &weight, &scale, &rms_weight, &mut residual, &3.0);
    for h in 0..3840 {
        assert_eq!(residual[h], (h % 5) as f32 / 2.0 - 1.0);
    }
}

#[test]
fn tiles_write_their_rows_alone() {
    let large: Dm<f32> = fill(104 * 256, |s: usize, e: usize| {
        if e % 256 == s % 16 { (e / 256) as f32 } else { 0.0 }
    });
    let small: Dm<f32> = fill(16 * 256, |s: usize, e: usize| if e % 256 == 0 { s as f32 } else { 0.0 });
    let levels: Dm<f32> = fill(512, |_s: usize, e: usize| if e < 256 { 1.0 } else { 0.25 });
    let mut ctx = Context::new();
    let mut z = fresh::<Single>(120);
    contract_tile_b::<Single>(&mut ctx, &small, &levels, &mut z, 104);
    // Row slice 32 adds up the slices 32 to 47, each against both levels: 632 times 1.25.
    assert_eq!(z.rows[32][104], to_bf16(790.0));
    assert_eq!(z.rows[32][119], to_bf16(790.0));
    assert!(z.rows[32][103].is_nan());
    contract_tile_a::<Single>(&mut ctx, &large, &levels, &mut z, 0);
    for r in 0..104 {
        assert_eq!(z.rows[496][r], to_bf16((16 * r) as f32 * 1.25));
    }
    assert_eq!(z.rows[32][104], to_bf16(790.0));
    assert_eq!(ctx.issued[0].source, Buffer::WeightTile(104));
    assert_eq!(ctx.issued[1].source, Buffer::WeightTile(0));
}
