use npu_kernels::context::{Buffer, Command, Context, Matrix, Operands, Unit};
use npu_kernels::ffn7::order::{feedforward_stream, normalize_add_gate_stream};
use npu_kernels::output31::order::project_normalize_add_stream;
use npu_kernels::qkv::warm_up;

fn reads(c: &Command) -> Vec<Buffer> {
    let mut all = vec![c.source];
    match c.operands {
        Operands::Nothing => {}
        Operands::One(a) => all.push(a),
        Operands::Two(a, b) => all.extend([a, b]),
        Operands::Four(a, b, c, d) => all.extend([a, b, c, d]),
    }
    all
}

fn is_argument(b: &Buffer) -> bool {
    matches!(
        b,
        Buffer::Hidden
            | Buffer::Attention
            | Buffer::Residual
            | Buffer::NormWeight
            | Buffer::PostNormWeight
            | Buffer::ChannelScale
            | Buffer::LayerScalar
            | Buffer::Weight(_)
            | Buffer::BlockScale(_)
            | Buffer::GlobalScale(_)
            | Buffer::OutputWeight
            | Buffer::Fresh
    )
}

fn every_read_is_ready(stream: &[Command]) {
    for (i, c) in stream.iter().enumerate() {
        for b in reads(c) {
            let earlier = stream[..i].iter().any(|d| d.target == b);
            assert!(is_argument(&b) || earlier, "{:?} reads {:?}", c, b);
        }
    }
}

fn nothing_is_written_twice(stream: &[Command]) {
    for (i, c) in stream.iter().enumerate() {
        assert!(stream[..i].iter().all(|d| d.target != c.target), "{:?}", c);
    }
}

fn position(stream: &[Command], target: Buffer) -> usize {
    stream.iter().position(|c| c.target == target).unwrap()
}

#[test]
fn layer_stream() {
    let mut layer = feedforward_stream();
    assert_eq!(layer.len(), 57);
    layer.extend(normalize_add_gate_stream());
    assert_eq!(layer.len(), 66);
    every_read_is_ready(&layer);
    nothing_is_written_twice(&layer);
    assert!(layer.iter().all(|c| !reads(c).contains(&Buffer::Discarded)));
    assert_eq!(layer[0].unit, Unit::Sub);
    assert!(position(&layer, Buffer::Pool(1)) < position(&layer, Buffer::Pool(0)));
    let transfers = layer.iter().filter(|c| c.unit == Unit::Tdma).count();
    assert_eq!(transfers, 16);
    assert!(
        position(&layer, Buffer::Product(Matrix::Down, 0))
            < position(&layer, Buffer::Packed(Matrix::Down, 10))
    );
}

#[test]
fn output_projection_stream() {
    let stream = project_normalize_add_stream();
    assert_eq!(stream.len(), 22);
    every_read_is_ready(&stream);
    nothing_is_written_twice(&stream);
    let mut last = 0;
    for b in [
        Buffer::Projected(0),
        Buffer::Projected(104),
        Buffer::Pool(0),
        Buffer::PoolVrf(0),
        Buffer::Hop,
        Buffer::Pool(1),
        Buffer::PoolVrf(1),
        Buffer::Pool(2),
        Buffer::PoolVrf(2),
        Buffer::Tail,
        Buffer::Residual,
    ] {
        let at = position(&stream, b);
        assert!(at > last);
        last = at;
    }
    let large = &stream[position(&stream, Buffer::Projected(0))];
    assert!(!reads(large).contains(&Buffer::WeightTile(104)));
}

/// Runs a stream: a command leaves in its target a number made of its unit and of what it reads.
fn run(memory: &mut Vec<(Buffer, u64)>, stream: &[Command]) {
    for c in stream {
        let mut value: u64 = 17 + c.unit as u64;
        for b in reads(c) {
            value = value.wrapping_mul(1_000_003) ^ held(memory, b);
        }
        memory.retain(|entry| entry.0 != c.target);
        memory.push((c.target, value));
    }
}

fn held(memory: &Vec<(Buffer, u64)>, b: Buffer) -> u64 {
    memory.iter().find(|entry| entry.0 == b).map_or(5, |entry| entry.1)
}

#[test]
fn warm_ups_change_nothing() {
    let mut warm = Context::new();
    warm_up(&mut warm);
    assert_eq!(warm.issued.len(), 1);
    let kernels =
        [project_normalize_add_stream(), feedforward_stream(), normalize_add_gate_stream()];
    let mut without = vec![(Buffer::Hidden, 11), (Buffer::Attention, 12), (Buffer::Fresh, 13)];
    let mut with = without.clone();
    run(&mut with, &warm.issued);
    for stream in &kernels {
        run(&mut without, stream);
        run(&mut with, &warm.issued);
        run(&mut with, &warm.issued);
        run(&mut with, stream);
    }
    for (b, value) in &without {
        assert!(*b == Buffer::Discarded || held(&with, *b) == *value, "{:?}", b);
    }
    assert_eq!(held(&with, Buffer::Output), held(&without, Buffer::Output));
    assert!(held(&without, Buffer::Output) != 5);
}
