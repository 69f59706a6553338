use npu_kernels::context::{Buffer, Context, Operands, Unit};
use npu_kernels::qkv::{
    everywhere, head_copy_slices, head_slices, key_value_row_slices, kv_rows_by_head, query_row_slices,
    query_rows_by_head, warm_up, Place, KV_ROWS, QUERY_ROWS,
};

#[test]
fn query_rows_fill_every_place_once() {
    let mut seen = vec![false; 512 * 8];
    for row in 0..QUERY_ROWS {
        let p = query_row_slices(row);
        assert!(p.slice < 512 && p.elem < 8);
        assert!(!seen[p.slice * 8 + p.elem]);
        seen[p.slice * 8 + p.elem] = true;
    }
    assert_eq!(query_row_slices(512 * 5 + 256 + 77), Place { slice: 5 * 64 + 32 + 8 + 5, elem: 1 });
}

#[test]
fn key_value_rows_fill_every_place_once() {
    let mut seen = vec![false; 512 * 4];
    for row in 0..KV_ROWS {
        let p = key_value_row_slices(row);
        assert!(p.slice < 512 && p.elem < 4);
        assert!(!seen[p.slice * 4 + p.elem]);
        seen[p.slice * 4 + p.elem] = true;
    }
    assert_eq!(key_value_row_slices(256 * 3 + 45), Place { slice: 3 * 64 + 8 + 3, elem: 1 });
}

#[test]
fn eight_consecutive_rows_go_to_eight_slices() {
    for first in [0usize, 8, 13, 1000] {
        for i in 0..8 {
            for j in 0..i {
                assert_ne!(
                    query_row_slices(first + i).slice,
                    query_row_slices(first + j).slice
                );
                assert_ne!(
                    key_value_row_slices(first + i).slice,
                    key_value_row_slices(first + j).slice
                );
            }
        }
    }
}

#[test]
fn the_sort_swaps_a_slice_digit_with_the_element() {
    for row in 0..QUERY_ROWS {
        let before = query_row_slices(row);
        let after = query_rows_by_head(row);
        assert_eq!(after.slice, before.slice / 8 * 8 + before.elem);
        assert_eq!(after.elem, before.slice % 8);
        assert_eq!(after.slice * 8 + after.elem, row);
    }
    for row in 0..KV_ROWS {
        let before = key_value_row_slices(row);
        let after = kv_rows_by_head(row);
        assert_eq!(after.slice, before.slice / 8 * 8 + before.elem * 2 + before.slice % 2);
        assert_eq!(after.elem, before.slice / 2 % 4);
        assert_eq!(after.slice * 4 + after.elem, row);
    }
}

#[test]
fn heads_own_their_slices() {
    let heads: Vec<usize> = (0..8).map(head_slices).collect();
    assert_eq!(heads, vec![0, 64, 128, 192, 256, 320, 384, 448]);
    for n in 0..8 {
        assert_eq!(head_copy_slices(n / 4, n % 4), head_slices(n));
    }
    for row in 0..KV_ROWS {
        assert_eq!(key_value_row_slices(row).slice / 64, row / 256);
        assert_eq!(kv_rows_by_head(row).slice / 64, row / 256);
    }
    for row in 0..QUERY_ROWS {
        assert_eq!(query_row_slices(row).slice / 64, row / 512);
        assert_eq!(query_rows_by_head(row).slice / 64, row / 512);
    }
}

#[test]
fn sixteen_replicas_of_a_ring() {
    assert_eq!(everywhere(0, 0, 0), 0);
    assert_eq!(everywhere(1, 2, 3), 291);
    assert_eq!(everywhere(1, 15, 15), 511);
}

#[test]
fn the_warm_up_is_one_command() {
    let mut ctx = Context::new();
    warm_up(&mut ctx);
    assert_eq!(ctx.issued.len(), 1);
    assert_eq!(ctx.issued[0].unit, Unit::Sub);
    assert_eq!(ctx.issued[0].source, Buffer::Fresh);
    assert_eq!(ctx.issued[0].operands, Operands::Nothing);
    assert_eq!(ctx.issued[0].target, Buffer::Discarded);
}
