use raynaldo::color::Color;
use raynaldo::render::RenderState;

#[test]
fn orders_are_permutations() {
    let orders = RenderState::generate_pixel_render_orders(10);
    assert_eq!(orders.len(), 5);
    for order in &orders {
        assert_eq!(order.len(), 10);
        let mut sorted = order.clone();
        sorted.sort();
        let expected: Vec<usize> = (0..10).collect();
        assert_eq!(sorted, expected);
    }
}

#[test]
fn new_state_is_blank() {
    let state = RenderState::new(4, 3);
    assert_eq!(state.canvas.len(), 12);
    assert!(state.canvas.iter().all(|c| c.sum_r == 0 && c.sum_g == 0 && c.sum_b == 0
        && c.samples == 0));
    assert_eq!(state.current_render_pixel, 0);
    assert_eq!(state.total_rendered_pixel_samples, 0);
    assert!(!state.is_finished(1));
    assert_eq!(state.progress(1), 0);
}

#[test]
fn to_bytes_is_idempotent() {
    let mut state = RenderState::new(2, 2);
    let gray = Color { r: 32768, g: 32768, b: 32768 };
    state.accumulate_sample(0, gray);
    state.accumulate_sample(1, Color { r: 65536, g: 0, b: 0 });
    let first = state.to_bytes();
    let second = state.to_bytes();
    assert_eq!(first, second);
}

#[test]
fn to_bytes_exact_values() {
    let mut state = RenderState::new(2, 1);
    // Pixel 0: two samples averaging to half intensity red.
    state.accumulate_sample(0, Color { r: 65536, g: 0, b: 0 });
    state.accumulate_sample(0, Color { r: 0, g: 0, b: 0 });
    let bytes = state.to_bytes();
    assert_eq!(bytes.len(), 8);
    // mean 32768 -> 32768 * 255 / 65536 = 127
    assert_eq!(&bytes[0..4], &[127, 0, 0, 255]);
    // untouched pixel: black, opaque
    assert_eq!(&bytes[4..8], &[0, 0, 0, 255]);
}

#[test]
fn full_intensity_maps_to_255() {
    let mut state = RenderState::new(1, 1);
    state.accumulate_sample(0, Color { r: 65536, g: 65536, b: 65536 });
    let bytes = state.to_bytes();
    assert_eq!(bytes, vec![255, 255, 255, 255]);
}

#[test]
fn overbright_clamps_to_255() {
    let mut state = RenderState::new(1, 1);
    state.accumulate_sample(0, Color { r: 4_000_000, g: 0, b: 0 });
    let bytes = state.to_bytes();
    assert_eq!(bytes[0], 255);
}

#[test]
fn progress_monotone_and_complete() {
    let mut state = RenderState::new(2, 2);
    let spp = 2;
    let mut last = state.progress(spp);
    let mut guard = 0;
    while !state.is_finished(spp) {
        let batch = state.current_batch(3);
        for &index in &batch {
            state.accumulate_sample(index, Color { r: 100, g: 100, b: 100 });
        }
        state.commit_batch(batch.len(), spp);
        let now = state.progress(spp);
        assert!(now >= last);
        last = now;
        guard += 1;
        assert!(guard < 100);
    }
    // finished exactly when progress reaches 1.0 (65536 fixed-point)
    assert_eq!(state.progress(spp), 65536);
    assert_eq!(state.total_rendered_pixel_samples, 8);
    assert_eq!(state.missing_pixels(spp), 0);
}

#[test]
fn batch_partition_has_no_collisions() {
    let state = RenderState::new(8, 8);
    let batch = state.current_batch(64);
    assert_eq!(batch.len(), 64);
    // split into simulated concurrent sub-batches and check disjointness
    let (left, right) = batch.split_at(32);
    for a in left {
        assert!(!right.contains(a));
    }
    // and no duplicates within the whole batch
    let mut seen = vec![false; 64];
    for &index in &batch {
        assert!(index < 64);
        assert!(!seen[index]);
        seen[index] = true;
    }
}

#[test]
fn batch_is_slice_of_active_order() {
    let state = RenderState::new(4, 4);
    let batch = state.current_batch(5);
    assert_eq!(batch.len(), 5);
    let order = state.get_current_pixel_order();
    assert_eq!(&batch[..], &order[0..5]);
}

#[test]
fn commit_batch_rewinds_for_next_pass() {
    let mut state = RenderState::new(2, 2);
    let spp = 2;
    // one full pass of 4 pixel-samples, target is 8: cursor must rewind
    state.commit_batch(4, spp);
    assert_eq!(state.total_rendered_pixel_samples, 4);
    assert_eq!(state.current_render_pixel, 0);
    assert_eq!(state.rendered_samples, 1);
    // the final pass ends the frame: no rewind
    state.commit_batch(4, spp);
    assert_eq!(state.total_rendered_pixel_samples, 8);
    assert_eq!(state.current_render_pixel, 4);
    assert!(state.is_finished(spp));
}

#[test]
fn restore_canvas_clears_and_advances_order() {
    let mut state = RenderState::new(2, 2);
    state.accumulate_sample(0, Color { r: 65536, g: 65536, b: 65536 });
    state.commit_batch(2, 1);
    assert_eq!(state.current_pixel_render_order, 0);
    state.restore_canvas();
    assert_eq!(state.current_pixel_render_order, 1);
    assert_eq!(state.current_render_pixel, 0);
    assert_eq!(state.total_rendered_pixel_samples, 0);
    assert!(state.canvas.iter().all(|c| c.samples == 0 && c.sum_r == 0));
}

#[test]
fn resize_leaves_no_stale_accumulation() {
    let mut state = RenderState::new(4, 4);
    for i in 0..16 {
        state.accumulate_sample(i, Color { r: 65536, g: 65536, b: 65536 });
    }
    state.commit_batch(16, 1);
    state.on_resize(2, 2);
    assert_eq!(state.canvas.len(), 4);
    assert!(state.canvas.iter().all(|c| c.sum_r == 0 && c.sum_g == 0 && c.sum_b == 0
        && c.samples == 0));
    assert_eq!(state.progress(1), 0);
    assert_eq!(state.total_rendered_pixel_samples, 0);
    // back to the original size: still blank
    state.on_resize(4, 4);
    assert_eq!(state.canvas.len(), 16);
    assert!(state.canvas.iter().all(|c| c.sum_r == 0 && c.samples == 0));
    assert_eq!(state.progress(1), 0);
    let bytes = state.to_bytes();
    assert!(bytes.chunks(4).all(|px| px == [0, 0, 0, 255]));
}

#[test]
fn missing_pixels_counts_down() {
    let mut state = RenderState::new(2, 2);
    assert_eq!(state.total_pixels_to_render(3), 12);
    assert_eq!(state.missing_pixels(3), 12);
    state.commit_batch(4, 3);
    assert_eq!(state.missing_pixels(3), 8);
    assert_eq!(state.missing_pixels_in_current_order(), 4);
    assert!(!state.is_finished_current_order());
}
