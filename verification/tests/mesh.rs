use a010::frame::A010Frame;
use a010::mesh::{
    frame_side, setup_frame, setup_frame_colors, setup_frame_indices, FrameColor, FrameMesh,
    FrameSample,
};

#[test]
fn indices_of_small_grids() {
    let mut indices = vec![7u16];
    setup_frame_indices(&mut indices, 1);
    assert!(indices.is_empty());
    setup_frame_indices(&mut indices, 2);
    assert_eq!(indices, vec![0, 1, 2, 1, 3, 2]);
    setup_frame_indices(&mut indices, 3);
    assert_eq!(
        indices,
        vec![
            0, 1, 3, 1, 4, 3, // column 0, row 0: even
            3, 4, 7, 3, 7, 6, // column 0, row 1: odd
            1, 2, 5, 1, 5, 4, // column 1, row 0: odd
            4, 5, 7, 5, 8, 7, // column 1, row 1: even
        ]
    );
}

#[test]
fn indices_are_vertices() {
    for side in [25usize, 50, 100, 256] {
        let mut indices = Vec::new();
        setup_frame_indices(&mut indices, side);
        assert_eq!(indices.len(), 6 * (side - 1) * (side - 1));
        assert!(indices.iter().all(|i| (*i as usize) < side * side));
    }
}

#[test]
fn indices_keep_16_bits() {
    let mut indices = Vec::new();
    setup_frame_indices(&mut indices, 300);
    // The last cell: vertex 298 + 298 * 300 = 89698, less 65536.
    let last = &indices[indices.len() - 6..];
    assert_eq!(last, &[24162, 24163, 24462, 24163, 24463, 24462]);
}

#[test]
fn cells_are_at_their_places() {
    let mut indices = Vec::new();
    setup_frame_indices(&mut indices, 25);
    // Column 3, row 7: vertex 3 + 7 * 25 = 178.
    let k = 6 * (3 * 24 + 7);
    assert_eq!(&indices[k..k + 6], &[178, 179, 203, 179, 204, 203]);
}

#[test]
fn colors_are_a_board() {
    let even = FrameColor { r: 192, g: 192, b: 192, a: 255 };
    let odd = FrameColor { r: 64, g: 64, b: 64, a: 255 };
    let mut colors = vec![even; 9];
    setup_frame_colors(&mut colors, 0);
    assert!(colors.is_empty());
    setup_frame_colors(&mut colors, 2);
    assert_eq!(colors, vec![even, odd, odd, even]);
    setup_frame_colors(&mut colors, 3);
    assert_eq!(colors, vec![even, odd, even, odd, even, odd, even, odd, even]);
}

#[test]
fn sides() {
    assert_eq!(frame_side(10000), Some(100));
    assert_eq!(frame_side(2500), Some(50));
    assert_eq!(frame_side(625), Some(25));
    assert_eq!(frame_side(0), None);
    assert_eq!(frame_side(9999), None);
}

#[test]
fn frame_is_set_up() {
    let mut frame = A010Frame::default();
    let mut mesh = FrameMesh::new();
    frame.frame_size = 625;
    for i in 0..625 {
        frame.data[i] = (i % 251) as u8;
    }
    assert!(setup_frame(&frame, &mut mesh));
    assert_eq!(mesh.samples.len(), 625);
    assert_eq!(mesh.colors.len(), 625);
    assert_eq!(mesh.indices.len(), 6 * 24 * 24);
    assert_eq!(mesh.samples[0], FrameSample { column: 0, row: 0, distance: 0 });
    assert_eq!(mesh.samples[1], FrameSample { column: 0, row: 1, distance: 25 });
    assert_eq!(mesh.samples[25], FrameSample { column: 1, row: 0, distance: 1 });
    for pixel in 0..625usize {
        let sample = mesh.samples[pixel % 25 * 25 + pixel / 25];
        assert_eq!(
            sample,
            FrameSample { column: pixel % 25, row: pixel / 25, distance: frame.data[pixel] }
        );
    }
}

#[test]
fn same_picture_changes_nothing() {
    let mut frame = A010Frame::default();
    frame.frame_size = 625;
    frame.data[624] = 3;
    let mut mesh = FrameMesh::new();
    assert!(setup_frame(&frame, &mut mesh));
    let (samples, indices, colors) =
        (mesh.samples.clone(), mesh.indices.clone(), mesh.colors.clone());
    frame.data[625] = 9;
    assert!(setup_frame(&frame, &mut mesh));
    assert_eq!(mesh.samples, samples);
    assert_eq!(mesh.indices, indices);
    assert_eq!(mesh.colors, colors);
}

#[test]
fn triangles_follow_the_size() {
    let mut frame = A010Frame::default();
    let mut mesh = FrameMesh::new();
    assert!(setup_frame(&frame, &mut mesh));
    assert_eq!(mesh.indices.len(), 6 * 99 * 99);
    frame.frame_size = 2500;
    assert!(setup_frame(&frame, &mut mesh));
    assert_eq!(mesh.indices.len(), 6 * 49 * 49);
    assert_eq!(mesh.colors.len(), 2500);
    frame.frame_size = 2499;
    assert!(!setup_frame(&frame, &mut mesh));
    assert_eq!(mesh.samples.len(), 2500);
}

#[test]
fn triangles_stay_with_the_size() {
    let frame = A010Frame::default();
    let mut mesh = FrameMesh::new();
    assert!(setup_frame(&frame, &mut mesh));
    mesh.indices.clear();
    assert!(setup_frame(&frame, &mut mesh));
    assert!(mesh.indices.is_empty());
}
