use led_platform::layout::{matrix_cells, Layout, LayoutBuilder};

/// A `w`×`h` matrix at `pitch` metres, placed in wiring order.
fn add_matrix(b: &mut LayoutBuilder, group: &str, w: u32, h: u32, serpentine: bool, pitch: f32) {
    for (c, row) in matrix_cells(w, h, serpentine) {
        b.push((c as f32 * pitch).to_bits(), (row as f32 * pitch).to_bits(), 0f32.to_bits(), group);
    }
}

fn x(l: &Layout, i: usize) -> f32 {
    f32::from_bits(l.pixels[i].x)
}

#[test]
fn matrix_serpentine_id_follows_wiring_not_columns() {
    // 3×2 serpentine. Row 0 → x = 0,1,2 (ids 0,1,2). Row 1 reversed → x = 2,1,0 (ids 3,4,5).
    let mut b = LayoutBuilder::new();
    add_matrix(&mut b, "m", 3, 2, true, 1.0);
    let layout = b.build();
    assert_eq!(layout.len(), 6);
    assert_eq!(x(&layout, 0), 0.0);
    assert_eq!(x(&layout, 2), 2.0);
    assert_eq!(x(&layout, 3), 2.0, "row 1 starts at the far side (serpentine fold)");
    assert_eq!(x(&layout, 5), 0.0);
}

#[test]
fn matrix_cells_fold_every_other_row() {
    assert_eq!(matrix_cells(3, 2, true), vec![(0, 0), (1, 0), (2, 0), (2, 1), (1, 1), (0, 1)]);
    assert_eq!(matrix_cells(3, 2, false), vec![(0, 0), (1, 0), (2, 0), (0, 1), (1, 1), (2, 1)]);
    assert_eq!(matrix_cells(2, 3, true), vec![(0, 0), (1, 0), (1, 1), (0, 1), (0, 2), (1, 2)]);
    assert!(matrix_cells(0, 5, true).is_empty());
    assert!(matrix_cells(5, 0, true).is_empty());
}

#[test]
fn ids_are_dense_and_groups_keep_add_order() {
    let mut b = LayoutBuilder::new();
    assert_eq!(b.push(0, 0, 0, "tree"), 0);
    assert_eq!(b.push(0, 0, 0, "arch"), 1);
    assert_eq!(b.push(0, 0, 0, "tree"), 2);
    assert_eq!(b.len(), 3);
    let layout = b.build();
    assert_eq!(layout.len(), 3);
    assert!(!layout.is_empty());
    for (i, p) in layout.pixels.iter().enumerate() {
        assert_eq!(p.id as usize, i);
        assert_eq!(p.label, None);
    }
    assert_eq!(layout.group("tree"), &[0, 2]);
    assert_eq!(layout.group("arch"), &[1]);
    assert_eq!(layout.group("matrix"), &[] as &[u32], "an unknown group is empty");
    assert_eq!(layout.pixels[1].group, "arch");
}

#[test]
fn an_empty_builder_builds_an_empty_layout() {
    let layout = LayoutBuilder::new().build();
    assert!(layout.is_empty());
    assert_eq!(layout.len(), 0);
    assert!(layout.group("any").is_empty());
}

#[test]
fn coordinates_are_kept_exactly() {
    let mut b = LayoutBuilder::new();
    b.push(1.5f32.to_bits(), (-2.0f32).to_bits(), 0.25f32.to_bits(), "p");
    let l = b.build();
    assert_eq!(f32::from_bits(l.pixels[0].x), 1.5);
    assert_eq!(f32::from_bits(l.pixels[0].y), -2.0);
    assert_eq!(f32::from_bits(l.pixels[0].z), 0.25);
}
