use photo::array::{Array2, Array3};
use photo::image_rgba::ImageRGBA;

fn numbered(width: usize, height: usize) -> ImageRGBA {
    let mut image = ImageRGBA::empty(width, height);
    for y in 0..height {
        for x in 0..width {
            let base = (10 * (y * width + x)) as u8;
            image.set_pixel([x, y], [base, base + 1, base + 2, base + 3]);
        }
    }
    image
}

#[test]
fn rgba_new_takes_row_major_data() {
    let data = Array3::from_shape_vec((1, 2, 4), (1u8..9).collect()).unwrap();
    let image = ImageRGBA::new(data);
    assert_eq!(image.width(), 2);
    assert_eq!(image.height(), 1);
    assert_eq!(image.get_pixel([0, 0]), [1, 2, 3, 4]);
    assert_eq!(image.get_pixel([1, 0]), [5, 6, 7, 8]);
}

#[test]
fn rgba_empty_is_black_and_opaque() {
    let image = ImageRGBA::empty(2, 3);
    assert_eq!((image.width(), image.height()), (2, 3));
    assert_eq!(image.data.dim(), (3, 2, 4));
    assert_eq!(image.data.to_vec(), [0u8, 0, 0, 1].repeat(6));
}

#[test]
fn rgba_filled_repeats_the_pixel() {
    let image = ImageRGBA::filled(3, 1, [5, 6, 7, 8]);
    assert_eq!((image.width(), image.height()), (3, 1));
    assert_eq!(image.data.to_vec(), [5u8, 6, 7, 8].repeat(3));
}

#[test]
fn rgba_from_layers_interleaves_the_channels() {
    let layer = |first: u8| Array2::from_shape_vec((2, 1), vec![first, first + 1]).unwrap();
    let image = ImageRGBA::from_layers([layer(10), layer(20), layer(30), layer(40)]);
    assert_eq!((image.width(), image.height()), (1, 2));
    assert_eq!(image.get_pixel([0, 0]), [10, 20, 30, 40]);
    assert_eq!(image.get_pixel([0, 1]), [11, 21, 31, 41]);
    assert_eq!(image.get_layer(3), layer(40));
}

#[test]
fn rgba_components_and_pixels_are_read_and_written() {
    let mut image = numbered(3, 2);
    assert_eq!(image.get_component([2, 1], 3), 53);
    image.set_component([2, 1], 3, 200);
    assert_eq!(image.get_pixel([2, 1]), [50, 51, 52, 200]);
    image.set_pixel([0, 1], [1, 2, 3, 4]);
    assert_eq!(image.get_pixel([0, 1]), [1, 2, 3, 4]);
    assert_eq!(image.get_pixel([1, 1]), [40, 41, 42, 43]);
}

#[test]
fn rgba_transforms_move_the_pixels() {
    let before = numbered(3, 2);
    let mut image = before.clone();
    image.transpose();
    assert_eq!((image.width(), image.height()), (2, 3));
    assert_eq!(image.get_pixel([0, 2]), before.get_pixel([2, 0]));
    let mut image = before.clone();
    image.flip_vertical();
    assert_eq!(image.get_pixel([1, 0]), before.get_pixel([1, 1]));
    let mut image = before.clone();
    image.flip_horizontal();
    assert_eq!(image.get_pixel([0, 1]), before.get_pixel([2, 1]));
    let mut image = before.clone();
    image.rotate_clockwise();
    assert_eq!(image.get_pixel([1, 0]), before.get_pixel([0, 0]));
    let mut image = before.clone();
    image.rotate_anticlockwise();
    assert_eq!(image.get_pixel([0, 2]), before.get_pixel([0, 0]));
    let mut image = before.clone();
    image.rotate_180();
    assert_eq!(image.get_pixel([2, 1]), before.get_pixel([0, 0]));
}

#[test]
fn rgba_transforms_undo_each_other() {
    let before = numbered(2, 3);
    let mut image = before.clone();
    image.flip_vertical();
    image.flip_vertical();
    image.flip_horizontal();
    image.flip_horizontal();
    image.transpose();
    image.transpose();
    assert_eq!(image, before);
    image.rotate_clockwise();
    image.rotate_anticlockwise();
    assert_eq!(image, before);
    for _ in 0..4 {
        image.rotate_clockwise();
    }
    assert_eq!(image, before);
    let mut turned = before.clone();
    turned.rotate_180();
    image.flip_vertical();
    image.flip_horizontal();
    assert_eq!(image, turned);
}

#[test]
fn rgba_windows_and_tiles() {
    let mut image = numbered(4, 2);
    let before = image.clone();
    assert_eq!(image.extract([1, 0], [2, 2]).get_pixel([1, 1]), before.get_pixel([2, 1]));
    assert_eq!(image.view([1, 0], [2, 2]).get([1, 1, 3]), Some(before.get_component([2, 1], 3)));
    {
        let mut written = image.view_mut([1, 0], [2, 2]);
        assert!(written.set([0, 0, 0], 77));
    }
    assert_eq!(image.get_component([1, 0], 0), 77);
    image.set_component([1, 0], 0, before.get_component([1, 0], 0));
    let grid = image.tiles([2, 1]);
    assert_eq!(grid.dim(), (2, 2));
    assert_eq!(grid.get([1, 1]), Some(&before.extract([2, 1], [2, 1]).data));
    assert_eq!(image.extract_tile([2, 1], [1, 1]), before.extract([2, 1], [2, 1]));
    assert_eq!(image.view_tile([2, 1], [1, 1]).get([0, 1, 0]), Some(70));
    {
        let mut written = image.view_tile_mut([2, 1], [0, 1]);
        assert!(written.set([0, 1, 2], 88));
    }
    assert_eq!(image.get_component([1, 1], 2), 88);
    let groups = image.unique_tiles([2, 1]);
    assert_eq!(groups.len(), 4);
    assert_eq!(groups.iter().map(|g| g.1).sum::<usize>(), 4);
    let groups = ImageRGBA::filled(4, 2, [1, 2, 3, 4]).unique_tiles([2, 1]);
    assert_eq!(groups.len(), 1);
    assert_eq!(groups[0].1, 4);
    assert_eq!(groups[0].0, ImageRGBA::filled(2, 1, [1, 2, 3, 4]));
}
