use slam_vision::color::{rgba_to_gray, RGB};
use slam_vision::compression::{chroma_subsample_411, qc, qy, tile_table};
use slam_vision::conv::Kernel;
use slam_vision::grid::{Grid, Grid3};
use slam_vision::pixels::{
    lets_papper_noise, make_image_data, take_number_slice_by_shared_ref, NoiseDraw,
};

#[test]
fn conv_2d_with_1_channel() {
    let data = Grid3::from_shape_vec(5, 5, 1, vec![1; 25]).unwrap();
    let kernel = Kernel::new(
        Grid::from_shape_vec(3, 3, vec![0, 0, 0, 0, 1, 0, 0, 0, 0]).unwrap(),
    );
    let out = data.conv_2d(&kernel);
    assert_eq!(out.height, 5);
    assert_eq!(out.width, 5);
    assert_eq!(out.channels, 1);
    assert_eq!(out.data, vec![1; 25]);
}

#[test]
fn conv_2d_box_kernel_counts_neighbours() {
    let data = Grid3::from_shape_vec(3, 3, 1, vec![1; 9]).unwrap();
    let kernel = Kernel::new(Grid::from_shape_vec(3, 3, vec![1; 9]).unwrap());
    let out = data.conv_2d(&kernel);
    assert_eq!(out.data, vec![4, 6, 4, 6, 9, 6, 4, 6, 4]);
}

#[test]
fn conv_2d_is_correlation_without_flip() {
    // Kernel picks the left neighbour: out(y, x) = img(y, x - 1).
    let data = Grid3::from_shape_vec(1, 4, 2, vec![1, 10, 2, 20, 3, 30, 4, 40]).unwrap();
    let kernel = Kernel::new(Grid::from_shape_vec(3, 3, vec![0, 0, 0, 1, 0, 0, 0, 0, 0]).unwrap());
    let out = data.conv_2d(&kernel);
    assert_eq!(out.data, vec![0, 0, 1, 10, 2, 20, 3, 30]);
}

#[test]
fn conv_2d_two_row_kernel() {
    // Two rows, one column: out(y, x) = img(y - 1, x - 1) + 2 * img(y, x - 1).
    let data = Grid3::from_shape_vec(3, 2, 1, vec![1, 4, 2, 5, 3, 6]).unwrap();
    let kernel = Kernel::new(Grid::from_shape_vec(2, 1, vec![1, 2]).unwrap());
    let out = data.conv_2d(&kernel);
    assert_eq!(out.data, vec![0, 2, 0, 5, 0, 8]);
}

#[test]
fn conv_2d_kernel_without_columns_gives_zeros() {
    let data = Grid3::from_shape_vec(2, 2, 1, vec![5, 6, 7, 8]).unwrap();
    let kernel = Kernel::new(Grid::from_shape_vec(3, 0, vec![]).unwrap());
    let out = data.conv_2d(&kernel);
    assert_eq!((out.height, out.width, out.channels), (2, 2, 1));
    assert_eq!(out.data, vec![0, 0, 0, 0]);
}

#[test]
fn gray_conversion_uses_integer_weights() {
    let img = Grid3::from_shape_vec(
        1,
        3,
        4,
        vec![255, 0, 0, 255, 0, 255, 0, 255, 10, 20, 30, 0],
    )
    .unwrap();
    let gray = rgba_to_gray(&img);
    assert_eq!(gray.rows, 1);
    assert_eq!(gray.cols, 3);
    // (255*30 + 50) / 100 = 77, (255*59 + 50) / 100 = 150, (300+1180+330+50)/100 = 18
    assert_eq!(gray.data, vec![77, 150, 18]);
}

#[test]
fn gray_of_gray_pixel_is_unchanged() {
    let img = Grid3::from_shape_vec(1, 2, 3, vec![0, 0, 0, 200, 200, 200]).unwrap();
    assert_eq!(rgba_to_gray(&img).data, vec![0, 200]);
}

#[test]
fn rgb_new_keeps_channels() {
    let c = RGB::new(1, 2, 3);
    assert_eq!((c.0, c.1, c.2), (1, 2, 3));
}

#[test]
fn quantisation_tables() {
    let y = qy();
    assert_eq!((y.rows, y.cols), (8, 8));
    assert_eq!(*y.get(0, 0), 16);
    assert_eq!(*y.get(4, 5), 109);
    assert_eq!(*y.get(7, 7), 99);
    let c = qc();
    assert_eq!(*c.get(0, 0), 17);
    assert_eq!(*c.get(3, 0), 47);
    assert_eq!(*c.get(7, 7), 99);
}

#[test]
fn chroma_subsampling_copies_top_left_chroma() {
    // 2 x 2 image, three channels.
    let mut img = Grid3::from_shape_vec(
        2,
        2,
        3,
        vec![1, 2, 3, 4, 5, 6, 7, 8, 9, 10, 11, 12],
    )
    .unwrap();
    chroma_subsample_411(&mut img, 2, 2);
    assert_eq!(img.data, vec![1, 2, 3, 4, 2, 3, 7, 2, 3, 10, 2, 3]);
    // A second pass changes nothing.
    let once = img.data.clone();
    chroma_subsample_411(&mut img, 2, 2);
    assert_eq!(img.data, once);
}

#[test]
fn chroma_subsampling_leaves_odd_edge() {
    // 3 x 3: only the top-left 2 x 2 block is subsampled.
    let data: Vec<u32> = (0..27).collect();
    let mut img = Grid3::from_shape_vec(3, 3, 3, data.clone()).unwrap();
    chroma_subsample_411(&mut img, 3, 3);
    assert_eq!(*img.get(0, 1, 1), 1);
    assert_eq!(*img.get(1, 1, 2), 2);
    assert_eq!(*img.get(1, 1, 0), 12);
    assert_eq!(*img.get(2, 2, 1), 25);
    assert_eq!(*img.get(0, 2, 1), 7);
}

#[test]
fn fill_bytes() {
    let mut bytes = vec![1u8, 2, 3];
    take_number_slice_by_shared_ref(&mut bytes);
    assert_eq!(bytes, vec![255, 255, 255]);
    let image = make_image_data(2, 3);
    assert_eq!(image.len(), 24);
    assert!(image.iter().all(|b| *b == 117));
}

#[test]
fn salt_and_pepper() {
    let data: Vec<u8> = (0..16).collect();
    let draws = vec![NoiseDraw::Keep, NoiseDraw::White, NoiseDraw::Black, NoiseDraw::Keep];
    let out = lets_papper_noise(&data, 2, 2, &draws);
    assert_eq!(
        out,
        vec![0, 1, 2, 3, 255, 255, 255, 255, 0, 0, 0, 255, 12, 13, 14, 15]
    );
}

#[test]
fn salt_and_pepper_on_a_wide_image() {
    // Three columns, two rows of draws; the bytes are read as three rows of
    // two pixels, so draw (y, x) acts on pixel y * 2 + x and the draws of
    // column 2 must keep their pixel.
    let data: Vec<u8> = (0..24).collect();
    let draws = vec![
        NoiseDraw::White,
        NoiseDraw::Keep,
        NoiseDraw::Keep,
        NoiseDraw::Black,
        NoiseDraw::White,
        NoiseDraw::Keep,
    ];
    let out = lets_papper_noise(&data, 3, 2, &draws);
    let mut expected: Vec<u8> = (0..24).collect();
    expected[0..4].copy_from_slice(&[255, 255, 255, 255]);
    expected[8..12].copy_from_slice(&[0, 0, 0, 255]);
    expected[12..16].copy_from_slice(&[255, 255, 255, 255]);
    assert_eq!(out, expected);
}

#[test]
fn tiled_table_repeats_every_sixty_four_entries() {
    let y = qy();
    // A 16 x 16 image takes four copies of the table.
    let t = tile_table(&y, 16, 16);
    assert_eq!((t.rows, t.cols), (16, 16));
    assert_eq!(t.data.len(), 256);
    for i in 0..256 {
        assert_eq!(t.data[i], y.data[i % 64]);
    }
    // Row 4 of the 16-wide grid starts at entry 64: the table's first entry.
    assert_eq!(*t.get(4, 0), 16);
    assert_eq!(*t.get(0, 8), 12);
    let c = tile_table(&qc(), 8, 8);
    assert_eq!(c.data, qc().data);
}
