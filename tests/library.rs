use raytracing::integrator::{next_step, PathStep, RayEvent};
use raytracing::materials::DefaultMaterial;
use raytracing::ppm::{encode_ppm, ppm_header, push_pixel, Rgb8};
use raytracing::render::{reassemble, worker_seed, RowBands};
use raytracing::scenes::{AdvanceSceneCase, SceneCase, Shading, WorldLayout};

fn text(bytes: Vec<u8>) -> String {
    String::from_utf8(bytes).unwrap()
}

#[test]
fn default_material_is_the_empty_material() {
    assert_eq!(DefaultMaterial::new(), DefaultMaterial {});
}

#[test]
fn first_scenes_pick_their_shading() {
    assert_eq!(SceneCase::RaySphereScene.shading(), Shading::SphereMask);
    assert_eq!(SceneCase::ShadingWithNormalScene.shading(), Shading::SphereNormal);
    assert_eq!(SceneCase::HittableObjectsScene.shading(), Shading::WorldNormal);
}

#[test]
fn camera_scenes_pick_shading_and_layout() {
    assert_eq!(AdvanceSceneCase::AntialiasingScene.shading(), Shading::WorldNormal);
    assert_eq!(AdvanceSceneCase::MaterialScene.shading(), Shading::Diffuse);
    assert_eq!(AdvanceSceneCase::MetalScene.shading(), Shading::Scatter);
    assert_eq!(AdvanceSceneCase::RefractionScene.shading(), Shading::Scatter);
    assert_eq!(AdvanceSceneCase::AntialiasingScene.layout(), WorldLayout::TwoSpheres);
    assert_eq!(AdvanceSceneCase::MaterialScene.layout(), WorldLayout::TwoSpheres);
    assert_eq!(AdvanceSceneCase::MetalScene.layout(), WorldLayout::MetalSpheres);
    assert_eq!(AdvanceSceneCase::RefractionScene.layout(), WorldLayout::GlassSpheres);
}

#[test]
fn no_bounce_left_is_black_without_looking_at_the_scene() {
    for event in [RayEvent::Miss, RayEvent::Absorbed, RayEvent::Scattered] {
        let mut looked = false;
        let step = next_step(0, || {
            looked = true;
            event
        });
        assert_eq!(step, PathStep::Black);
        assert!(!looked);
    }
}

#[test]
fn miss_shows_the_background() {
    assert_eq!(next_step(50, || RayEvent::Miss), PathStep::Background);
}

#[test]
fn absorbed_ray_is_black() {
    assert_eq!(next_step(50, || RayEvent::Absorbed), PathStep::Black);
}

#[test]
fn scattered_ray_is_followed_with_one_bounce_less() {
    assert_eq!(next_step(50, || RayEvent::Scattered), PathStep::Follow { depth: 49 });
    assert_eq!(next_step(1, || RayEvent::Scattered), PathStep::Follow { depth: 0 });
}

#[test]
fn rows_split_into_equal_bands() {
    let bands = RowBands::new(800, 20);
    assert_eq!(bands.workers, 20);
    assert_eq!(bands.band_height, 40);
    assert_eq!(bands.rows(), 800);
}

#[test]
fn rows_that_do_not_divide_leave_the_remainder_out() {
    let bands = RowBands::new(10, 3);
    assert_eq!(bands.band_height, 3);
    assert_eq!(bands.rows(), 9);
    let fewer = RowBands::new(2, 5);
    assert_eq!(fewer.band_height, 0);
    assert_eq!(fewer.scanlines(4), Vec::<u32>::new());
}

#[test]
fn a_worker_walks_its_band_from_the_top() {
    let bands = RowBands::new(6, 2);
    assert_eq!(bands.scanlines(0), vec![2, 1, 0]);
    assert_eq!(bands.scanlines(1), vec![5, 4, 3]);
}

fn band(bands: &RowBands, t: u32) -> (usize, Vec<u32>) {
    (t as usize, bands.scanlines(t))
}

#[test]
fn bands_reassemble_top_to_bottom_whatever_the_arrival_order() {
    let bands = RowBands::new(12, 4);
    let orders: [[u32; 4]; 4] = [[0, 1, 2, 3], [3, 2, 1, 0], [2, 0, 3, 1], [1, 3, 0, 2]];
    for order in orders {
        let reports: Vec<(usize, Vec<u32>)> = order.iter().map(|&t| band(&bands, t)).collect();
        let image = reassemble(reports, 4).unwrap();
        assert_eq!(image, vec![11, 10, 9, 8, 7, 6, 5, 4, 3, 2, 1, 0]);
    }
}

#[test]
fn reassembly_keeps_each_band_rows_in_order() {
    let reports = vec![(1, vec!["c", "d"]), (0, vec!["e", "f"]), (2, vec!["a", "b"])];
    assert_eq!(reassemble(reports, 3), Some(vec!["a", "b", "c", "d", "e", "f"]));
}

#[test]
fn reassembly_of_no_workers_is_empty() {
    let reports: Vec<(usize, Vec<u8>)> = Vec::new();
    assert_eq!(reassemble(reports, 0), Some(vec![]));
}

#[test]
fn reassembly_refuses_a_missing_band() {
    let reports = vec![(0, vec![1u8]), (2, vec![3u8])];
    assert_eq!(reassemble(reports, 3), None);
}

#[test]
fn reassembly_refuses_a_band_reported_twice() {
    let reports = vec![(0, vec![1u8]), (1, vec![2u8]), (1, vec![3u8])];
    assert_eq!(reassemble(reports, 3), None);
}

#[test]
fn reassembly_refuses_an_unknown_band() {
    let reports = vec![(0, vec![1u8]), (5, vec![2u8])];
    assert_eq!(reassemble(reports, 2), None);
}

#[test]
fn reassembly_refuses_too_many_reports() {
    let reports = vec![(0, vec![1u8]), (1, vec![2u8]), (0, vec![3u8])];
    assert_eq!(reassemble(reports, 2), None);
}

#[test]
fn header_names_size_and_depth() {
    assert_eq!(text(ppm_header(1200, 800)), "P3\n1200 800\n255\n\n");
    assert_eq!(text(ppm_header(0, 7)), "P3\n0 7\n255\n\n");
    assert_eq!(text(ppm_header(4294967295, 10)), "P3\n4294967295 10\n255\n\n");
}

#[test]
fn pixel_line_lists_levels_in_decimal() {
    let mut out = b"x".to_vec();
    push_pixel(&mut out, Rgb8 { r: 255, g: 0, b: 7 });
    assert_eq!(text(out), "x255 0 7\n");
    let mut out = Vec::new();
    push_pixel(&mut out, Rgb8 { r: 10, g: 99, b: 100 });
    assert_eq!(text(out), "10 99 100\n");
}

#[test]
fn whole_image_is_header_then_rows_from_the_top() {
    let pixels = vec![
        Rgb8 { r: 1, g: 2, b: 3 },
        Rgb8 { r: 40, g: 50, b: 60 },
        Rgb8 { r: 255, g: 255, b: 255 },
        Rgb8 { r: 0, g: 0, b: 0 },
    ];
    assert_eq!(
        text(encode_ppm(2, 2, &pixels)),
        "P3\n2 2\n255\n\n1 2 3\n40 50 60\n255 255 255\n0 0 0\n"
    );
}

#[test]
fn image_without_pixels_is_its_header() {
    assert_eq!(text(encode_ppm(0, 0, &Vec::new())), "P3\n0 0\n255\n\n");
}

#[test]
fn each_worker_gets_a_seed_of_its_own() {
    assert_eq!(worker_seed(1, 0), 1);
    assert_eq!(worker_seed(1, 19), 20);
    let seeds: Vec<u64> = (0..20).map(|t| worker_seed(7, t)).collect();
    for a in 0..seeds.len() {
        for b in 0..a {
            assert_ne!(seeds[a], seeds[b]);
        }
    }
}

#[test]
fn worker_seed_wraps_around() {
    assert_eq!(worker_seed(u64::MAX, 0), u64::MAX);
    assert_eq!(worker_seed(u64::MAX, 1), 0);
    assert_eq!(worker_seed(u64::MAX - 1, 5), 3);
}
