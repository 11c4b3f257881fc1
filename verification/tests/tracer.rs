use pathtracer::fixed::SCALE;
use pathtracer::vec3::Vec3;
use pathtracer::ray::Ray;
use pathtracer::obj::{Interval, Object, Sphere, nearest_hit};
use pathtracer::camera::Camera;
use pathtracer::image::{Image, encode_channel};
use pathtracer::rng::RenderRng;

fn v(x: i64, y: i64, z: i64) -> Vec3 {
    Vec3::new(x, y, z)
}

#[test]
fn vector_arithmetic_is_componentwise() {
    let a = v(1_000_000, 2_000_000, -3_000_000);
    let b = v(500_000, -500_000, 1_000_000);
    assert_eq!(a.add(b), v(1_500_000, 1_500_000, -2_000_000));
    assert_eq!(a.sub(b), v(500_000, 2_500_000, -4_000_000));
    assert_eq!(a.neg(), v(-1_000_000, -2_000_000, 3_000_000));
    assert_eq!(a.mul(b), v(500_000, -1_000_000, -3_000_000));
    assert_eq!(a.scale(2_000_000), v(2_000_000, 4_000_000, -6_000_000));
}

#[test]
fn dot_and_cross_products() {
    let a = v(1_000_000, 0, 0);
    let b = v(0, 1_000_000, 0);
    assert_eq!(Vec3::dot(a, b), 0);
    assert_eq!(Vec3::dot(a, a), 1_000_000);
    assert_eq!(Vec3::cross(a, b), v(0, 0, 1_000_000));
    assert_eq!(Vec3::cross(b, a), v(0, 0, -1_000_000));
}

#[test]
fn magnitude_of_three_four_five_triangle() {
    let a = v(300_000, 0, 400_000);
    assert_eq!(a.magnitude_squared(), 250_000);
    assert_eq!(a.magnitude(), 500_000);
}

#[test]
fn normalise_scales_to_unit_length() {
    let a = v(0, 0, -2_000_000);
    assert_eq!(a.normalise(), v(0, 0, -1_000_000));
    let b = v(2_000_000, 0, 0);
    assert_eq!(b.normalise(), v(1_000_000, 0, 0));
}

#[test]
fn interval_is_half_open() {
    let band = Interval { lo: 0, hi: 1_000_000 };
    assert!(band.contains(0));
    assert!(band.contains(999_999));
    assert!(!band.contains(1_000_000));
    assert!(!band.contains(-1));
}

#[test]
fn head_on_hit_reports_front_face_and_opposing_normal() {
    let sphere = Sphere::new(v(0, 0, -1_000_000), 500_000);
    let ray = Ray { loc: v(0, 0, 0), dir: v(0, 0, -1_000_000) };
    let hit = sphere.hit_test(ray, Interval::all_forward()).unwrap();
    assert!(hit.front_face);
    assert_eq!(hit.normal, v(0, 0, 1_000_000));
    assert_eq!(hit.distance, 500_000);
    assert_eq!(hit.loc, v(0, 0, -500_000));
}

#[test]
fn hit_point_lies_on_ray_and_on_surface() {
    let centre = v(0, 0, -1_000_000);
    let sphere = Sphere::new(centre, 500_000);
    let ray = Ray { loc: v(0, 0, 0), dir: v(0, 0, -1_000_000) };
    let hit = sphere.hit_test(ray, Interval::all_forward()).unwrap();
    assert_eq!(ray.at(hit.distance), hit.loc);
    assert_eq!(hit.loc.sub(centre).magnitude(), 500_000);
}

#[test]
fn ray_inside_sphere_reports_exit_point() {
    let sphere = Sphere::new(v(0, 0, -1_000_000), 2_000_000);
    let ray = Ray { loc: v(0, 0, 0), dir: v(0, 0, -1_000_000) };
    let hit = sphere.hit_test(ray, Interval::all_forward()).unwrap();
    assert!(!hit.front_face);
    assert_eq!(hit.distance, 3_000_000);
    assert_eq!(hit.loc, v(0, 0, -3_000_000));
    assert_eq!(hit.normal, v(0, 0, 1_000_000));
}

#[test]
fn nearest_hit_prefers_closer_object_regardless_of_order() {
    let far = Object::Sphere(Sphere::new(v(0, 0, -5_000_000), 500_000));
    let near = Object::Sphere(Sphere::new(v(0, 0, -2_000_000), 500_000));
    let scene = vec![far, near];
    let ray = Ray { loc: v(0, 0, 0), dir: v(0, 0, -1_000_000) };
    let hit = nearest_hit(&scene, ray, Interval::all_forward()).unwrap();
    assert_eq!(hit.distance, 1_500_000);
}

#[test]
fn miss_shades_to_white_at_the_bottom_of_the_gradient() {
    let scene: Vec<Object> = Vec::new();
    let mut rng = RenderRng::new(7);
    let ray = Ray { loc: v(0, 0, 0), dir: v(0, -1_000_000, 0) };
    let c = ray.trace(&mut rng, &scene, 4);
    assert_eq!(c, v(SCALE, SCALE, SCALE));
}

#[test]
fn miss_shades_to_sky_blue_at_the_top_of_the_gradient() {
    let scene: Vec<Object> = Vec::new();
    let mut rng = RenderRng::new(7);
    let ray = Ray { loc: v(0, 0, 0), dir: v(0, 1_000_000, 0) };
    let c = ray.trace(&mut rng, &scene, 4);
    assert_eq!(c, v(500_000, 700_000, 1_000_000));
}

#[test]
fn zero_bounce_budget_traces_to_black() {
    let scene = vec![Object::Sphere(Sphere::new(v(0, 0, -1_000_000), 500_000))];
    let mut rng = RenderRng::new(7);
    let ray = Ray { loc: v(0, 0, 0), dir: v(0, 0, -1_000_000) };
    assert_eq!(ray.trace(&mut rng, &scene, 0), v(0, 0, 0));
}

#[test]
fn hit_halves_the_recursive_radiance() {
    let scene = vec![Object::Sphere(Sphere::new(v(0, 0, -1_000_000), 500_000))];
    let mut rng = RenderRng::new(7);
    let ray = Ray { loc: v(0, 0, 0), dir: v(0, 0, -1_000_000) };
    let c = ray.trace(&mut rng, &scene, 3);
    assert!(0 <= c.x && c.x <= 500_000);
    assert!(0 <= c.y && c.y <= 500_000);
    assert!(0 <= c.z && c.z <= 500_000);
}

#[test]
fn hemisphere_sample_never_opposes_the_normal() {
    let mut rng = RenderRng::new(99);
    let normal = v(0, 1_000_000, 0);
    for _ in 0..50 {
        let d = Vec3::random_on_unit_hemisphere(&mut rng, normal);
        assert!(Vec3::dot(d, normal) >= 0);
    }
}

#[test]
fn uniform_draws_stay_in_the_unit_interval() {
    let mut rng = RenderRng::new(3);
    let mut varied = false;
    let first = rng.uniform_unit();
    for _ in 0..100 {
        let u = rng.uniform_unit();
        assert!(0 <= u && u < SCALE);
        if u != first {
            varied = true;
        }
    }
    assert!(varied);
}

#[test]
fn normal_draws_stay_in_range() {
    let mut rng = RenderRng::new(5);
    for _ in 0..100 {
        let g = pathtracer::vec3::get_normal_dist_random(&mut rng);
        assert!(-2_820_000 <= g && g <= 2_820_000);
    }
}

#[test]
fn camera_viewport_geometry() {
    let cam = Camera::sensible();
    assert_eq!(cam.horizontal(), v(2_000_000, 0, 0));
    assert_eq!(cam.vertical(), v(0, 1_500_000, 0));
    assert_eq!(cam.lower_left_corner(), v(-1_000_000, -750_000, -1_000_000));
}

#[test]
fn fixed_seed_renders_are_deterministic() {
    let scene = vec![
        Object::Sphere(Sphere::new(v(0, 0, -1_000_000), 500_000)),
        Object::Sphere(Sphere::new(v(0, -100_500_000, -1_000_000), 100_000_000)),
    ];
    let cam = Camera {
        loc: v(0, 0, 0),
        img_width: 20,
        img_height: 15,
        viewport_width: 2_000_000,
        viewport_height: 1_500_000,
        focal_length: 1_000_000,
        samples_per_pixel: 1,
        max_bounces: 1,
    };
    let mut rng1 = RenderRng::new(42);
    let img1 = cam.render(&mut rng1, &scene);
    let mut rng2 = RenderRng::new(42);
    let img2 = cam.render(&mut rng2, &scene);
    assert_eq!(img1.w, 20);
    assert_eq!(img1.h, 15);
    assert_eq!(img1.data.len(), 300);
    assert_eq!(img1.data, img2.data);
}

#[test]
fn accumulated_red_pixel_encodes_to_pure_red() {
    let img = Image {
        w: 1,
        h: 1,
        data: vec![v(4_000_000, 0, 0)],
        samples_per_pixel_correction: 4,
    };
    assert_eq!(img.to_rgb8(), vec![255u8, 0, 0]);
}

#[test]
fn encoding_clamps_out_of_range_channels() {
    assert_eq!(encode_channel(3_000_000, 1), 255);
    assert_eq!(encode_channel(-5, 1), 0);
    assert_eq!(encode_channel(500_000, 1), 127);
    assert_eq!(encode_channel(1_000_000, 2), 127);
}

#[test]
fn blank_image_is_black() {
    let img = Image::blank(4, 3, 10);
    assert_eq!(img.w, 4);
    assert_eq!(img.h, 3);
    assert_eq!(img.samples_per_pixel_correction, 10);
    assert_eq!(img.data.len(), 12);
    for px in &img.data {
        assert_eq!(*px, v(0, 0, 0));
    }
}

#[test]
fn render_row_has_one_pixel_per_column() {
    let scene = vec![Object::Sphere(Sphere::new(v(0, 0, -1_000_000), 500_000))];
    let cam = Camera {
        loc: v(0, 0, 0),
        img_width: 8,
        img_height: 6,
        viewport_width: 2_000_000,
        viewport_height: 1_500_000,
        focal_length: 1_000_000,
        samples_per_pixel: 2,
        max_bounces: 2,
    };
    let mut rng = RenderRng::new(11);
    let row = cam.render_row(&mut rng, &scene, 0);
    assert_eq!(row.len(), 8);
    for px in &row {
        assert!(0 <= px.x && px.x <= 2 * SCALE);
        assert!(0 <= px.y && px.y <= 2 * SCALE);
        assert!(0 <= px.z && px.z <= 2 * SCALE);
    }
}

#[test]
fn empty_scene_accumulates_full_sky_blue() {
    let scene: Vec<Object> = Vec::new();
    let cam = Camera {
        loc: v(0, 0, 0),
        img_width: 4,
        img_height: 3,
        viewport_width: 2_000_000,
        viewport_height: 1_500_000,
        focal_length: 1_000_000,
        samples_per_pixel: 3,
        max_bounces: 2,
    };
    let mut rng = RenderRng::new(13);
    let img = cam.render(&mut rng, &scene);
    assert_eq!(img.data.len(), 12);
    for px in &img.data {
        assert_eq!(px.z, 3_000_000);
        assert!(0 <= px.x && px.x <= 3_000_000);
        assert!(0 <= px.y && px.y <= 3_000_000);
    }
}

#[test]
fn zero_bounce_render_is_black() {
    let scene = vec![Object::Sphere(Sphere::new(v(0, 0, -1_000_000), 500_000))];
    let cam = Camera {
        loc: v(0, 0, 0),
        img_width: 4,
        img_height: 3,
        viewport_width: 2_000_000,
        viewport_height: 1_500_000,
        focal_length: 1_000_000,
        samples_per_pixel: 2,
        max_bounces: 0,
    };
    let mut rng = RenderRng::new(13);
    let img = cam.render(&mut rng, &scene);
    assert_eq!(img.data.len(), 12);
    for px in &img.data {
        assert_eq!(*px, v(0, 0, 0));
    }
}

#[test]
fn sample_ray_matches_viewport_geometry() {
    let cam = Camera::sensible();
    let bottom_left = cam.sample_ray(0, 480, 0, 0);
    assert_eq!(bottom_left.loc, v(0, 0, 0));
    assert_eq!(bottom_left.dir, v(-1_000_000, 753_130, -1_000_000));
    let bottom_right = cam.sample_ray(639, 480, 0, 0);
    assert_eq!(bottom_right.dir.x, 1_000_000);
    assert_eq!(bottom_right.dir.z, -1_000_000);
}
