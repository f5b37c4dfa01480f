use scawy::graphics::{power_of_two, Color, Texture};
use scawy::shading::{
    darken_color, shade_divisor, LightState, FLOOR_SHADE_DEN, FLOOR_SHADE_NUM, ONE,
    SPRITE_SHADE_DEN, SPRITE_SHADE_NUM, WALL_SHADE_DEN, WALL_SHADE_NUM,
};

const L: u64 = ONE as u64;

#[test]
fn divisor_values() {
    assert_eq!(shade_divisor(0, L, WALL_SHADE_NUM, WALL_SHADE_DEN), 1);
    assert_eq!(shade_divisor(10 * L, L, WALL_SHADE_NUM, WALL_SHADE_DEN), 35);
    assert_eq!(shade_divisor(10 * L, L, FLOOR_SHADE_NUM, FLOOR_SHADE_DEN), 70);
    assert_eq!(shade_divisor(4 * L, L, SPRITE_SHADE_NUM, SPRITE_SHADE_DEN), 7);
    assert_eq!(shade_divisor(10 * L, 7 * L, WALL_SHADE_NUM, WALL_SHADE_DEN), 5);
    assert_eq!(shade_divisor(1000 * L, L, WALL_SHADE_NUM, WALL_SHADE_DEN), 255);
}

#[test]
fn divisor_never_below_one_and_grows_with_distance() {
    for light in [0u64, 1, 100, L, 7 * L, u64::MAX] {
        let mut last = 1u8;
        for d in (0..200u64).map(|k| k * L / 4) {
            let v = shade_divisor(d, light, WALL_SHADE_NUM, WALL_SHADE_DEN);
            assert!(v >= 1);
            assert!(v >= last);
            last = v;
        }
    }
    assert_eq!(shade_divisor(L, 0, WALL_SHADE_NUM, WALL_SHADE_DEN), 255);
}

#[test]
fn channels_are_only_darkened() {
    let c = Color::from_rgba(200, 101, 7, 9);
    assert_eq!(darken_color(c, true, 2), Color::from_rgba(50, 25, 1, 9));
    assert_eq!(darken_color(c, false, 1), c);
}

#[test]
fn flash_relaxes_to_baseline() {
    let mut light = LightState::new();
    assert_eq!(light, LightState { intensity: L, remaining_ticks: 0 });
    light.tick();
    assert_eq!(light.intensity, L);
    light.flash(7 * L, 72);
    let mut last = light.intensity;
    for _ in 0..72 {
        light.tick();
        assert!(light.intensity <= last && light.intensity >= L);
        last = light.intensity;
    }
    assert_eq!(light, LightState { intensity: L, remaining_ticks: 0 });
}

#[test]
fn dim_flash_relaxes_upwards() {
    let mut light = LightState::new();
    light.flash(L / 4, 3);
    light.tick();
    assert_eq!(light.intensity, L / 4 + (L - L / 4) / 3);
    light.tick();
    light.tick();
    assert_eq!(light.intensity, L);
    assert_eq!(light.remaining_ticks, 0);
}

#[test]
fn colour_blending() {
    let mut c = Color::from_rgb(0, 100, 255);
    assert_eq!(c.a, 255);
    c.blend(Color::from_rgba(255, 255, 255, 0));
    assert_eq!(c, Color::from_rgb(0, 100, 255));
    c.blend(Color::from_rgba(255, 0, 0, 128));
    assert_eq!(c, Color::from_rgba(128, 49, 127, 255));
    c.blend(Color::from_rgba(1, 2, 3, 255));
    assert_eq!(c.slice(), [1, 2, 3, 255]);
    assert_eq!(Color::default(), Color::from_rgba(255, 255, 255, 255));
    assert_eq!(Color::from_bytes(&[9, 8, 7, 6, 5]), Color::from_rgba(9, 8, 7, 6));
}

#[test]
fn textures_need_power_of_two_sides() {
    assert!(power_of_two(1) && power_of_two(64) && !power_of_two(0) && !power_of_two(12));
    assert!(Texture::new(3, 2, vec![0; 24]).is_none());
    assert!(Texture::new(2, 2, vec![0; 15]).is_none());
    let t = Texture::new(2, 1, vec![1, 2, 3, 4, 5, 6, 7, 8]).unwrap();
    assert_eq!(t.width(), 2);
    assert_eq!(t.height(), 1);
    assert_eq!(t.pixel(4), Color::from_rgba(5, 6, 7, 8));
    assert_eq!(t.texel_at(1, 0), Color::from_rgba(5, 6, 7, 8));
}
