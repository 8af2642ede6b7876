use rise_above::fixed::Fixed;
use rise_above::marker::{
    encode_point, CharacterSaveFormat, InstanceDataNotEncoded, MarkerInstanceData,
    MarkerInstanceMatData, Vec3, Vec4, ATTR_SIZE,
};
use rise_above::vec2::Vec2;

fn fx(v: f64) -> Fixed {
    Fixed::new((v * 1_000_000.0).round() as i64)
}

fn v2(x: f64, y: f64) -> Vec2 {
    Vec2::new(fx(x), fx(y))
}

fn num(v: Fixed) -> f64 {
    v.raw as f64 / 1_000_000.0
}

fn blank() -> MarkerInstanceData {
    MarkerInstanceData::new(vec![])
}

#[test]
pub fn encode_and_decode() {
    let d = InstanceDataNotEncoded::default();

    let mut m = MarkerInstanceData {
        group_position: [0, 1, 2],
        scale: 1,
        color: [0, 1, 2, 3],
        data: [[0, 1]; ATTR_SIZE * 2],
    };

    m.set_all_data(vec![d]);

    assert!(num(m.get_max_size(0)) - 3.0 < 0.0001);
    assert!(num(m.get_frequency(0)) - 4.0 < 0.0001);
    assert!(num(m.get_noise(0)) - 5.0 < 0.0001);
    assert!(num(m.get_min_size(0)) - 6.0 < 0.0001);
    assert!(num(m.get_morph(0)) - 7.0 < 0.0001);
    assert!(num(m.get_core_size(0)) - 1.0 < 0.0001);
}

#[test]
fn the_default_point_packed_and_unpacked() {
    let mut m = MarkerInstanceData {
        group_position: [0, 1, 2],
        scale: 1,
        color: [0, 1, 2, 3],
        data: [[0, 1]; 26],
    };
    m.set_all_data(vec![InstanceDataNotEncoded::default()]);
    // x far off fills its field; sizes in steps of 1/128, the rest of 1/8
    assert_eq!(m.data[0], [0xffff_6640, 0xffff_5945]);
    assert_eq!(m.data[1], [0, 1]);
    assert_eq!(m.get_max_size(0).raw, 796_875);
    assert_eq!(m.get_frequency(0).raw, 500_000);
    assert_eq!(m.get_noise(0).raw, 0);
    assert_eq!(m.get_min_size(0).raw, 695_312);
    assert_eq!(m.get_morph(0).raw, 500_000);
    assert_eq!(m.get_core_size(0).raw, 625_000);
    assert_eq!(m.get_pos(0), Vec2::new(Fixed::new(1_499_969), Fixed::new(1_499_969)));
    assert!(!m.get_all(0).is_joint);
    assert_eq!(m.group_position, [0, 1, 2]);
    assert_eq!(m.scale, 1);
    assert_eq!(m.color, [0, 1, 2, 3]);
}

#[test]
fn a_point_in_range_comes_back_rounded_to_its_steps() {
    let point = InstanceDataNotEncoded {
        pos: v2(0.25, -0.125),
        max_size: fx(0.5),
        frequency: fx(0.25),
        noise: fx(0.375),
        min_size: fx(0.75),
        morph: fx(0.125),
        core_size: fx(0.875),
        is_joint: false,
    };
    assert_eq!(encode_point(&point), [0x6000_4023, 0x3000_6017]);
    let mut m = blank();
    m.set_data(3, point);
    assert_eq!(m.get_all(3), point);
    assert_eq!(m.get_all(2).max_size, fx(0.0));
    // a joint is told by the largest noise, whatever noise it was given
    let joint = InstanceDataNotEncoded::new_joint_at_pos(v2(0.0, 0.5));
    assert_eq!(joint.noise, fx(1.0));
    assert!(joint.is_joint);
    m.set_data(4, InstanceDataNotEncoded { noise: fx(0.1), ..joint });
    let back = m.get_all(4);
    assert!(back.is_joint);
    assert_eq!(back.noise, fx(1.0));
    assert_eq!(back.pos, v2(0.0, 0.5));
    assert_eq!(back.max_size.raw, 398_437);
    assert_eq!(back.core_size, fx(0.0));
}

#[test]
fn single_fields_are_written_and_read() {
    let mut m = blank();
    assert_eq!(m.group_position, [0, 0, 0]);
    assert_eq!(m.scale, u32::MAX);
    assert_eq!(m.color, [0x7fff_ffff; 4]);
    assert_eq!(m.data, [[0, 0]; 26]);
    m.set_pos(v2(0.25, 0.0), 5);
    m.set_max_size(fx(0.5), 5);
    m.set_frequency(fx(0.5), 5);
    m.set_noise(fx(0.25), 5);
    m.set_min_size(fx(0.25), 5);
    m.set_morph(fx(0.75), 5);
    m.set_core_size(fx(0.5), 5);
    assert_eq!(m.data[5], [0x6000_4042, 0x4000_2064]);
    assert_eq!(m.get_pos(5), v2(0.25, 0.0));
    assert_eq!(m.get_max_size(5), fx(0.5));
    assert_eq!(m.get_frequency(5), fx(0.5));
    assert_eq!(m.get_noise(5), fx(0.25));
    assert_eq!(m.get_min_size(5), fx(0.25));
    assert_eq!(m.get_morph(5), fx(0.75));
    assert_eq!(m.get_core_size(5), fx(0.5));
    // the flag of a joint goes to the lowest field of the second word
    m.set_is_joint(true, 5);
    assert_eq!(m.data[5], [0x6000_4042, 0x4000_2068]);
    m.set_is_joint(false, 5);
    assert_eq!(m.data[5], [0x6000_4042, 0x4000_2060]);
    // taken out: far off
    m.delete(5);
    assert_eq!(m.data[5], [0xffff_4042, 0xffff_2060]);
    assert_eq!(m.data[4], [0, 0]);
}

#[test]
fn place_scale_and_colour() {
    let mut m = blank();
    m.set_scale(fx(0.5));
    assert_eq!(m.scale, 1 << 30);
    assert_eq!(m.get_scale(), fx(0.5));
    m.set_group_position(Vec3 { x: fx(0.75), y: fx(0.5), z: fx(1.0) });
    assert_eq!(m.group_position, [0x6000_0000, 0x4000_0000, 0x8000_0000]);
    // read back less a half
    assert_eq!(m.get_group_position(), Vec3 { x: fx(0.25), y: fx(0.0), z: fx(0.5) });
    m.set_color(Vec4 { x: fx(0.0), y: fx(0.25), z: fx(0.5), w: fx(1.0) });
    assert_eq!(m.color, [0, 0x2000_0000, 0x4000_0000, 0x8000_0000]);
    assert_eq!(m.get_color(), Vec4 { x: fx(0.0), y: fx(0.25), z: fx(0.5), w: fx(1.0) });
}

#[test]
fn a_character_kept_and_packed_again() {
    let points = vec![
        InstanceDataNotEncoded::new_joint_at_pos(v2(0.25, 0.25)),
        InstanceDataNotEncoded {
            pos: v2(-0.5, 0.5),
            max_size: fx(0.5),
            frequency: fx(0.5),
            noise: fx(0.5),
            min_size: fx(0.5),
            morph: fx(0.5),
            core_size: fx(0.5),
            is_joint: false,
        },
    ];
    let kept = CharacterSaveFormat {
        group_position: [1, 2, 3],
        scale: 4,
        color: [5, 6, 7, 8],
        data: points.clone(),
    };
    assert_eq!(kept.take_pos(), vec![v2(0.25, 0.25), v2(-0.5, 0.5)]);
    let batch = kept.into_instances();
    assert_eq!(batch.0.len(), 1);
    assert_eq!(batch.0[0].group_position, [1, 2, 3]);
    assert_eq!(batch.0[0].scale, 4);
    assert_eq!(batch.0[0].color, [5, 6, 7, 8]);
    assert_eq!(batch.0[0].data[2], [0, 0]);
    let again = batch.into_save_format();
    assert_eq!(again.group_position, [1, 2, 3]);
    assert_eq!(again.data.len(), 26);
    assert_eq!(again.data[1], points[1]);
    assert_eq!(again.data[0].pos, v2(0.25, 0.25));
    assert!(again.data[0].is_joint);
    // an empty place reads as a point at minus a half
    assert_eq!(again.data[2].pos, v2(-0.5, -0.5));
}

#[test]
fn the_character_under_the_cursor() {
    let mut first = blank();
    first.set_pos(v2(0.25, 0.25), 0);
    let mut second = blank();
    second.set_pos(v2(-0.25, 0.0), 1);
    let batch = MarkerInstanceMatData(vec![first, second]);
    // a square of side 0.1 around the handle: the rim is outside
    assert_eq!(batch.within_rect(v2(0.26, 0.24), fx(0.1)), Some(0));
    assert_eq!(batch.within_rect(v2(0.3, 0.25), fx(0.1)), None);
    assert_eq!(batch.within_rect(v2(-0.25, 0.049999), fx(0.1)), Some(1));
    assert_eq!(batch.within_rect(v2(0.0, 0.0), fx(0.1)), None);
    assert!(batch.within_rect_delta(v2(0.25, 0.25), fx(0.1)));
    assert!(!batch.within_rect_delta(v2(0.0, 0.0), fx(0.1)));
    assert!(!MarkerInstanceMatData(vec![]).within_rect_delta(v2(0.0, 0.0), fx(0.1)));
}
