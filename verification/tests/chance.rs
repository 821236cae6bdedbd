use mainline_core::chance::draw_chance;

fn with_floats(slots: usize, items: usize) -> u32 {
    let scale = 2.0 * (1u32 << 31) as f32;
    ((slots as f32 / items as f32) * scale) as u32
}

#[test]
fn chance_is_the_share_of_slots() {
    assert_eq!(draw_chance(1, 2), 0x8000_0000);
    assert_eq!(draw_chance(10, 40), 0x4000_0000);
    assert_eq!(draw_chance(1, 3), 1_431_655_808);
    assert_eq!(draw_chance(0, 7), 0);
    assert_eq!(draw_chance(7, 7), u32::MAX);
    assert_eq!(draw_chance(10, 3), u32::MAX);
}

#[test]
fn chance_agrees_with_single_precision() {
    for slots in 0..=10 {
        for items in 1..3000 {
            assert_eq!(draw_chance(slots, items), with_floats(slots, items));
        }
    }
}

#[test]
fn chance_agrees_with_single_precision_for_many_items() {
    let mut items: Vec<usize> = vec![usize::MAX, usize::MAX - 1, usize::MAX / 3];
    for digits in 20..48 {
        for offset in 0..9 {
            items.push((1usize << digits) + offset - 4);
            items.push((3usize << digits) + offset);
            items.push((1usize << digits) + (1usize << (digits - 20)) + offset);
        }
    }
    for items in items {
        for slots in vec![0, 1, 2, 3, 7, 9, 10, 0xff_ffff] {
            assert_eq!(draw_chance(slots, items), with_floats(slots, items));
        }
    }
}
