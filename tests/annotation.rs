use bigsryai::annotation::{calculate_centered_position, calculate_specs_start_y};

#[test]
fn specs_block_is_centred_in_remaining_room() {
    // room: 800 - 100 - 160 - 40 = 500; content 4 * 40 = 160; padding (500 - 160) / 2 = 170.
    assert_eq!(calculate_specs_start_y(100, 160, 800, 40, 4, 40), 100 + 160 + 40 + 170);
}

#[test]
fn specs_block_without_room_gets_no_padding() {
    assert_eq!(calculate_specs_start_y(500, 200, 600, 10, 3, 50), 710);
    assert_eq!(calculate_specs_start_y(0, 0, 100, 0, 10, 20), 0);
}

#[test]
fn centred_text_position() {
    assert_eq!(calculate_centered_position(10, 20, 400, 100, ), (160, 40));
    // Text wider than the box starts at the box's left edge.
    assert_eq!(calculate_centered_position(10, 20, 50, 100), (10, 22));
}
