use game_information_counter::msg::{
    address, header, layers, lookup, string_index, text_anywhere, text_layered, utf16, Group,
    ABSOLUTE, MAX_CHARS, NPC_NAME, PLACE_NAME,
};

fn buffer() -> Vec<u8> {
    let mut b = vec![0u8; 0x80];
    b[0x0C..0x10].copy_from_slice(&1u32.to_le_bytes());
    b[0x10..0x14].copy_from_slice(&2u32.to_le_bytes());
    b[0x18..0x20].copy_from_slice(&0x40u64.to_le_bytes());
    b[0x28..0x2C].copy_from_slice(&0i32.to_le_bytes());
    b[0x2C..0x30].copy_from_slice(&100i32.to_le_bytes());
    b[0x30..0x34].copy_from_slice(&101i32.to_le_bytes());
    b[0x40..0x48].copy_from_slice(&0x50u64.to_le_bytes());
    b[0x48..0x50].copy_from_slice(&0x60u64.to_le_bytes());
    for (i, c) in "Маления".encode_utf16().enumerate() {
        b[0x50 + i * 2..0x52 + i * 2].copy_from_slice(&c.to_le_bytes());
    }
    for (i, c) in "Godrick".encode_utf16().enumerate() {
        b[0x60 + i * 2..0x62 + i * 2].copy_from_slice(&c.to_le_bytes());
    }
    b
}

#[test]
fn walks_groups_and_offsets() {
    let b = buffer();
    assert_eq!(lookup(&b, 0x7FF0_0000_0000, 100).as_deref(), Some("Маления"));
    assert_eq!(lookup(&b, 0x7FF0_0000_0000, 101).as_deref(), Some("Godrick"));
    assert_eq!(lookup(&b, 0x7FF0_0000_0000, 99), None, "an id out of the group");
    assert_eq!(lookup(&b, 0x7FF0_0000_0000, 102), None);
    assert_eq!(lookup(&b, 0x7FF0_0000_0000, 0), None);
}

#[test]
fn implausible_header_is_not_walked() {
    let mut b = buffer();
    b[0x0C..0x10].copy_from_slice(&0xFFFF_FFFFu32.to_le_bytes());
    assert_eq!(lookup(&b, 0x7FF0_0000_0000, 100), None);

    let mut b = buffer();
    b[0x18..0x20].copy_from_slice(&0u64.to_le_bytes());
    assert_eq!(lookup(&b, 0x7FF0_0000_0000, 100), None);
}

#[test]
fn a_relocated_buffer_holds_addresses() {
    let base = 0x7FF0_0000_0000u64;
    let mut b = buffer();
    b[0x18..0x20].copy_from_slice(&(base + 0x40).to_le_bytes());
    b[0x40..0x48].copy_from_slice(&(base + 0x50).to_le_bytes());
    assert_eq!(lookup(&b, base, 100).as_deref(), Some("Маления"));
    assert_eq!(address(base, base + 5), Some(base + 5));
    assert_eq!(address(base, 5), Some(base + 5));
    assert_eq!(address(base, ABSOLUTE + 1), Some(ABSOLUTE + 1));
}

#[test]
fn groups_give_the_number_of_a_string() {
    let groups = vec![
        Group { string_index: 0, first_id: 10, last_id: 12 },
        Group { string_index: 3, first_id: 20, last_id: 20 },
    ];
    assert_eq!(string_index(&groups, 4, 12), Some(2));
    assert_eq!(string_index(&groups, 4, 20), Some(3));
    assert_eq!(string_index(&groups, 3, 20), None);
    assert_eq!(string_index(&groups, 4, 13), None);
    assert!(header(1, 2, 0x40));
    assert!(!header(1, 2, 0));
}

#[test]
fn a_text_ends_with_its_zero() {
    let mut units: Vec<u16> = "Годрик".encode_utf16().collect();
    units.push(0);
    units.push(65);
    assert_eq!(utf16(&units).as_deref(), Some("Годрик"));
    assert_eq!(utf16(&vec![0]), None);
    assert_eq!(utf16(&vec![65; MAX_CHARS + 9]).map(|t| t.len()), Some(MAX_CHARS));
}

#[test]
fn additions_fill_what_the_base_lacks() {
    let some = |t: &str| Some(t.to_string());
    assert_eq!(text_layered(some("base"), None, None).as_deref(), Some("base"));
    assert_eq!(text_layered(None, None, None), None);
    assert_eq!(text_layered(some("base"), some("one"), some("two")).as_deref(), Some("base"));
    assert_eq!(text_layered(None, some("one"), some("two")).as_deref(), Some("one"));
    assert_eq!(text_layered(None, None, some("two")).as_deref(), Some("two"));
    assert_eq!(text_anywhere(5, &vec![None, some("x"), some("y")]).as_deref(), Some("x"));
    assert_eq!(text_anywhere(0, &vec![some("x")]), None);
    assert_eq!(layers(NPC_NAME), [18, 328, 428]);
    assert_eq!(layers(PLACE_NAME), [19, 329, 429]);
}
