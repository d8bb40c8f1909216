use rom_res_rs::{
    classify_section, decode_section, decode_sections, is_record_name, read_i16_le, read_i32_le,
    read_i8, read_text, read_u16_le, read_u32_le, read_u64_le, read_worn_slot, skip_zero_padding,
    Codepage, HumanInfo, Record, RomResourceError, Section, SectionKind, UnitInfo, WornSlot, HUMAN_COUNT, HUMAN_HEADER_SIZE,
    ITEM_HEADER_SIZE, MAGIC_ITEM_HEADER_SIZE, PARAMETER_HEADER_SIZE, SHAPE_HEADER_SIZE,
    SPELL_HEADER_SIZE, STRUCTURE_HEADER_SIZE, UNIT_COUNT, UNIT_HEADER_SIZE,
};

fn codepage() -> Codepage {
    let table: Vec<char> = (0u32..256)
        .map(|b| if b < 128 { char::from_u32(b).unwrap() } else { char::from_u32(0x0410 + b - 128).unwrap() })
        .collect();
    Codepage::new(table).unwrap()
}

fn text(s: &str) -> Vec<u8> {
    let mut v = vec![s.len() as u8];
    v.extend_from_slice(s.as_bytes());
    v
}

fn header(tag: &[u8], size: usize) -> Vec<u8> {
    let mut h = vec![0x11u8; size];
    h[3..3 + tag.len()].copy_from_slice(tag);
    h
}

fn item_record(name: &str, first: i32) -> Vec<u8> {
    let mut v = text(name);
    v.extend_from_slice(&7u16.to_le_bytes());
    for k in 0..20 {
        v.extend_from_slice(&(first + k).to_le_bytes());
    }
    v
}

fn item_section(counts: [u32; 3]) -> Vec<u8> {
    let mut v = header(b"Item", ITEM_HEADER_SIZE);
    let mut n = 0;
    for c in counts {
        v.extend_from_slice(&c.to_le_bytes());
        for _ in 1..c {
            v.extend_from_slice(&item_record(&format!("item{}", n), n * 100));
            n += 1;
        }
    }
    v
}

fn human_record(name: &str) -> Vec<u8> {
    let mut v = vec![0u8, 0];
    v.extend_from_slice(&text(name));
    v.extend_from_slice(&[0, 3, 3]);
    for k in 0..26 {
        v.extend_from_slice(&(k as i32).to_le_bytes());
    }
    v.extend_from_slice(&text("Sword"));
    v.extend_from_slice(&[0, 0, 0]);
    v
}

fn unit_record(name: &str) -> Vec<u8> {
    let mut v = text(name);
    v.extend_from_slice(&[4, 4]);
    for k in 0..55 {
        v.extend_from_slice(&(-(k as i32)).to_le_bytes());
    }
    v.extend_from_slice(&text("beast"));
    v
}

#[test]
fn little_endian_readers() {
    let d = [0x01u8, 0x02, 0x03, 0x84, 0xFF, 0xFF, 0xFF, 0xFF, 0x80];
    assert_eq!(read_u16_le(&d, 0), Some(0x0201));
    assert_eq!(read_u32_le(&d, 0), Some(0x8403_0201));
    assert_eq!(read_i32_le(&d, 4), Some(-1));
    assert_eq!(read_i32_le(&d, 0), Some(0x8403_0201u32 as i32));
    assert_eq!(read_i16_le(&d, 2), Some(-31741));
    assert_eq!(read_i8(&d, 8), Some(-128));
    assert_eq!(read_u64_le(&d, 0), Some(0xFFFF_FFFF_8403_0201));
    assert_eq!(read_u32_le(&d, 6), None);
    assert_eq!(read_u64_le(&d, 2), None);
    assert_eq!(read_i8(&d, 9), None);
}

#[test]
fn padding_skip_stops_at_nonzero_or_end() {
    let d = [0u8, 0, 5, 0, 0];
    assert_eq!(skip_zero_padding(&d, 0), 2);
    assert_eq!(skip_zero_padding(&d, 2), 2);
    assert_eq!(skip_zero_padding(&d, 3), 5);
    assert_eq!(skip_zero_padding(&d, 5), 5);
    assert_eq!(skip_zero_padding(&[], 0), 0);
}

#[test]
fn length_prefixed_text() {
    let cp = codepage();
    let d = [3u8, b'a', 0x80, b'c', 9];
    assert_eq!(read_text(&cp, &d, 0), Some(("a\u{410}c".to_string(), 4)));
    assert_eq!(read_text(&cp, &d, 4), None);
    assert_eq!(read_text(&cp, &[0u8], 0), Some((String::new(), 1)));
}

#[test]
fn classifies_every_known_tag() {
    let cases: [(&[u8], SectionKind); 9] = [
        (b"Shape", SectionKind::Shapes),
        (b"Param", SectionKind::Parameter),
        (b"Items", SectionKind::Item),
        (b"Magic", SectionKind::MagicItem),
        (b"Units", SectionKind::Unit),
        (b"Human", SectionKind::Human),
        (b"Build", SectionKind::Structure),
        (b"Spell", SectionKind::Spell),
        (b"Other", SectionKind::Unknown),
    ];
    for (tag, kind) in cases {
        assert_eq!(classify_section(&header(tag, 20), 0), kind);
    }
    assert_eq!(classify_section(&header(b"Item?", 20), 0), SectionKind::Item);
    assert_eq!(classify_section(&header(b"Humax", 20), 0), SectionKind::Unknown);
}

#[test]
fn item_section_drops_one_from_each_count() {
    let cp = codepage();
    let data = item_section([6, 1, 3]);
    let (section, end) = decode_section(&cp, &data, 0, SectionKind::Item).unwrap();
    assert_eq!(end, data.len());
    match section {
        Section::Item { wieldables, shields, weapons } => {
            assert_eq!(wieldables.len(), 5);
            assert_eq!(shields.len(), 0);
            assert_eq!(weapons.len(), 2);
            assert_eq!(wieldables[0].name, "item0");
            assert_eq!(wieldables[0].nop, 7);
            assert_eq!(wieldables[0].details.shape, 0);
            assert_eq!(wieldables[0].details.mysterious_field2, 19);
            assert_eq!(wieldables[4].details.material, 401);
            assert_eq!(weapons[1].name, "item6");
        },
        _ => panic!("not an item section"),
    }
}

#[test]
fn zero_count_that_needs_a_decrement_is_refused() {
    let cp = codepage();
    let data = item_section([0, 1, 1]);
    assert_eq!(decode_section(&cp, &data, 0, SectionKind::Item).err(), Some(RomResourceError::InvalidEntryCount));
}

#[test]
fn truncated_section_is_a_short_read() {
    let cp = codepage();
    let mut data = item_section([3, 1, 1]);
    data.truncate(data.len() - 20);
    assert_eq!(decode_section(&cp, &data, 0, SectionKind::Item).err(), Some(RomResourceError::UnableToRead));
    let short = header(b"Spell", 30);
    assert_eq!(decode_section(&cp, &short, 0, SectionKind::Spell).err(), Some(RomResourceError::UnableToRead));
}

#[test]
fn empty_slot_byte_is_skipped_without_reading() {
    let cp = codepage();
    let data = [200u8, 5, b'S', b'w', b'o', b'r', b'd'];
    assert_eq!(read_worn_slot(&cp, &data, 0), Ok(WornSlot::Empty { next: 1 }));
    assert_eq!(read_worn_slot(&cp, &[0u8, 1], 0), Ok(WornSlot::Empty { next: 1 }));
    assert_eq!(read_worn_slot(&cp, &[128u8], 0), Ok(WornSlot::Empty { next: 1 }));
}

#[test]
fn next_record_name_rewinds_to_its_length_byte() {
    let cp = codepage();
    let mut data = vec![0xAAu8, 0xAA];
    data.extend_from_slice(&text("NPC12_Guard"));
    data.extend_from_slice(&[0, 0, 0]);
    let slot = read_worn_slot(&cp, &data, 2).unwrap();
    // the string ends at 14; the cursor goes back 11 + 1 bytes to its length byte
    assert_eq!(slot, WornSlot::NextRecord { at: 2 });
}

#[test]
fn worn_item_and_trailing_zeros() {
    let cp = codepage();
    let mut data = text("Sword");
    data.extend_from_slice(&[0, 0, 9]);
    assert_eq!(
        read_worn_slot(&cp, &data, 0),
        Ok(WornSlot::Item { name: "Sword".to_string(), next: 8, more: true })
    );
    let mut data = text("Sword");
    data.extend_from_slice(&[0, 0, 0, 9]);
    assert_eq!(
        read_worn_slot(&cp, &data, 0),
        Ok(WornSlot::Item { name: "Sword".to_string(), next: 9, more: false })
    );
    let mut data = text("Sword");
    data.extend_from_slice(&[3]);
    assert_eq!(
        read_worn_slot(&cp, &data, 0),
        Ok(WornSlot::Item { name: "Sword".to_string(), next: 6, more: true })
    );
    let mut data = text("Sword");
    data.extend_from_slice(&[0]);
    assert_eq!(read_worn_slot(&cp, &data, 0), Err(RomResourceError::UnableToRead));
    assert_eq!(read_worn_slot(&cp, &[4u8, b'a'], 0), Err(RomResourceError::UnableToRead));
    assert_eq!(read_worn_slot(&cp, &[], 0), Err(RomResourceError::UnableToRead));
}

#[test]
fn record_name_pattern() {
    for yes in ["PC_x", "NPC_", "NPC1_", "NPC123_Guard", "a_", "x_y", "M7_", "M_x", "M123_a", "Man_", "Many things_1", "__"] {
        assert!(is_record_name(yes), "{}", yes);
    }
    for no in ["", "P", "PC", "NPC1234_", "NPCx_", "\n_", "M1234_", "Man\n_", "Mandolin", "Sword", "ab_"] {
        assert!(!is_record_name(no), "{:?}", no);
    }
    assert!(is_record_name("NPC12_Guard"));
}

fn full_data() -> Vec<u8> {
    let mut d = Vec::new();
    // shapes: one rarity, no materials
    d.extend_from_slice(&header(b"Shape", SHAPE_HEADER_SIZE));
    d.extend_from_slice(&1u32.to_le_bytes());
    d.extend_from_slice(&text("common"));
    d.extend_from_slice(&[0u8; 16]);
    for k in 0..7u64 {
        d.extend_from_slice(&(k as f64 * 0.5).to_bits().to_le_bytes());
    }
    d.extend_from_slice(&0u32.to_le_bytes());
    // parameters: none
    d.extend_from_slice(&header(b"Param", PARAMETER_HEADER_SIZE));
    d.extend_from_slice(&0u32.to_le_bytes());
    d.extend_from_slice(&item_section([2, 1, 1]));
    // magic items: one
    d.extend_from_slice(&header(b"Magic", MAGIC_ITEM_HEADER_SIZE));
    d.extend_from_slice(&2u32.to_le_bytes());
    d.extend_from_slice(&text("ring"));
    d.extend_from_slice(&1u16.to_le_bytes());
    d.extend_from_slice(&500i32.to_le_bytes());
    d.extend_from_slice(&(-3i32).to_le_bytes());
    d.push(9);
    d.extend_from_slice(&text("shiny"));
    // spells: one
    d.extend_from_slice(&header(b"Spell", SPELL_HEADER_SIZE));
    d.extend_from_slice(&2u32.to_le_bytes());
    d.extend_from_slice(&text("fire"));
    d.extend_from_slice(&0u16.to_le_bytes());
    for k in 0..22 {
        d.extend_from_slice(&(k as i32).to_le_bytes());
    }
    d.extend_from_slice(&text("burns"));
    // structures: one
    d.extend_from_slice(&header(b"Build", STRUCTURE_HEADER_SIZE));
    d.extend_from_slice(&2u32.to_le_bytes());
    d.extend_from_slice(&text("hut"));
    d.extend_from_slice(&0u16.to_le_bytes());
    d.extend_from_slice(&3i32.to_le_bytes());
    d.extend_from_slice(&4i32.to_le_bytes());
    d.extend_from_slice(&5i32.to_le_bytes());
    d.extend_from_slice(&(-2i16).to_le_bytes());
    d.push(0xFF);
    d.push(1);
    d.extend_from_slice(&77i32.to_le_bytes());
    d.extend_from_slice(&8i16.to_le_bytes());
    d.extend_from_slice(&0i16.to_le_bytes());
    // units
    d.extend_from_slice(&header(b"Unit", UNIT_HEADER_SIZE));
    d.extend_from_slice(&[9, 9, 9, 9]);
    for k in 0..UNIT_COUNT {
        d.extend_from_slice(&unit_record(&format!("u{}", k)));
    }
    d.extend_from_slice(&[0, 0, 0]);
    // humans
    d.extend_from_slice(&header(b"Human", HUMAN_HEADER_SIZE));
    d.extend_from_slice(&[9, 9, 9, 9]);
    for k in 0..HUMAN_COUNT {
        d.extend_from_slice(&human_record(&format!("h{}", k)));
    }
    d.extend_from_slice(&[0, 0]);
    d
}

#[test]
fn decodes_all_eight_sections() {
    let cp = codepage();
    let data = full_data();
    let sections = decode_sections(&cp, &data).unwrap();
    assert_eq!(sections.len(), 8);
    match &sections[0] {
        Section::Shapes { rarities, materials } => {
            assert_eq!(rarities.len(), 1);
            assert_eq!(materials.len(), 0);
            assert_eq!(rarities[0].name, "common");
            assert_eq!(f64::from_bits(rarities[0].details.mag_cap_level), 3.0);
        },
        _ => panic!("expected shapes first"),
    }
    assert!(matches!(&sections[1], Section::Parameter(v) if v.is_empty()));
    assert!(matches!(&sections[2], Section::Item { wieldables, .. } if wieldables.len() == 1));
    match &sections[3] {
        Section::MagicItem(v) => {
            assert_eq!(v.len(), 1);
            assert_eq!(v[0].details.price, 500);
            assert_eq!(v[0].details.weight, -3);
            assert_eq!(v[0].nop1, 9);
            assert_eq!(v[0].textual_info, "shiny");
        },
        _ => panic!("expected magic items"),
    }
    match &sections[4] {
        Section::Spell(v) => {
            assert_eq!(v[0].details.book_cost, 21);
            assert_eq!(v[0].textual_info, "burns");
        },
        _ => panic!("expected spells"),
    }
    match &sections[5] {
        Section::Structure(v) => {
            assert_eq!(v[0].details.health_max, -2);
            assert_eq!(v[0].details.passability, -1);
            assert_eq!(v[0].details.start_id, 77);
            assert_eq!(v[0].details.tiles, 8);
        },
        _ => panic!("expected structures"),
    }
    match &sections[6] {
        Section::Unit(v) => {
            assert_eq!(v.len(), UNIT_COUNT);
            assert_eq!(v[3].name, "u3");
            assert_eq!(v[3].details.spell_power, -54);
            assert_eq!(v[3].textual_info, "beast");
        },
        _ => panic!("expected units"),
    }
    match &sections[7] {
        Section::Human(v) => {
            assert_eq!(v.len(), HUMAN_COUNT);
            assert_eq!(v[0].name, "h0");
            assert_eq!(v[209].name, "h209");
            assert_eq!(v[5].details.known_spells, 25);
            assert_eq!(v[5].items_wearing, vec!["Sword".to_string()]);
        },
        _ => panic!("expected humans"),
    }
}

#[test]
fn unknown_section_tag_is_refused() {
    let cp = codepage();
    let data = header(b"Other", 40);
    assert_eq!(decode_sections(&cp, &data).err(), Some(RomResourceError::UnknownSectionSignature));
}

#[test]
fn repeated_section_is_refused() {
    let cp = codepage();
    let mut data = header(b"Param", PARAMETER_HEADER_SIZE);
    data.extend_from_slice(&0u32.to_le_bytes());
    data.extend_from_slice(&header(b"Param", PARAMETER_HEADER_SIZE));
    data.extend_from_slice(&0u32.to_le_bytes());
    assert_eq!(decode_sections(&cp, &data).err(), Some(RomResourceError::RepeatedSection));
}

#[test]
fn data_ending_before_all_sections_is_a_short_read() {
    let cp = codepage();
    let mut data = header(b"Param", PARAMETER_HEADER_SIZE);
    data.extend_from_slice(&0u32.to_le_bytes());
    assert_eq!(decode_sections(&cp, &data).err(), Some(RomResourceError::UnableToRead));
}

#[test]
fn human_item_list_stops_at_next_human() {
    let cp = codepage();
    let mut d = header(b"Human", HUMAN_HEADER_SIZE);
    d.extend_from_slice(&[9, 9, 9, 9]);
    for k in 0..HUMAN_COUNT {
        d.extend_from_slice(&text(&format!("NPC{}_a", k % 10)));
        d.extend_from_slice(&[2, 2]);
        for j in 0..26 {
            d.extend_from_slice(&(j as i32).to_le_bytes());
        }
        d.extend_from_slice(&[200, 0]);
        d.extend_from_slice(&text("Helm"));
    }
    d.extend_from_slice(&text("NPC9_z"));
    let (section, end) = decode_section(&cp, &d, 0, SectionKind::Human).unwrap();
    assert_eq!(end, d.len() - 7);
    match section {
        Section::Human(v) => {
            assert_eq!(v[0].items_wearing, vec!["Helm".to_string()]);
            assert_eq!(v[1].name, "NPC1_a");
        },
        _ => panic!("expected humans"),
    }
}

#[test]
fn worn_list_reads_at_most_ten_slots() {
    let cp = codepage();
    let mut d = text("Hero");
    d.extend_from_slice(&[5, 5]);
    for j in 0..26 {
        d.extend_from_slice(&(j as i32).to_le_bytes());
    }
    let numbers_end = d.len();
    d.extend_from_slice(&[200u8; 12]);
    let (human, end) = HumanInfo::read(&cp, &d, 0).unwrap();
    assert_eq!(end, numbers_end + 10);
    assert!(human.items_wearing.is_empty());
    assert_eq!(human.name, "Hero");
    assert_eq!(human.details.body, 0);
    assert_eq!(human.details.known_spells, 25);
}

#[test]
fn ten_worn_items_then_stop() {
    let cp = codepage();
    let mut d = vec![0u8, 0, 0];
    d.extend_from_slice(&text("Hero"));
    d.extend_from_slice(&[0, 5, 5]);
    for j in 0..26 {
        d.extend_from_slice(&(j as i32).to_le_bytes());
    }
    for k in 0..11 {
        d.extend_from_slice(&text(&format!("Ring{}", k)));
    }
    let (human, end) = HumanInfo::read(&cp, &d, 0).unwrap();
    assert_eq!(human.items_wearing.len(), 10);
    assert_eq!(human.items_wearing[9], "Ring9");
    assert_eq!(end, d.len() - 7);
}

#[test]
fn unit_record_reads_fields_and_description() {
    let cp = codepage();
    let mut d = vec![0u8, 0];
    d.extend_from_slice(&unit_record("Wolf"));
    let (unit, end) = UnitInfo::read(&cp, &d, 0).unwrap();
    assert_eq!(end, d.len());
    assert_eq!(unit.name, "Wolf");
    assert_eq!(unit.details.body, 0);
    assert_eq!(unit.details.reaction, -1);
    assert_eq!(unit.textual_info, "beast");
    assert_eq!(UnitInfo::read(&cp, &d[..d.len() - 1], 0).err(), Some(RomResourceError::UnableToRead));
}

#[test]
fn unknown_kind_cannot_be_decoded() {
    let cp = codepage();
    let data = header(b"Other", 40);
    assert_eq!(
        decode_section(&cp, &data, 0, SectionKind::Unknown).err(),
        Some(RomResourceError::UnknownSectionSignature)
    );
}
