//! Reader for a legacy game's resource container and for the game-object
//! tables packed in its `data/data.bin` resource.

mod archive;
mod bytes;
mod codepage;
mod error;
mod paths;
mod people;
mod records;
mod sections;

pub use crate::archive::ResourceFile;
pub use crate::bytes::{
    read_i16_le, read_i32_le, read_i8, read_u16_le, read_u32_le, read_u64_le, skip_zero_padding,
};
pub use crate::codepage::Codepage;
pub use crate::error::RomResourceError;
pub use crate::people::{is_record_name, read_worn_slot, HumanInfo, UnitInfo, WornSlot, WORN_SLOTS};
pub use crate::records::{
    read_counted_run, read_run, read_text, HumanRecord, ItemInfo, ItemRecord, MagicItemInfo,
    MagicItemRecord, ParameterInfo, ParameterRecord, Record, ShapeInfo, ShapeRecord, SpellInfo,
    SpellRecord, StructureInfo, StructureRecord, UnitRecord,
};
pub use crate::sections::{
    classify_section, decode_section, decode_sections, Section, SectionKind, HUMAN_COUNT,
    HUMAN_HEADER_SIZE, ITEM_HEADER_SIZE, MAGIC_ITEM_HEADER_SIZE, PARAMETER_HEADER_SIZE,
    SHAPE_HEADER_SIZE, SPELL_HEADER_SIZE, STRUCTURE_HEADER_SIZE, UNIT_COUNT, UNIT_HEADER_SIZE,
    WINDOW_LEN,
};
