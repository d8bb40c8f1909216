use vstd::prelude::*;
use crate::bytes::{has_bytes, le_u32, skip_zero_padding, zero_run_end};
use crate::codepage::Codepage;
use crate::error::RomResourceError;
use crate::people::{HumanInfo, UnitInfo};
use crate::records::{
    counted_run, counted_run_stored_at, read_counted_run, read_run, run_end, run_fits,
    run_stored_at, ItemInfo, MagicItemInfo, ParameterInfo, Record, ShapeInfo, SpellInfo,
    StructureInfo,
};

verus! {

/// The kinds of section in the game-object data.
#[derive(Debug, Clone, Copy, PartialEq, Eq, Structural)]
pub enum SectionKind {
    Human,
    Item,
    MagicItem,
    Parameter,
    Shapes,
    Spell,
    Structure,
    Unit,
    Unknown,
}

/// Bytes looked at to classify a section.
pub const WINDOW_LEN: usize = 20;

/// Bytes skipped at the start of each section before its counts.
pub const HUMAN_HEADER_SIZE: usize = 0x014F;
pub const ITEM_HEADER_SIZE: usize = 0xAD;
pub const MAGIC_ITEM_HEADER_SIZE: usize = 0x23;
pub const PARAMETER_HEADER_SIZE: usize = 0x123;
pub const SHAPE_HEADER_SIZE: usize = 0x66;
pub const SPELL_HEADER_SIZE: usize = 0x14E;
pub const STRUCTURE_HEADER_SIZE: usize = 0x56;
pub const UNIT_HEADER_SIZE: usize = 0x026B;

/// Number of human records; the field where a count would stand is not one.
pub const HUMAN_COUNT: usize = 0xD2;

/// Number of unit records; the field where a count would stand is not one.
pub const UNIT_COUNT: usize = 0x38;

pub open spec fn header_size(k: SectionKind) -> int {
    match k {
        SectionKind::Human => HUMAN_HEADER_SIZE as int,
        SectionKind::Item => ITEM_HEADER_SIZE as int,
        SectionKind::MagicItem => MAGIC_ITEM_HEADER_SIZE as int,
        SectionKind::Parameter => PARAMETER_HEADER_SIZE as int,
        SectionKind::Shapes => SHAPE_HEADER_SIZE as int,
        SectionKind::Spell => SPELL_HEADER_SIZE as int,
        SectionKind::Structure => STRUCTURE_HEADER_SIZE as int,
        SectionKind::Unit => UNIT_HEADER_SIZE as int,
        SectionKind::Unknown => 0,
    }
}

/// Whether the bytes at `at + 3 ..` begin with `tag`.
pub open spec fn tag_at(data: Seq<u8>, at: int, tag: Seq<u8>) -> bool {
    forall|k: int| 0 <= k < tag.len() ==> data[at + 3 + k] == #[trigger] tag[k]
}

/// The kind named by bytes 3 to 7 of the window at `at`. For items and
/// units only the first four of those bytes count.
pub open spec fn classify(data: Seq<u8>, at: int) -> SectionKind {
    if tag_at(data, at, seq![0x53u8, 0x68, 0x61, 0x70, 0x65]) {
        SectionKind::Shapes
    } else if tag_at(data, at, seq![0x50u8, 0x61, 0x72, 0x61, 0x6d]) {
        SectionKind::Parameter
    } else if tag_at(data, at, seq![0x49u8, 0x74, 0x65, 0x6d]) {
        SectionKind::Item
    } else if tag_at(data, at, seq![0x4du8, 0x61, 0x67, 0x69, 0x63]) {
        SectionKind::MagicItem
    } else if tag_at(data, at, seq![0x55u8, 0x6e, 0x69, 0x74]) {
        SectionKind::Unit
    } else if tag_at(data, at, seq![0x48u8, 0x75, 0x6d, 0x61, 0x6e]) {
        SectionKind::Human
    } else if tag_at(data, at, seq![0x42u8, 0x75, 0x69, 0x6c, 0x64]) {
        SectionKind::Structure
    } else if tag_at(data, at, seq![0x53u8, 0x70, 0x65, 0x6c, 0x6c]) {
        SectionKind::Spell
    } else {
        SectionKind::Unknown
    }
}

/// Tests whether the bytes at `at + 3 ..` begin with `tag`.
fn has_tag(data: &[u8], at: usize, tag: &[u8]) -> (r: bool)
    requires
        at + 3 + tag@.len() <= data@.len(),
    ensures
        r == tag_at(data@, at as int, tag@),
{
    let len = data.len();
    let mut k: usize = 0;
    while k < tag.len()
        invariant
            k <= tag@.len(),
            len == data@.len(),
            at + 3 + tag@.len() <= data@.len(),
            forall|j: int| 0 <= j < k ==> data@[at + 3 + j] == #[trigger] tag@[j],
        decreases tag@.len() - k,
    {
        if data[at + 3 + k] != tag[k] {
            return false;
        }
        k = k + 1;
    }
    true
}

/// Classifies the section whose header window starts at `at`, without
/// consuming anything.
pub fn classify_section(data: &[u8], at: usize) -> (r: SectionKind)
    requires
        has_bytes(data@, at as int, WINDOW_LEN as int),
    ensures
        r == classify(data@, at as int),
{
    let shape: [u8; 5] = [0x53, 0x68, 0x61, 0x70, 0x65];
    let param: [u8; 5] = [0x50, 0x61, 0x72, 0x61, 0x6d];
    let item: [u8; 4] = [0x49, 0x74, 0x65, 0x6d];
    let magic: [u8; 5] = [0x4d, 0x61, 0x67, 0x69, 0x63];
    let unit: [u8; 4] = [0x55, 0x6e, 0x69, 0x74];
    let human: [u8; 5] = [0x48, 0x75, 0x6d, 0x61, 0x6e];
    let build: [u8; 5] = [0x42, 0x75, 0x69, 0x6c, 0x64];
    let spell: [u8; 5] = [0x53, 0x70, 0x65, 0x6c, 0x6c];
    assert(shape@ =~= seq![0x53u8, 0x68, 0x61, 0x70, 0x65]);
    assert(param@ =~= seq![0x50u8, 0x61, 0x72, 0x61, 0x6d]);
    assert(item@ =~= seq![0x49u8, 0x74, 0x65, 0x6d]);
    assert(magic@ =~= seq![0x4du8, 0x61, 0x67, 0x69, 0x63]);
    assert(unit@ =~= seq![0x55u8, 0x6e, 0x69, 0x74]);
    assert(human@ =~= seq![0x48u8, 0x75, 0x6d, 0x61, 0x6e]);
    assert(build@ =~= seq![0x42u8, 0x75, 0x69, 0x6c, 0x64]);
    assert(spell@ =~= seq![0x53u8, 0x70, 0x65, 0x6c, 0x6c]);
    if has_tag(data, at, shape.as_slice()) {
        SectionKind::Shapes
    } else if has_tag(data, at, param.as_slice()) {
        SectionKind::Parameter
    } else if has_tag(data, at, item.as_slice()) {
        SectionKind::Item
    } else if has_tag(data, at, magic.as_slice()) {
        SectionKind::MagicItem
    } else if has_tag(data, at, unit.as_slice()) {
        SectionKind::Unit
    } else if has_tag(data, at, human.as_slice()) {
        SectionKind::Human
    } else if has_tag(data, at, build.as_slice()) {
        SectionKind::Structure
    } else if has_tag(data, at, spell.as_slice()) {
        SectionKind::Spell
    } else {
        SectionKind::Unknown
    }
}

/// One decoded section.
#[derive(Debug, Clone, PartialEq, Eq)]
pub enum Section {
    /// The human characters, a fixed number of them.
    Human(Vec<HumanInfo>),
    /// The three item groups, each with its own count.
    Item { wieldables: Vec<ItemInfo>, shields: Vec<ItemInfo>, weapons: Vec<ItemInfo> },
    MagicItem(Vec<MagicItemInfo>),
    Parameter(Vec<ParameterInfo>),
    /// Item shapes (rarities), then materials, each with its own count.
    Shapes { rarities: Vec<ShapeInfo>, materials: Vec<ShapeInfo> },
    Spell(Vec<SpellInfo>),
    Structure(Vec<StructureInfo>),
    /// The monster units, a fixed number of them.
    Unit(Vec<UnitInfo>),
}

/// What reading `n` records after four skipped bytes at `at` yields: the
/// position after the records and the zero padding that follows them.
pub open spec fn fixed_run<R: Record>(cp: Seq<char>, data: Seq<u8>, at: int, n: nat) -> Result<
    int,
    RomResourceError,
> {
    if !has_bytes(data, at, 4) {
        Err(RomResourceError::UnableToRead)
    } else if !run_fits::<R>(cp, data, at + 4, n) {
        Err(RomResourceError::UnableToRead)
    } else {
        Ok(zero_run_end(data, run_end::<R>(cp, data, at + 4, n)))
    }
}

/// Where the second item group's count stands, given where the first's does.
pub open spec fn next_group(r: Result<int, RomResourceError>) -> int {
    r->Ok_0
}

/// What decoding a section of kind `k` whose header starts at `at` yields:
/// the position after it, or the error met.
#[verifier::opaque]
pub open spec fn section_outcome(k: SectionKind, cp: Seq<char>, data: Seq<u8>, at: int) -> Result<
    int,
    RomResourceError,
> {
    let p = at + header_size(k);
    if k == SectionKind::Unknown {
        Err(RomResourceError::UnknownSectionSignature)
    } else if !has_bytes(data, at, header_size(k)) {
        Err(RomResourceError::UnableToRead)
    } else {
        match k {
            SectionKind::Human => fixed_run::<HumanInfo>(cp, data, p, HUMAN_COUNT as nat),
            SectionKind::Unit => fixed_run::<UnitInfo>(cp, data, p, UNIT_COUNT as nat),
            SectionKind::Item => {
                let first = counted_run::<ItemInfo>(cp, data, p, true);
                if first is Err {
                    first
                } else {
                    let second = counted_run::<ItemInfo>(cp, data, next_group(first), true);
                    if second is Err {
                        second
                    } else {
                        counted_run::<ItemInfo>(cp, data, next_group(second), true)
                    }
                }
            },
            SectionKind::MagicItem => counted_run::<MagicItemInfo>(cp, data, p, true),
            SectionKind::Parameter => counted_run::<ParameterInfo>(cp, data, p, false),
            SectionKind::Shapes => {
                let first = counted_run::<ShapeInfo>(cp, data, p, false);
                if first is Err {
                    first
                } else {
                    counted_run::<ShapeInfo>(cp, data, next_group(first), false)
                }
            },
            SectionKind::Spell => counted_run::<SpellInfo>(cp, data, p, true),
            SectionKind::Structure => counted_run::<StructureInfo>(cp, data, p, true),
            SectionKind::Unknown => Err(RomResourceError::UnknownSectionSignature),
        }
    }
}

impl Section {
    pub open spec fn kind(&self) -> SectionKind {
        match self {
            Section::Human(_) => SectionKind::Human,
            Section::Item { .. } => SectionKind::Item,
            Section::MagicItem(_) => SectionKind::MagicItem,
            Section::Parameter(_) => SectionKind::Parameter,
            Section::Shapes { .. } => SectionKind::Shapes,
            Section::Spell(_) => SectionKind::Spell,
            Section::Structure(_) => SectionKind::Structure,
            Section::Unit(_) => SectionKind::Unit,
        }
    }

    /// Whether `self` is the section whose header starts at `at`.
    #[verifier::opaque]
    pub open spec fn stored_at(&self, cp: Seq<char>, data: Seq<u8>, at: int) -> bool {
        let p = at + header_size(self.kind());
        match self {
            Section::Human(v) => v@.len() == HUMAN_COUNT && run_stored_at::<HumanInfo>(v@, cp, data, p + 4),
            Section::Item { wieldables, shields, weapons } => {
                let second = next_group(counted_run::<ItemInfo>(cp, data, p, true));
                let third = next_group(counted_run::<ItemInfo>(cp, data, second, true));
                &&& counted_run_stored_at::<ItemInfo>(wieldables@, cp, data, p, true)
                &&& counted_run_stored_at::<ItemInfo>(shields@, cp, data, second, true)
                &&& counted_run_stored_at::<ItemInfo>(weapons@, cp, data, third, true)
            },
            Section::MagicItem(v) => counted_run_stored_at::<MagicItemInfo>(v@, cp, data, p, true),
            Section::Parameter(v) => counted_run_stored_at::<ParameterInfo>(v@, cp, data, p, false),
            Section::Shapes { rarities, materials } => {
                let second = next_group(counted_run::<ShapeInfo>(cp, data, p, false));
                &&& counted_run_stored_at::<ShapeInfo>(rarities@, cp, data, p, false)
                &&& counted_run_stored_at::<ShapeInfo>(materials@, cp, data, second, false)
            },
            Section::Spell(v) => counted_run_stored_at::<SpellInfo>(v@, cp, data, p, true),
            Section::Structure(v) => counted_run_stored_at::<StructureInfo>(v@, cp, data, p, true),
            Section::Unit(v) => v@.len() == UNIT_COUNT && run_stored_at::<UnitInfo>(v@, cp, data, p + 4),
        }
    }
}

/// Reads `n` records after four skipped bytes at `at`, then skips the zero
/// padding after them.
fn read_fixed_run<R: Record>(cp: &Codepage, data: &[u8], at: usize, n: usize) -> (r: Result<
    (Vec<R>, usize),
    RomResourceError,
>)
    requires
        at <= data@.len(),
    ensures
        match fixed_run::<R>(cp@, data@, at as int, n as nat) {
            Ok(e) => r matches Ok((v, end)) && end == e && end <= data@.len() && v@.len() == n
                && run_stored_at::<R>(v@, cp@, data@, at + 4),
            Err(e) => r == Err::<(Vec<R>, usize), _>(e),
        },
{
    if data.len() - at < 4 {
        return Err(RomResourceError::UnableToRead);
    }
    let (v, p) = read_run::<R>(cp, data, at + 4, n)?;
    let e = skip_zero_padding(data, p);
    Ok((v, e))
}

/// Decodes the section of kind `kind` whose header starts at `at`: skips the
/// header, resolves the counts, reads the records.
pub fn decode_section(cp: &Codepage, data: &[u8], at: usize, kind: SectionKind) -> (r: Result<
    (Section, usize),
    RomResourceError,
>)
    requires
        at <= data@.len(),
    ensures
        match section_outcome(kind, cp@, data@, at as int) {
            Ok(e) => r matches Ok((s, end)) && end == e && end <= data@.len() && s.kind() == kind
                && s.stored_at(cp@, data@, at as int),
            Err(e) => r == Err::<(Section, usize), _>(e),
        },
{
    proof {
        reveal(section_outcome);
        reveal(Section::stored_at);
    }
    let header = match kind {
        SectionKind::Human => HUMAN_HEADER_SIZE,
        SectionKind::Item => ITEM_HEADER_SIZE,
        SectionKind::MagicItem => MAGIC_ITEM_HEADER_SIZE,
        SectionKind::Parameter => PARAMETER_HEADER_SIZE,
        SectionKind::Shapes => SHAPE_HEADER_SIZE,
        SectionKind::Spell => SPELL_HEADER_SIZE,
        SectionKind::Structure => STRUCTURE_HEADER_SIZE,
        SectionKind::Unit => UNIT_HEADER_SIZE,
        SectionKind::Unknown => return Err(RomResourceError::UnknownSectionSignature),
    };
    if data.len() - at < header {
        return Err(RomResourceError::UnableToRead);
    }
    let p = at + header;
    match kind {
        SectionKind::Human => {
            let (v, e) = read_fixed_run::<HumanInfo>(cp, data, p, HUMAN_COUNT)?;
            Ok((Section::Human(v), e))
        },
        SectionKind::Unit => {
            let (v, e) = read_fixed_run::<UnitInfo>(cp, data, p, UNIT_COUNT)?;
            Ok((Section::Unit(v), e))
        },
        SectionKind::Item => {
            let (wieldables, p1) = read_counted_run::<ItemInfo>(cp, data, p, true)?;
            let (shields, p2) = read_counted_run::<ItemInfo>(cp, data, p1, true)?;
            let (weapons, e) = read_counted_run::<ItemInfo>(cp, data, p2, true)?;
            Ok((Section::Item { wieldables, shields, weapons }, e))
        },
        SectionKind::MagicItem => {
            let (v, e) = read_counted_run::<MagicItemInfo>(cp, data, p, true)?;
            Ok((Section::MagicItem(v), e))
        },
        SectionKind::Parameter => {
            let (v, e) = read_counted_run::<ParameterInfo>(cp, data, p, false)?;
            Ok((Section::Parameter(v), e))
        },
        SectionKind::Shapes => {
            let (rarities, p1) = read_counted_run::<ShapeInfo>(cp, data, p, false)?;
            let (materials, e) = read_counted_run::<ShapeInfo>(cp, data, p1, false)?;
            Ok((Section::Shapes { rarities, materials }, e))
        },
        SectionKind::Spell => {
            let (v, e) = read_counted_run::<SpellInfo>(cp, data, p, true)?;
            Ok((Section::Spell(v), e))
        },
        SectionKind::Structure => {
            let (v, e) = read_counted_run::<StructureInfo>(cp, data, p, true)?;
            Ok((Section::Structure(v), e))
        },
        SectionKind::Unknown => Err(RomResourceError::UnknownSectionSignature),
    }
}

/// Position of a known kind in the list of kinds still to decode.
pub open spec fn kind_slot(k: SectionKind) -> int {
    match k {
        SectionKind::Human => 0,
        SectionKind::Item => 1,
        SectionKind::MagicItem => 2,
        SectionKind::Parameter => 3,
        SectionKind::Shapes => 4,
        SectionKind::Spell => 5,
        SectionKind::Structure => 6,
        SectionKind::Unit => 7,
        SectionKind::Unknown => 8,
    }
}

fn slot_of(k: SectionKind) -> (r: usize)
    ensures
        r == kind_slot(k),
{
    match k {
        SectionKind::Human => 0,
        SectionKind::Item => 1,
        SectionKind::MagicItem => 2,
        SectionKind::Parameter => 3,
        SectionKind::Shapes => 4,
        SectionKind::Spell => 5,
        SectionKind::Structure => 6,
        SectionKind::Unit => 7,
        SectionKind::Unknown => 8,
    }
}

pub open spec fn flag(b: bool) -> nat {
    if b { 1 } else { 0 }
}

/// How many of the eight kinds are still to decode.
pub open spec fn pending_count(p: Seq<bool>) -> nat {
    flag(p[0]) + flag(p[1]) + flag(p[2]) + flag(p[3]) + flag(p[4]) + flag(p[5]) + flag(p[6]) + flag(p[7])
}

/// All eight kinds still to decode.
pub open spec fn all_pending() -> Seq<bool> {
    Seq::new(8, |i: int| true)
}

/// Decoding sections from `at` on while any kind in `pending` is left: the
/// start of each section decoded, or the first error. Each section must be
/// of a kind still pending, which it then leaves.
pub open spec fn dispatch(cp: Seq<char>, data: Seq<u8>, at: int, pending: Seq<bool>) -> Result<
    Seq<int>,
    RomResourceError,
>
    decreases pending_count(pending),
{
    if pending.len() != 8 || pending_count(pending) == 0 {
        Ok(Seq::empty())
    } else if !has_bytes(data, at, WINDOW_LEN as int) {
        Err(RomResourceError::UnableToRead)
    } else {
        let k = classify(data, at);
        if k == SectionKind::Unknown {
            Err(RomResourceError::UnknownSectionSignature)
        } else if !pending[kind_slot(k)] {
            Err(RomResourceError::RepeatedSection)
        } else {
            match section_outcome(k, cp, data, at) {
                Err(e) => Err(e),
                Ok(end) => match dispatch(cp, data, end, pending.update(kind_slot(k), false)) {
                    Err(e) => Err(e),
                    Ok(rest) => Ok(seq![at] + rest),
                },
            }
        }
    }
}

/// Decodes the eight sections of the game-object data, in the order they
/// are stored.
pub fn decode_sections(cp: &Codepage, data: &[u8]) -> (r: Result<Vec<Section>, RomResourceError>)
    ensures
        match dispatch(cp@, data@, 0, all_pending()) {
            Ok(starts) => r matches Ok(v) && v@.len() == starts.len() && forall|i: int|
                0 <= i < v@.len() ==> (#[trigger] v@[i]).stored_at(cp@, data@, starts[i]) && v@[i].kind()
                    == classify(data@, starts[i]),
            Err(e) => r == Err::<Vec<Section>, _>(e),
        },
{
    let ghost target = dispatch(cp@, data@, 0, all_pending());
    let mut pending: Vec<bool> = vec![true, true, true, true, true, true, true, true];
    let mut left: usize = 8;
    let mut pos: usize = 0;
    let mut out: Vec<Section> = Vec::new();
    let ghost mut starts: Seq<int> = Seq::empty();
    assert(pending@ =~= all_pending());
    while left > 0
        invariant
            pending@.len() == 8,
            left == pending_count(pending@),
            pos <= data@.len(),
            out@.len() == starts.len(),
            forall|i: int|
                0 <= i < out@.len() ==> (#[trigger] out@[i]).stored_at(cp@, data@, starts[i]) && out@[i].kind()
                    == classify(data@, starts[i]),
            target == dispatch(cp@, data@, 0, all_pending()),
            target == match dispatch(cp@, data@, pos as int, pending@) {
                Err(e) => Err(e),
                Ok(rest) => Ok(starts + rest),
            },
        decreases left,
    {
        if data.len() < WINDOW_LEN || pos > data.len() - WINDOW_LEN {
            return Err(RomResourceError::UnableToRead);
        }
        let kind = classify_section(data, pos);
        if kind == SectionKind::Unknown {
            return Err(RomResourceError::UnknownSectionSignature);
        }
        let slot = slot_of(kind);
        if !pending[slot] {
            return Err(RomResourceError::RepeatedSection);
        }
        let (section, next) = decode_section(cp, data, pos, kind)?;
        let ghost before = out@;
        out.push(section);
        proof {
            assert forall|i: int|
                0 <= i < out@.len() implies (#[trigger] out@[i]).stored_at(cp@, data@, starts.push(pos as int)[i])
                    && out@[i].kind() == classify(data@, starts.push(pos as int)[i]) by {
                if i < before.len() {
                    assert(out@[i] == before[i]);
                }
            }
            assert forall|rest: Seq<int>| starts + (seq![pos as int] + rest) =~= starts.push(pos as int) + rest by {}
            starts = starts.push(pos as int);
        }
        pending.set(slot, false);
        left = left - 1;
        pos = next;
    }
    assert(starts + Seq::<int>::empty() =~= starts);
    Ok(out)
}

/// Each group whose stored count is decremented holds one record fewer
/// than that count says: magic items, spells, structures, and the three
/// item groups.
pub proof fn lemma_corrected_counts(s: Section, cp: Seq<char>, data: Seq<u8>, at: int)
    requires
        s.stored_at(cp, data, at),
    ensures
        s matches Section::MagicItem(v) ==> v@.len() == le_u32(data, at + MAGIC_ITEM_HEADER_SIZE) - 1,
        s matches Section::Spell(v) ==> v@.len() == le_u32(data, at + SPELL_HEADER_SIZE) - 1,
        s matches Section::Structure(v) ==> v@.len() == le_u32(data, at + STRUCTURE_HEADER_SIZE) - 1,
        s matches Section::Item { wieldables, shields, weapons } ==> {
            let p = at + ITEM_HEADER_SIZE;
            let second = next_group(counted_run::<ItemInfo>(cp, data, p, true));
            let third = next_group(counted_run::<ItemInfo>(cp, data, second, true));
            &&& wieldables@.len() == le_u32(data, p) - 1
            &&& shields@.len() == le_u32(data, second) - 1
            &&& weapons@.len() == le_u32(data, third) - 1
        },
{
    reveal(Section::stored_at);
}

} // verus!
