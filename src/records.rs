use vstd::prelude::*;
use crate::bytes::{
    has_bytes, le_u16, le_u32, le_u64, read_i16_le, read_i32_le, read_i8, read_u16_le, read_u64_le,
    signed16, signed32, signed8,
};
use crate::codepage::{decode_text, Codepage};
use crate::error::RomResourceError;

verus! {

/// Whether a length-prefixed string (one length byte, then that many bytes)
/// lies whole in `data` at `at`.
pub open spec fn text_fits(data: Seq<u8>, at: int) -> bool {
    0 <= at < data.len() && at + 1 + data[at] <= data.len()
}

/// Position just past the length-prefixed string at `at`.
pub open spec fn text_end(data: Seq<u8>, at: int) -> int {
    at + 1 + data[at]
}

/// Characters of the length-prefixed string at `at`.
pub open spec fn text_at(cp: Seq<char>, data: Seq<u8>, at: int) -> Seq<char> {
    decode_text(cp, data.subrange(at + 1, text_end(data, at)))
}

/// Reads the length-prefixed string at `at`; returns it and the position
/// after it, or `None` on a short read.
pub fn read_text(cp: &Codepage, data: &[u8], at: usize) -> (r: Option<(String, usize)>)
    ensures
        r is Some <==> text_fits(data@, at as int),
        r matches Some((s, e)) ==> s@ == text_at(cp@, data@, at as int) && e == text_end(
            data@,
            at as int,
        ),
{
    if at >= data.len() {
        return None;
    }
    let n = data[at] as usize;
    if data.len() - at - 1 < n {
        return None;
    }
    let s = cp.decode(data, at + 1, at + 1 + n);
    Some((s, at + 1 + n))
}

/// The `n` signed 32-bit little-endian values from `at` on.
pub open spec fn i32s_at(data: Seq<u8>, at: int, n: nat) -> Seq<int> {
    Seq::new(n, |k: int| signed32(le_u32(data, at + 4 * k)))
}

/// The `n` unsigned 64-bit little-endian values from `at` on.
pub open spec fn u64s_at(data: Seq<u8>, at: int, n: nat) -> Seq<int> {
    Seq::new(n, |k: int| le_u64(data, at + 8 * k))
}

/// Reads `n` signed 32-bit values from `at` on; `None` on a short read.
pub(crate) fn read_i32s(data: &[u8], at: usize, n: usize) -> (r: Option<Vec<i32>>)
    requires
        n <= 64,
    ensures
        r is Some <==> has_bytes(data@, at as int, 4 * n),
        r matches Some(v) ==> v@.len() == n && v@.map_values(|x: i32| x as int) == i32s_at(data@, at as int, n as nat),
{
    if at > data.len() || data.len() - at < 4 * n {
        return None;
    }
    let mut v: Vec<i32> = Vec::new();
    let mut k: usize = 0;
    while k < n
        invariant
            k <= n <= 64,
            at + 4 * n <= data@.len(),
            data@.len() <= usize::MAX,
            v@.len() == k,
            v@.map_values(|x: i32| x as int) == i32s_at(data@, at as int, k as nat),
        decreases n - k,
    {
        let x = read_i32_le(data, at + 4 * k).unwrap();
        let ghost before = v@;
        v.push(x);
        proof {
            let mv = v@.map_values(|x: i32| x as int);
            assert forall|j: int| 0 <= j < k + 1 implies #[trigger] mv[j]
                == i32s_at(data@, at as int, (k + 1) as nat)[j] by {
                if j < k {
                    assert(before.map_values(|x: i32| x as int)[j] == i32s_at(data@, at as int, k as nat)[j]);
                    assert(v@[j] == before[j]);
                }
            }
        }
        k = k + 1;
        assert(v@.map_values(|x: i32| x as int) =~= i32s_at(data@, at as int, k as nat));
    }
    Some(v)
}

/// Reads `n` unsigned 64-bit values from `at` on; `None` on a short read.
fn read_u64s(data: &[u8], at: usize, n: usize) -> (r: Option<Vec<u64>>)
    requires
        n <= 64,
    ensures
        r is Some <==> has_bytes(data@, at as int, 8 * n),
        r matches Some(v) ==> v@.len() == n && v@.map_values(|x: u64| x as int) == u64s_at(data@, at as int, n as nat),
{
    if at > data.len() || data.len() - at < 8 * n {
        return None;
    }
    let mut v: Vec<u64> = Vec::new();
    let mut k: usize = 0;
    while k < n
        invariant
            k <= n <= 64,
            at + 8 * n <= data@.len(),
            data@.len() <= usize::MAX,
            v@.len() == k,
            v@.map_values(|x: u64| x as int) == u64s_at(data@, at as int, k as nat),
        decreases n - k,
    {
        let x = read_u64_le(data, at + 8 * k).unwrap();
        let ghost before = v@;
        v.push(x);
        proof {
            let mv = v@.map_values(|x: u64| x as int);
            assert forall|j: int| 0 <= j < k + 1 implies #[trigger] mv[j]
                == u64s_at(data@, at as int, (k + 1) as nat)[j] by {
                if j < k {
                    assert(before.map_values(|x: u64| x as int)[j] == u64s_at(data@, at as int, k as nat)[j]);
                    assert(v@[j] == before[j]);
                }
            }
        }
        k = k + 1;
        assert(v@.map_values(|x: u64| x as int) =~= u64s_at(data@, at as int, k as nat));
    }
    Some(v)
}

/// A kind of record that is read whole from a position in the data.
pub trait Record: Sized {
    /// Whether a record of this kind lies whole in `data` at `at`.
    spec fn fits(cp: Seq<char>, data: Seq<u8>, at: int) -> bool;

    /// Position just past the record at `at`.
    spec fn end(cp: Seq<char>, data: Seq<u8>, at: int) -> int;

    /// Whether `self` is the record stored at `at`.
    spec fn stored_at(&self, cp: Seq<char>, data: Seq<u8>, at: int) -> bool;

    /// Reads the record at `at`; fails only on a short read.
    fn read(cp: &Codepage, data: &[u8], at: usize) -> (r: Result<(Self, usize), RomResourceError>)
        requires
            at <= data@.len(),
        ensures
            r is Ok <==> Self::fits(cp@, data@, at as int),
            r is Err ==> r == Err::<(Self, usize), _>(RomResourceError::UnableToRead),
            r matches Ok((v, e)) ==> e == Self::end(cp@, data@, at as int) && at <= e <= data@.len()
                && v.stored_at(cp@, data@, at as int),
    ;
}

/// Start of the `n`-th record of a run that begins at `at`.
pub open spec fn run_end<R: Record>(cp: Seq<char>, data: Seq<u8>, at: int, n: nat) -> int
    decreases n,
{
    if n == 0 {
        at
    } else {
        R::end(cp, data, run_end::<R>(cp, data, at, (n - 1) as nat))
    }
}

/// Whether `n` consecutive records lie whole in `data` from `at` on.
pub open spec fn run_fits<R: Record>(cp: Seq<char>, data: Seq<u8>, at: int, n: nat) -> bool
    decreases n,
{
    n == 0 || (run_fits::<R>(cp, data, at, (n - 1) as nat) && R::fits(
        cp,
        data,
        run_end::<R>(cp, data, at, (n - 1) as nat),
    ))
}

/// Whether `items` are the consecutive records stored from `at` on.
pub open spec fn run_stored_at<R: Record>(items: Seq<R>, cp: Seq<char>, data: Seq<u8>, at: int) -> bool {
    forall|k: int| 0 <= k < items.len() ==> #[trigger] items[k].stored_at(cp, data, run_end::<R>(cp, data, at, k as nat))
}

proof fn lemma_run_fits_prefix<R: Record>(cp: Seq<char>, data: Seq<u8>, at: int, m: nat, n: nat)
    requires
        m <= n,
        run_fits::<R>(cp, data, at, n),
    ensures
        run_fits::<R>(cp, data, at, m),
    decreases n,
{
    if m < n {
        lemma_run_fits_prefix::<R>(cp, data, at, m, (n - 1) as nat);
    }
}

/// Reads `n` consecutive records from `at` on; returns them and the position
/// after the last.
pub fn read_run<R: Record>(cp: &Codepage, data: &[u8], at: usize, n: usize) -> (r: Result<
    (Vec<R>, usize),
    RomResourceError,
>)
    requires
        at <= data@.len(),
    ensures
        r is Ok <==> run_fits::<R>(cp@, data@, at as int, n as nat),
        r is Err ==> r == Err::<(Vec<R>, usize), _>(RomResourceError::UnableToRead),
        r matches Ok((v, e)) ==> v@.len() == n && e == run_end::<R>(cp@, data@, at as int, n as nat)
            && e <= data@.len() && run_stored_at::<R>(v@, cp@, data@, at as int),
{
    let mut items: Vec<R> = Vec::new();
    let mut pos: usize = at;
    let mut k: usize = 0;
    while k < n
        invariant
            k <= n,
            items@.len() == k,
            pos <= data@.len(),
            pos == run_end::<R>(cp@, data@, at as int, k as nat),
            run_fits::<R>(cp@, data@, at as int, k as nat),
            run_stored_at::<R>(items@, cp@, data@, at as int),
        decreases n - k,
    {
        match R::read(cp, data, pos) {
            Err(e) => {
                proof {
                    if run_fits::<R>(cp@, data@, at as int, n as nat) {
                        lemma_run_fits_prefix::<R>(cp@, data@, at as int, (k + 1) as nat, n as nat);
                    }
                }
                return Err(e);
            },
            Ok((item, next)) => {
                let ghost before = items@;
                items.push(item);
                proof {
                    assert forall|j: int| 0 <= j < items@.len() implies #[trigger] items@[j].stored_at(
                        cp@,
                        data@,
                        run_end::<R>(cp@, data@, at as int, j as nat),
                    ) by {
                        if j < k {
                            assert(items@[j] == before[j]);
                        }
                    }
                }
                pos = next;
                k = k + 1;
            },
        }
    }
    Ok((items, pos))
}

/// Reads a raw count at `at` and, when `corrected`, takes one off it.
pub open spec fn count_at(data: Seq<u8>, at: int, corrected: bool) -> Result<int, RomResourceError> {
    if !has_bytes(data, at, 4) {
        Err(RomResourceError::UnableToRead)
    } else if !corrected {
        Ok(le_u32(data, at))
    } else if le_u32(data, at) == 0 {
        Err(RomResourceError::InvalidEntryCount)
    } else {
        Ok(le_u32(data, at) - 1)
    }
}

/// What reading a counted run at `at` yields: the position after it, or the
/// error met.
pub open spec fn counted_run<R: Record>(cp: Seq<char>, data: Seq<u8>, at: int, corrected: bool) -> Result<
    int,
    RomResourceError,
> {
    match count_at(data, at, corrected) {
        Err(e) => Err(e),
        Ok(n) => if run_fits::<R>(cp, data, at + 4, n as nat) {
            Ok(run_end::<R>(cp, data, at + 4, n as nat))
        } else {
            Err(RomResourceError::UnableToRead)
        },
    }
}

/// Whether `items` is the counted run stored at `at`.
pub open spec fn counted_run_stored_at<R: Record>(
    items: Seq<R>,
    cp: Seq<char>,
    data: Seq<u8>,
    at: int,
    corrected: bool,
) -> bool {
    &&& count_at(data, at, corrected) == Ok::<int, RomResourceError>(items.len() as int)
    &&& run_stored_at::<R>(items, cp, data, at + 4)
}

/// Reads a count at `at` (taking one off it when `corrected`), then that
/// many records.
pub fn read_counted_run<R: Record>(cp: &Codepage, data: &[u8], at: usize, corrected: bool) -> (r: Result<
    (Vec<R>, usize),
    RomResourceError,
>)
    requires
        at <= data@.len(),
    ensures
        match counted_run::<R>(cp@, data@, at as int, corrected) {
            Ok(e) => r matches Ok((v, end)) && end == e && end <= data@.len() && counted_run_stored_at::<R>(
                v@,
                cp@,
                data@,
                at as int,
                corrected,
            ),
            Err(e) => r == Err::<(Vec<R>, usize), _>(e),
        },
{
    if data.len() - at < 4 {
        return Err(RomResourceError::UnableToRead);
    }
    let raw = crate::bytes::read_u32_le(data, at).unwrap();
    let n = if corrected {
        if raw == 0 {
            return Err(RomResourceError::InvalidEntryCount);
        }
        raw - 1
    } else {
        raw
    };
    read_run::<R>(cp, data, at + 4, n as usize)
}

/// Numeric attributes of a human character.
#[derive(Debug, Clone, Copy, PartialEq, Eq)]
pub struct HumanRecord {
    pub body: i32,
    pub reaction: i32,
    pub mind: i32,
    pub spirit: i32,
    pub health_max: i32,
    pub mana_max: i32,
    pub speed: i32,
    pub rotation_speed: i32,
    pub scan_range: i32,
    pub defence: i32,
    pub skill_general: i32,
    pub skill_blade_fire: i32,
    pub skill_axe_water: i32,
    pub skill_bludgeon_air: i32,
    pub skill_pike_earth: i32,
    pub skill_shooting_astral: i32,
    pub type_id: i32,
    pub face: i32,
    pub gender: i32,
    pub attack_charge_time: i32,
    pub attack_relax_time: i32,
    pub token_size: i32,
    pub movement_type: i32,
    pub dying_time: i32,
    pub server_id: i32,
    pub known_spells: i32,
}

impl HumanRecord {
    /// Number of 32-bit fields.
    pub const LEN: usize = 26;

    /// The fields in the order they are stored.
    pub open spec fn fields(&self) -> Seq<int> {
        seq![
            self.body as int,
            self.reaction as int,
            self.mind as int,
            self.spirit as int,
            self.health_max as int,
            self.mana_max as int,
            self.speed as int,
            self.rotation_speed as int,
            self.scan_range as int,
            self.defence as int,
            self.skill_general as int,
            self.skill_blade_fire as int,
            self.skill_axe_water as int,
            self.skill_bludgeon_air as int,
            self.skill_pike_earth as int,
            self.skill_shooting_astral as int,
            self.type_id as int,
            self.face as int,
            self.gender as int,
            self.attack_charge_time as int,
            self.attack_relax_time as int,
            self.token_size as int,
            self.movement_type as int,
            self.dying_time as int,
            self.server_id as int,
            self.known_spells as int,
        ]
    }

    pub(crate) fn from_values(v: &Vec<i32>) -> (r: HumanRecord)
        requires
            v@.len() == 26,
        ensures
            r.fields() == v@.map_values(|x: i32| x as int),
    {
        let r = HumanRecord {
            body: v[0],
            reaction: v[1],
            mind: v[2],
            spirit: v[3],
            health_max: v[4],
            mana_max: v[5],
            speed: v[6],
            rotation_speed: v[7],
            scan_range: v[8],
            defence: v[9],
            skill_general: v[10],
            skill_blade_fire: v[11],
            skill_axe_water: v[12],
            skill_bludgeon_air: v[13],
            skill_pike_earth: v[14],
            skill_shooting_astral: v[15],
            type_id: v[16],
            face: v[17],
            gender: v[18],
            attack_charge_time: v[19],
            attack_relax_time: v[20],
            token_size: v[21],
            movement_type: v[22],
            dying_time: v[23],
            server_id: v[24],
            known_spells: v[25],
        };
        assert(r.fields() =~= v@.map_values(|x: i32| x as int));
        r
    }
}

/// Numeric attributes of an item.
#[derive(Debug, Clone, Copy, PartialEq, Eq)]
pub struct ItemRecord {
    pub shape: i32,
    pub material: i32,
    pub price: i32,
    pub weight: i32,
    pub slot: i32,
    pub attack_type: i32,
    pub physical_min: i32,
    pub physical_max: i32,
    pub to_hit: i32,
    pub defence: i32,
    pub absorption: i32,
    pub range: i32,
    pub charge: i32,
    pub relax: i32,
    pub two_handed: i32,
    pub suitable_for: i32,
    pub other_parameter: i32,
    pub mysterious_field0: i32,
    pub mysterious_field1: i32,
    pub mysterious_field2: i32,
}

impl ItemRecord {
    /// Number of 32-bit fields.
    pub const LEN: usize = 20;

    /// The fields in the order they are stored.
    pub open spec fn fields(&self) -> Seq<int> {
        seq![
            self.shape as int,
            self.material as int,
            self.price as int,
            self.weight as int,
            self.slot as int,
            self.attack_type as int,
            self.physical_min as int,
            self.physical_max as int,
            self.to_hit as int,
            self.defence as int,
            self.absorption as int,
            self.range as int,
            self.charge as int,
            self.relax as int,
            self.two_handed as int,
            self.suitable_for as int,
            self.other_parameter as int,
            self.mysterious_field0 as int,
            self.mysterious_field1 as int,
            self.mysterious_field2 as int,
        ]
    }

    pub(crate) fn from_values(v: &Vec<i32>) -> (r: ItemRecord)
        requires
            v@.len() == 20,
        ensures
            r.fields() == v@.map_values(|x: i32| x as int),
    {
        let r = ItemRecord {
            shape: v[0],
            material: v[1],
            price: v[2],
            weight: v[3],
            slot: v[4],
            attack_type: v[5],
            physical_min: v[6],
            physical_max: v[7],
            to_hit: v[8],
            defence: v[9],
            absorption: v[10],
            range: v[11],
            charge: v[12],
            relax: v[13],
            two_handed: v[14],
            suitable_for: v[15],
            other_parameter: v[16],
            mysterious_field0: v[17],
            mysterious_field1: v[18],
            mysterious_field2: v[19],
        };
        assert(r.fields() =~= v@.map_values(|x: i32| x as int));
        r
    }
}

/// Numeric attributes of a magic parameter.
#[derive(Debug, Clone, Copy, PartialEq, Eq)]
pub struct ParameterRecord {
    pub cost_mp: i32,
    pub affect_min: i32,
    pub affect_max: i32,
    pub usable_by: i32,
    pub in_weapon: i32,
    pub in_shield: i32,
    pub nop1: i32,
    pub in_ring: i32,
    pub in_amulet: i32,
    pub in_helm: i32,
    pub in_mail: i32,
    pub in_cuirass: i32,
    pub in_bracers: i32,
    pub in_gauntlets: i32,
    pub nop2: i32,
    pub in_boots: i32,
    pub in_weapon2: i32,
    pub nop3: i32,
    pub nop4: i32,
    pub in_ring2: i32,
    pub in_amulet2: i32,
    pub in_hat: i32,
    pub in_robe: i32,
    pub in_cloak: i32,
    pub nop5: i32,
    pub in_gloves: i32,
    pub nop6: i32,
    pub in_shoes: i32,
}

impl ParameterRecord {
    /// Number of 32-bit fields.
    pub const LEN: usize = 28;

    /// The fields in the order they are stored.
    pub open spec fn fields(&self) -> Seq<int> {
        seq![
            self.cost_mp as int,
            self.affect_min as int,
            self.affect_max as int,
            self.usable_by as int,
            self.in_weapon as int,
            self.in_shield as int,
            self.nop1 as int,
            self.in_ring as int,
            self.in_amulet as int,
            self.in_helm as int,
            self.in_mail as int,
            self.in_cuirass as int,
            self.in_bracers as int,
            self.in_gauntlets as int,
            self.nop2 as int,
            self.in_boots as int,
            self.in_weapon2 as int,
            self.nop3 as int,
            self.nop4 as int,
            self.in_ring2 as int,
            self.in_amulet2 as int,
            self.in_hat as int,
            self.in_robe as int,
            self.in_cloak as int,
            self.nop5 as int,
            self.in_gloves as int,
            self.nop6 as int,
            self.in_shoes as int,
        ]
    }

    pub(crate) fn from_values(v: &Vec<i32>) -> (r: ParameterRecord)
        requires
            v@.len() == 28,
        ensures
            r.fields() == v@.map_values(|x: i32| x as int),
    {
        let r = ParameterRecord {
            cost_mp: v[0],
            affect_min: v[1],
            affect_max: v[2],
            usable_by: v[3],
            in_weapon: v[4],
            in_shield: v[5],
            nop1: v[6],
            in_ring: v[7],
            in_amulet: v[8],
            in_helm: v[9],
            in_mail: v[10],
            in_cuirass: v[11],
            in_bracers: v[12],
            in_gauntlets: v[13],
            nop2: v[14],
            in_boots: v[15],
            in_weapon2: v[16],
            nop3: v[17],
            nop4: v[18],
            in_ring2: v[19],
            in_amulet2: v[20],
            in_hat: v[21],
            in_robe: v[22],
            in_cloak: v[23],
            nop5: v[24],
            in_gloves: v[25],
            nop6: v[26],
            in_shoes: v[27],
        };
        assert(r.fields() =~= v@.map_values(|x: i32| x as int));
        r
    }
}

/// Numeric attributes of a spell.
#[derive(Debug, Clone, Copy, PartialEq, Eq)]
pub struct SpellRecord {
    pub complication_level: i32,
    pub mana_cost: i32,
    pub sphere: i32,
    pub item: i32,
    pub spell_target: i32,
    pub delivery_system: i32,
    pub max_range: i32,
    pub spell_effect_speed: i32,
    pub distribution_system: i32,
    pub radius: i32,
    pub area_effect_affect: i32,
    pub area_effect_duration: i32,
    pub area_effect_frequency: i32,
    pub apply_on_unit_method: i32,
    pub spell_duratuion: i32,
    pub spell_frequency: i32,
    pub damage_min: i32,
    pub damage_max: i32,
    pub defensive: i32,
    pub skill_offset: i32,
    pub scroll_cost: i32,
    pub book_cost: i32,
}

impl SpellRecord {
    /// Number of 32-bit fields.
    pub const LEN: usize = 22;

    /// The fields in the order they are stored.
    pub open spec fn fields(&self) -> Seq<int> {
        seq![
            self.complication_level as int,
            self.mana_cost as int,
            self.sphere as int,
            self.item as int,
            self.spell_target as int,
            self.delivery_system as int,
            self.max_range as int,
            self.spell_effect_speed as int,
            self.distribution_system as int,
            self.radius as int,
            self.area_effect_affect as int,
            self.area_effect_duration as int,
            self.area_effect_frequency as int,
            self.apply_on_unit_method as int,
            self.spell_duratuion as int,
            self.spell_frequency as int,
            self.damage_min as int,
            self.damage_max as int,
            self.defensive as int,
            self.skill_offset as int,
            self.scroll_cost as int,
            self.book_cost as int,
        ]
    }

    pub(crate) fn from_values(v: &Vec<i32>) -> (r: SpellRecord)
        requires
            v@.len() == 22,
        ensures
            r.fields() == v@.map_values(|x: i32| x as int),
    {
        let r = SpellRecord {
            complication_level: v[0],
            mana_cost: v[1],
            sphere: v[2],
            item: v[3],
            spell_target: v[4],
            delivery_system: v[5],
            max_range: v[6],
            spell_effect_speed: v[7],
            distribution_system: v[8],
            radius: v[9],
            area_effect_affect: v[10],
            area_effect_duration: v[11],
            area_effect_frequency: v[12],
            apply_on_unit_method: v[13],
            spell_duratuion: v[14],
            spell_frequency: v[15],
            damage_min: v[16],
            damage_max: v[17],
            defensive: v[18],
            skill_offset: v[19],
            scroll_cost: v[20],
            book_cost: v[21],
        };
        assert(r.fields() =~= v@.map_values(|x: i32| x as int));
        r
    }
}

/// Numeric attributes of a monster unit: 55 signed 32-bit fields, all
/// stored, in this order. A count of 53 is too few: the unit's description
/// string follows the 55th field, so reading fewer misaligns it.
#[derive(Debug, Clone, Copy, PartialEq, Eq)]
pub struct UnitRecord {
    pub body: i32,
    pub reaction: i32,
    pub mind: i32,
    pub spirit: i32,
    pub health_max: i32,
    pub hp_regeneration: i32,
    pub mana_max: i32,
    pub mp_regeneration: i32,
    pub speed: i32,
    pub rotation_speed: i32,
    pub scan_range: i32,
    pub physical_min: i32,
    pub physical_max: i32,
    pub attack_kind: i32,
    pub to_hit: i32,
    pub defence: i32,
    pub absorption: i32,
    pub attack_charge_time: i32,
    pub attack_relax_time: i32,
    pub protect_fire: i32,
    pub protect_water: i32,
    pub protect_air: i32,
    pub protect_earth: i32,
    pub protect_astral: i32,
    pub resist_blade: i32,
    pub resist_axe: i32,
    pub resist_bludgeon: i32,
    pub resist_pike: i32,
    pub resist_shooting: i32,
    pub type_id: i32,
    pub face: i32,
    pub token_size: i32,
    pub movement_type: i32,
    pub dying_time: i32,
    pub withdraw: i32,
    pub wimpy: i32,
    pub see_invisible: i32,
    pub xp_value: i32,
    pub treasure1_gold: i32,
    pub treasure_min1: i32,
    pub treasure_max1: i32,
    pub treasure2_item: i32,
    pub treasure_min2: i32,
    pub treasure_max2: i32,
    pub treasure3_magic: i32,
    pub treasure_min3: i32,
    pub treasure_max3: i32,
    pub power: i32,
    pub spell1: i32,
    pub probability1: i32,
    pub spell2: i32,
    pub probability2: i32,
    pub spell3: i32,
    pub probability3: i32,
    pub spell_power: i32,
}

impl UnitRecord {
    /// Number of 32-bit fields.
    pub const LEN: usize = 55;

    /// The fields in the order they are stored.
    pub open spec fn fields(&self) -> Seq<int> {
        seq![
            self.body as int,
            self.reaction as int,
            self.mind as int,
            self.spirit as int,
            self.health_max as int,
            self.hp_regeneration as int,
            self.mana_max as int,
            self.mp_regeneration as int,
            self.speed as int,
            self.rotation_speed as int,
            self.scan_range as int,
            self.physical_min as int,
            self.physical_max as int,
            self.attack_kind as int,
            self.to_hit as int,
            self.defence as int,
            self.absorption as int,
            self.attack_charge_time as int,
            self.attack_relax_time as int,
            self.protect_fire as int,
            self.protect_water as int,
            self.protect_air as int,
            self.protect_earth as int,
            self.protect_astral as int,
            self.resist_blade as int,
            self.resist_axe as int,
            self.resist_bludgeon as int,
            self.resist_pike as int,
            self.resist_shooting as int,
            self.type_id as int,
            self.face as int,
            self.token_size as int,
            self.movement_type as int,
            self.dying_time as int,
            self.withdraw as int,
            self.wimpy as int,
            self.see_invisible as int,
            self.xp_value as int,
            self.treasure1_gold as int,
            self.treasure_min1 as int,
            self.treasure_max1 as int,
            self.treasure2_item as int,
            self.treasure_min2 as int,
            self.treasure_max2 as int,
            self.treasure3_magic as int,
            self.treasure_min3 as int,
            self.treasure_max3 as int,
            self.power as int,
            self.spell1 as int,
            self.probability1 as int,
            self.spell2 as int,
            self.probability2 as int,
            self.spell3 as int,
            self.probability3 as int,
            self.spell_power as int,
        ]
    }

    pub(crate) fn from_values(v: &Vec<i32>) -> (r: UnitRecord)
        requires
            v@.len() == 55,
        ensures
            r.fields() == v@.map_values(|x: i32| x as int),
    {
        let r = UnitRecord {
            body: v[0],
            reaction: v[1],
            mind: v[2],
            spirit: v[3],
            health_max: v[4],
            hp_regeneration: v[5],
            mana_max: v[6],
            mp_regeneration: v[7],
            speed: v[8],
            rotation_speed: v[9],
            scan_range: v[10],
            physical_min: v[11],
            physical_max: v[12],
            attack_kind: v[13],
            to_hit: v[14],
            defence: v[15],
            absorption: v[16],
            attack_charge_time: v[17],
            attack_relax_time: v[18],
            protect_fire: v[19],
            protect_water: v[20],
            protect_air: v[21],
            protect_earth: v[22],
            protect_astral: v[23],
            resist_blade: v[24],
            resist_axe: v[25],
            resist_bludgeon: v[26],
            resist_pike: v[27],
            resist_shooting: v[28],
            type_id: v[29],
            face: v[30],
            token_size: v[31],
            movement_type: v[32],
            dying_time: v[33],
            withdraw: v[34],
            wimpy: v[35],
            see_invisible: v[36],
            xp_value: v[37],
            treasure1_gold: v[38],
            treasure_min1: v[39],
            treasure_max1: v[40],
            treasure2_item: v[41],
            treasure_min2: v[42],
            treasure_max2: v[43],
            treasure3_magic: v[44],
            treasure_min3: v[45],
            treasure_max3: v[46],
            power: v[47],
            spell1: v[48],
            probability1: v[49],
            spell2: v[50],
            probability2: v[51],
            spell3: v[52],
            probability3: v[53],
            spell_power: v[54],
        };
        assert(r.fields() =~= v@.map_values(|x: i32| x as int));
        r
    }
}


/// One item: wieldable, shield or weapon.
#[derive(Debug, Clone, PartialEq, Eq)]
pub struct ItemInfo {
    pub name: String,
    pub nop: u16,
    pub details: ItemRecord,
}

impl Record for ItemInfo {
    open spec fn fits(cp: Seq<char>, data: Seq<u8>, at: int) -> bool {
        &&& text_fits(data, at)
        &&& has_bytes(data, text_end(data, at), 82)
    }

    open spec fn end(cp: Seq<char>, data: Seq<u8>, at: int) -> int {
        text_end(data, at) + 82
    }

    open spec fn stored_at(&self, cp: Seq<char>, data: Seq<u8>, at: int) -> bool {
        let p = text_end(data, at);
        &&& self.name@ == text_at(cp, data, at)
        &&& self.nop as int == le_u16(data, p)
        &&& self.details.fields() == i32s_at(data, p + 2, 20)
    }

    fn read(cp: &Codepage, data: &[u8], at: usize) -> (r: Result<(ItemInfo, usize), RomResourceError>) {
        let (name, p) = match read_text(cp, data, at) {
            None => return Err(RomResourceError::UnableToRead),
            Some(x) => x,
        };
        if data.len() - p < 82 {
            return Err(RomResourceError::UnableToRead);
        }
        let nop = read_u16_le(data, p).unwrap();
        let values = read_i32s(data, p + 2, 20).unwrap();
        let details = ItemRecord::from_values(&values);
        Ok((ItemInfo { name, nop, details }, p + 82))
    }
}

/// One magic parameter.
#[derive(Debug, Clone, PartialEq, Eq)]
pub struct ParameterInfo {
    pub name: String,
    pub nop: u16,
    pub details: ParameterRecord,
}

impl Record for ParameterInfo {
    open spec fn fits(cp: Seq<char>, data: Seq<u8>, at: int) -> bool {
        &&& text_fits(data, at)
        &&& has_bytes(data, text_end(data, at), 114)
    }

    open spec fn end(cp: Seq<char>, data: Seq<u8>, at: int) -> int {
        text_end(data, at) + 114
    }

    open spec fn stored_at(&self, cp: Seq<char>, data: Seq<u8>, at: int) -> bool {
        let p = text_end(data, at);
        &&& self.name@ == text_at(cp, data, at)
        &&& self.nop as int == le_u16(data, p)
        &&& self.details.fields() == i32s_at(data, p + 2, 28)
    }

    fn read(cp: &Codepage, data: &[u8], at: usize) -> (r: Result<(ParameterInfo, usize), RomResourceError>) {
        let (name, p) = match read_text(cp, data, at) {
            None => return Err(RomResourceError::UnableToRead),
            Some(x) => x,
        };
        if data.len() - p < 114 {
            return Err(RomResourceError::UnableToRead);
        }
        let nop = read_u16_le(data, p).unwrap();
        let values = read_i32s(data, p + 2, 28).unwrap();
        let details = ParameterRecord::from_values(&values);
        Ok((ParameterInfo { name, nop, details }, p + 114))
    }
}

/// One spell, with its description.
#[derive(Debug, Clone, PartialEq, Eq)]
pub struct SpellInfo {
    pub name: String,
    pub nop: u16,
    pub details: SpellRecord,
    pub textual_info: String,
}

impl Record for SpellInfo {
    open spec fn fits(cp: Seq<char>, data: Seq<u8>, at: int) -> bool {
        &&& text_fits(data, at)
        &&& has_bytes(data, text_end(data, at), 90)
        &&& text_fits(data, text_end(data, at) + 90)
    }

    open spec fn end(cp: Seq<char>, data: Seq<u8>, at: int) -> int {
        text_end(data, text_end(data, at) + 90)
    }

    open spec fn stored_at(&self, cp: Seq<char>, data: Seq<u8>, at: int) -> bool {
        let p = text_end(data, at);
        &&& self.name@ == text_at(cp, data, at)
        &&& self.nop as int == le_u16(data, p)
        &&& self.details.fields() == i32s_at(data, p + 2, 22)
        &&& self.textual_info@ == text_at(cp, data, p + 90)
    }

    fn read(cp: &Codepage, data: &[u8], at: usize) -> (r: Result<(SpellInfo, usize), RomResourceError>) {
        let (name, p) = match read_text(cp, data, at) {
            None => return Err(RomResourceError::UnableToRead),
            Some(x) => x,
        };
        if data.len() - p < 90 {
            return Err(RomResourceError::UnableToRead);
        }
        let nop = read_u16_le(data, p).unwrap();
        let values = read_i32s(data, p + 2, 22).unwrap();
        let details = SpellRecord::from_values(&values);
        let (textual_info, e) = match read_text(cp, data, p + 90) {
            None => return Err(RomResourceError::UnableToRead),
            Some(x) => x,
        };
        Ok((SpellInfo { name, nop, details, textual_info }, e))
    }
}

/// Price and weight of a magic item.
#[derive(Debug, Clone, Copy, PartialEq, Eq)]
pub struct MagicItemRecord {
    pub price: i32,
    pub weight: i32,
}

/// One magic item, with its description.
#[derive(Debug, Clone, PartialEq, Eq)]
pub struct MagicItemInfo {
    pub name: String,
    pub nop0: u16,
    pub details: MagicItemRecord,
    pub nop1: u8,
    pub textual_info: String,
}

impl Record for MagicItemInfo {
    open spec fn fits(cp: Seq<char>, data: Seq<u8>, at: int) -> bool {
        &&& text_fits(data, at)
        &&& has_bytes(data, text_end(data, at), 11)
        &&& text_fits(data, text_end(data, at) + 11)
    }

    open spec fn end(cp: Seq<char>, data: Seq<u8>, at: int) -> int {
        text_end(data, text_end(data, at) + 11)
    }

    open spec fn stored_at(&self, cp: Seq<char>, data: Seq<u8>, at: int) -> bool {
        let p = text_end(data, at);
        &&& self.name@ == text_at(cp, data, at)
        &&& self.nop0 as int == le_u16(data, p)
        &&& self.details.price as int == signed32(le_u32(data, p + 2))
        &&& self.details.weight as int == signed32(le_u32(data, p + 6))
        &&& self.nop1 == data[p + 10]
        &&& self.textual_info@ == text_at(cp, data, p + 11)
    }

    fn read(cp: &Codepage, data: &[u8], at: usize) -> (r: Result<(MagicItemInfo, usize), RomResourceError>) {
        let len = data.len();
        let (name, p) = match read_text(cp, data, at) {
            None => return Err(RomResourceError::UnableToRead),
            Some(x) => x,
        };
        if len - p < 11 {
            return Err(RomResourceError::UnableToRead);
        }
        let nop0 = read_u16_le(data, p).unwrap();
        let price = read_i32_le(data, p + 2).unwrap();
        let weight = read_i32_le(data, p + 6).unwrap();
        let nop1 = data[p + 10];
        let (textual_info, e) = match read_text(cp, data, p + 11) {
            None => return Err(RomResourceError::UnableToRead),
            Some(x) => x,
        };
        Ok((MagicItemInfo { name, nop0, details: MagicItemRecord { price, weight }, nop1, textual_info }, e))
    }
}

/// Numeric attributes of an item shape or material. Each field holds the
/// bit pattern of a little-endian IEEE-754 double; `f64::from_bits` gives
/// the number.
#[derive(Debug, Clone, Copy, PartialEq, Eq)]
pub struct ShapeRecord {
    pub price: u64,
    pub weight: u64,
    pub damage: u64,
    pub to_hit: u64,
    pub defence: u64,
    pub absorption: u64,
    pub mag_cap_level: u64,
}

impl ShapeRecord {
    /// The fields in the order they are stored.
    pub open spec fn fields(&self) -> Seq<int> {
        seq![
            self.price as int,
            self.weight as int,
            self.damage as int,
            self.to_hit as int,
            self.defence as int,
            self.absorption as int,
            self.mag_cap_level as int,
        ]
    }

    pub(crate) fn from_values(v: &Vec<u64>) -> (r: ShapeRecord)
        requires
            v@.len() == 7,
        ensures
            r.fields() == v@.map_values(|x: u64| x as int),
    {
        let r = ShapeRecord {
            price: v[0],
            weight: v[1],
            damage: v[2],
            to_hit: v[3],
            defence: v[4],
            absorption: v[5],
            mag_cap_level: v[6],
        };
        assert(r.fields() =~= v@.map_values(|x: u64| x as int));
        r
    }
}

/// One item shape (rarity) or material.
#[derive(Debug, Clone, PartialEq, Eq)]
pub struct ShapeInfo {
    pub name: String,
    pub nop0: u64,
    pub nop1: u64,
    pub details: ShapeRecord,
}

impl Record for ShapeInfo {
    open spec fn fits(cp: Seq<char>, data: Seq<u8>, at: int) -> bool {
        &&& text_fits(data, at)
        &&& has_bytes(data, text_end(data, at), 72)
    }

    open spec fn end(cp: Seq<char>, data: Seq<u8>, at: int) -> int {
        text_end(data, at) + 72
    }

    open spec fn stored_at(&self, cp: Seq<char>, data: Seq<u8>, at: int) -> bool {
        let p = text_end(data, at);
        &&& self.name@ == text_at(cp, data, at)
        &&& self.nop0 as int == le_u64(data, p)
        &&& self.nop1 as int == le_u64(data, p + 8)
        &&& self.details.fields() == u64s_at(data, p + 16, 7)
    }

    fn read(cp: &Codepage, data: &[u8], at: usize) -> (r: Result<(ShapeInfo, usize), RomResourceError>) {
        let len = data.len();
        let (name, p) = match read_text(cp, data, at) {
            None => return Err(RomResourceError::UnableToRead),
            Some(x) => x,
        };
        if len - p < 72 {
            return Err(RomResourceError::UnableToRead);
        }
        let nop0 = read_u64_le(data, p).unwrap();
        let nop1 = read_u64_le(data, p + 8).unwrap();
        let values = read_u64s(data, p + 16, 7).unwrap();
        let details = ShapeRecord::from_values(&values);
        Ok((ShapeInfo { name, nop0, nop1, details }, p + 72))
    }
}

/// Numeric attributes of a structure.
#[derive(Debug, Clone, Copy, PartialEq, Eq)]
pub struct StructureRecord {
    pub size_x: i32,
    pub size_y: i32,
    pub scan_range: i32,
    pub health_max: i16,
    pub passability: i8,
    pub building_present: i8,
    pub start_id: i32,
    pub tiles: i16,
    pub nop: i16,
}

impl StructureRecord {
    /// The fields in the order they are stored.
    pub open spec fn fields(&self) -> Seq<int> {
        seq![
            self.size_x as int,
            self.size_y as int,
            self.scan_range as int,
            self.health_max as int,
            self.passability as int,
            self.building_present as int,
            self.start_id as int,
            self.tiles as int,
            self.nop as int,
        ]
    }
}

/// Values of a structure record stored at `p`: three 32-bit, one 16-bit,
/// two 8-bit, one 32-bit and two 16-bit signed fields, 24 bytes in all.
pub open spec fn structure_fields_at(data: Seq<u8>, p: int) -> Seq<int> {
    seq![
        signed32(le_u32(data, p)),
        signed32(le_u32(data, p + 4)),
        signed32(le_u32(data, p + 8)),
        signed16(le_u16(data, p + 12)),
        signed8(data[p + 14] as int),
        signed8(data[p + 15] as int),
        signed32(le_u32(data, p + 16)),
        signed16(le_u16(data, p + 20)),
        signed16(le_u16(data, p + 22)),
    ]
}

/// One structure (building).
#[derive(Debug, Clone, PartialEq, Eq)]
pub struct StructureInfo {
    pub name: String,
    pub nop: u16,
    pub details: StructureRecord,
}

impl Record for StructureInfo {
    open spec fn fits(cp: Seq<char>, data: Seq<u8>, at: int) -> bool {
        &&& text_fits(data, at)
        &&& has_bytes(data, text_end(data, at), 26)
    }

    open spec fn end(cp: Seq<char>, data: Seq<u8>, at: int) -> int {
        text_end(data, at) + 26
    }

    open spec fn stored_at(&self, cp: Seq<char>, data: Seq<u8>, at: int) -> bool {
        let p = text_end(data, at);
        &&& self.name@ == text_at(cp, data, at)
        &&& self.nop as int == le_u16(data, p)
        &&& self.details.fields() == structure_fields_at(data, p + 2)
    }

    fn read(cp: &Codepage, data: &[u8], at: usize) -> (r: Result<(StructureInfo, usize), RomResourceError>) {
        let len = data.len();
        let (name, p) = match read_text(cp, data, at) {
            None => return Err(RomResourceError::UnableToRead),
            Some(x) => x,
        };
        if len - p < 26 {
            return Err(RomResourceError::UnableToRead);
        }
        let nop = read_u16_le(data, p).unwrap();
        let q = p + 2;
        let details = StructureRecord {
            size_x: read_i32_le(data, q).unwrap(),
            size_y: read_i32_le(data, q + 4).unwrap(),
            scan_range: read_i32_le(data, q + 8).unwrap(),
            health_max: read_i16_le(data, q + 12).unwrap(),
            passability: read_i8(data, q + 14).unwrap(),
            building_present: read_i8(data, q + 15).unwrap(),
            start_id: read_i32_le(data, q + 16).unwrap(),
            tiles: read_i16_le(data, q + 20).unwrap(),
            nop: read_i16_le(data, q + 22).unwrap(),
        };
        assert(details.fields() =~= structure_fields_at(data@, q as int));
        Ok((StructureInfo { name, nop, details }, p + 26))
    }
}

} // verus!
