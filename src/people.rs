use vstd::prelude::*;
use crate::bytes::{has_bytes, zero_run_end, skip_zero_padding};
use crate::codepage::Codepage;
use crate::error::RomResourceError;
use crate::paths::string_views;
use crate::records::{
    i32s_at, read_i32s, read_text, text_at, text_end, text_fits, HumanRecord, Record, UnitRecord,
};

verus! {

pub open spec fn is_digit(c: char) -> bool {
    '0' <= c && c <= '9'
}

/// Exactly `k` digits from `from` on, then an underscore.
pub open spec fn digit_run_then_underscore(s: Seq<char>, from: int, k: int) -> bool {
    &&& from + k < s.len()
    &&& s[from + k] == '_'
    &&& forall|t: int| from <= t < from + k ==> is_digit(#[trigger] s[t])
}

/// One to three digits from `from` on, then an underscore.
pub open spec fn digits_then_underscore(s: Seq<char>, from: int) -> bool {
    exists|k: int| 1 <= k <= 3 && #[trigger] digit_run_then_underscore(s, from, k)
}

/// An underscore at `j`, with no line break from position 3 up to it.
pub open spec fn underscore_on_first_line(s: Seq<char>, j: int) -> bool {
    &&& 3 <= j < s.len()
    &&& s[j] == '_'
    &&& forall|t: int| 3 <= t < j ==> #[trigger] s[t] != '\n'
}

/// Whether `s` is the name of a human record rather than a worn item. It
/// starts with `PC_`, `NPC_`, `NPC` and one to three digits then `_`, any one
/// character but a line break then `_`, `M` and one to three digits then
/// `_`, or `Man` followed, on the same line, by an `_`.
pub open spec fn names_next_record(s: Seq<char>) -> bool {
    ||| (s.len() >= 3 && s[0] == 'P' && s[1] == 'C' && s[2] == '_')
    ||| (s.len() >= 4 && s[0] == 'N' && s[1] == 'P' && s[2] == 'C' && s[3] == '_')
    ||| (s.len() >= 3 && s[0] == 'N' && s[1] == 'P' && s[2] == 'C' && digits_then_underscore(s, 3))
    ||| (s.len() >= 2 && s[0] != '\n' && s[1] == '_')
    ||| (s.len() >= 1 && s[0] == 'M' && digits_then_underscore(s, 1))
    ||| (s.len() >= 3 && s[0] == 'M' && s[1] == 'a' && s[2] == 'n' && exists|j: int|
        #[trigger] underscore_on_first_line(s, j))
}

/// Tests `digits_then_underscore` on the characters of `s`.
fn has_digits_then_underscore(s: &str, len: usize, from: usize) -> (r: bool)
    requires
        len == s@.len(),
        from <= len,
    ensures
        r == digits_then_underscore(s@, from as int),
{
    let mut k: usize = 0;
    while k < 4 && k < len - from && '0' <= s.get_char(from + k) && s.get_char(from + k) <= '9'
        invariant
            k <= 4,
            from <= len,
            len == s@.len(),
            forall|t: int| from <= t < from + k ==> is_digit(#[trigger] s@[t]),
        decreases 4 - k,
    {
        k = k + 1;
    }
    let r = 1 <= k && k <= 3 && k < len - from && s.get_char(from + k) == '_';
    proof {
        if r {
            assert(digit_run_then_underscore(s@, from as int, k as int));
        }
        if digits_then_underscore(s@, from as int) {
            let k2 = choose|k2: int| 1 <= k2 <= 3 && #[trigger] digit_run_then_underscore(s@, from as int, k2);
            if k2 < k {
                assert(is_digit(s@[from + k2]));
            } else if k2 > k {
                assert(is_digit(s@[from + k]));
            }
        }
    }
    r
}

/// Tests `names_next_record`.
pub fn is_record_name(s: &str) -> (r: bool)
    ensures
        r == names_next_record(s@),
{
    let len = s.unicode_len();
    if len >= 3 && s.get_char(0) == 'P' && s.get_char(1) == 'C' && s.get_char(2) == '_' {
        return true;
    }
    if len >= 3 && s.get_char(0) == 'N' && s.get_char(1) == 'P' && s.get_char(2) == 'C' {
        if len >= 4 && s.get_char(3) == '_' {
            return true;
        }
        if has_digits_then_underscore(s, len, 3) {
            return true;
        }
    }
    if len >= 2 && s.get_char(0) != '\n' && s.get_char(1) == '_' {
        return true;
    }
    if len >= 1 && s.get_char(0) == 'M' {
        if has_digits_then_underscore(s, len, 1) {
            return true;
        }
        if len >= 3 && s.get_char(1) == 'a' && s.get_char(2) == 'n' {
            let mut j: usize = 3;
            while j < len && s.get_char(j) != '\n'
                invariant
                    3 <= j <= len,
                    len == s@.len(),
                    s@[0] == 'M' && s@[1] == 'a' && s@[2] == 'n',
                    forall|t: int| 3 <= t < j ==> #[trigger] s@[t] != '\n' && s@[t] != '_',
                decreases len - j,
            {
                if s.get_char(j) == '_' {
                    assert(underscore_on_first_line(s@, j as int));
                    return true;
                }
                j = j + 1;
            }
            proof {
                if exists|j2: int| #[trigger] underscore_on_first_line(s@, j2) {
                    let j2 = choose|j2: int| #[trigger] underscore_on_first_line(s@, j2);
                    if j2 > j {
                        assert(s@[j as int] != '\n');
                    }
                }
            }
        }
    }
    false
}

/// How one worn-item slot reads, as a value.
pub enum SlotModel {
    /// The slot was empty; the next slot starts at the position given.
    Empty(int),
    /// A worn item with its name, the position reached, and whether further
    /// slots are read.
    Item(Seq<char>, int, bool),
    /// The string belongs to the next human; the cursor is back at its
    /// length byte.
    NextRecord(int),
}

/// Looks at up to three bytes from `e` on, consuming zeros: `(p, true)` when
/// a nonzero byte stands at `p`, `(e + 3, false)` after three zeros.
pub open spec fn trailing_zeros(data: Seq<u8>, e: int) -> Option<(int, bool)> {
    if !(0 <= e < data.len()) {
        None
    } else if data[e] != 0 {
        Some((e, true))
    } else if e + 1 >= data.len() {
        None
    } else if data[e + 1] != 0 {
        Some((e + 1, true))
    } else if e + 2 >= data.len() {
        None
    } else if data[e + 2] != 0 {
        Some((e + 2, true))
    } else {
        Some((e + 3, false))
    }
}

/// How the worn-item slot at `at` reads; `None` on a short read.
pub open spec fn slot_outcome(cp: Seq<char>, data: Seq<u8>, at: int) -> Option<SlotModel> {
    if !(0 <= at < data.len()) {
        None
    } else if data[at] >= 128 || data[at] == 0 {
        Some(SlotModel::Empty(at + 1))
    } else if !text_fits(data, at) {
        None
    } else if names_next_record(text_at(cp, data, at)) {
        Some(SlotModel::NextRecord(at))
    } else {
        match trailing_zeros(data, text_end(data, at)) {
            None => None,
            Some((n, more)) => Some(SlotModel::Item(text_at(cp, data, at), n, more)),
        }
    }
}

/// The worn items read from `at` on with `slots` slots left, and the
/// position reached; `None` on a short read.
pub open spec fn worn_items(cp: Seq<char>, data: Seq<u8>, at: int, slots: nat) -> Option<
    (Seq<Seq<char>>, int),
>
    decreases slots,
{
    if slots == 0 {
        Some((Seq::empty(), at))
    } else {
        match slot_outcome(cp, data, at) {
            None => None,
            Some(SlotModel::Empty(n)) => worn_items(cp, data, n, (slots - 1) as nat),
            Some(SlotModel::NextRecord(p)) => Some((Seq::empty(), p)),
            Some(SlotModel::Item(t, n, more)) => if more {
                match worn_items(cp, data, n, (slots - 1) as nat) {
                    None => None,
                    Some((rest, e)) => Some((seq![t] + rest, e)),
                }
            } else {
                Some((seq![t], n))
            },
        }
    }
}

/// Number of worn-item slots of a human record.
pub const WORN_SLOTS: usize = 10;

/// What one worn-item slot held.
#[derive(Debug, Clone, PartialEq, Eq)]
pub enum WornSlot {
    /// No item; the next slot starts at `next`.
    Empty { next: usize },
    /// A worn item; `more` tells whether further slots are read, from `next`.
    Item { name: String, next: usize, more: bool },
    /// The string at `at` is the next human's name; the list ends there.
    NextRecord { at: usize },
}

impl WornSlot {
    pub open spec fn model(&self) -> SlotModel {
        match self {
            WornSlot::Empty { next } => SlotModel::Empty(*next as int),
            WornSlot::Item { name, next, more } => SlotModel::Item(name@, *next as int, *more),
            WornSlot::NextRecord { at } => SlotModel::NextRecord(*at as int),
        }
    }
}

/// Reads one worn-item slot at `at`. A byte of 0 or of 128 and above marks an
/// empty slot. Otherwise a string is read; if it names the next human, the
/// cursor goes back to its length byte; if not, it is a worn item, and up
/// to three zero bytes after it are consumed: all three end the list.
pub fn read_worn_slot(cp: &Codepage, data: &[u8], at: usize) -> (r: Result<WornSlot, RomResourceError>)
    ensures
        match slot_outcome(cp@, data@, at as int) {
            None => r == Err::<WornSlot, _>(RomResourceError::UnableToRead),
            Some(m) => r matches Ok(w) && w.model() == m,
        },
{
    let len = data.len();
    if at >= len {
        return Err(RomResourceError::UnableToRead);
    }
    let b = data[at];
    if b >= 128 || b == 0 {
        return Ok(WornSlot::Empty { next: at + 1 });
    }
    let (name, e) = match read_text(cp, data, at) {
        None => return Err(RomResourceError::UnableToRead),
        Some(x) => x,
    };
    if is_record_name(name.as_str()) {
        let back = e - (b as usize + 1);
        return Ok(WornSlot::NextRecord { at: back });
    }
    if e >= len {
        return Err(RomResourceError::UnableToRead);
    }
    if data[e] != 0 {
        return Ok(WornSlot::Item { name, next: e, more: true });
    }
    if e + 1 >= len {
        return Err(RomResourceError::UnableToRead);
    }
    if data[e + 1] != 0 {
        return Ok(WornSlot::Item { name, next: e + 1, more: true });
    }
    if e + 2 >= len {
        return Err(RomResourceError::UnableToRead);
    }
    if data[e + 2] != 0 {
        return Ok(WornSlot::Item { name, next: e + 2, more: true });
    }
    Ok(WornSlot::Item { name, next: e + 3, more: false })
}

/// Reads the worn-item list of a human: at most ten slots.
fn read_worn_items(cp: &Codepage, data: &[u8], at: usize) -> (r: Result<
    (Vec<String>, usize),
    RomResourceError,
>)
    ensures
        match worn_items(cp@, data@, at as int, WORN_SLOTS as nat) {
            None => r == Err::<(Vec<String>, usize), _>(RomResourceError::UnableToRead),
            Some((items, e)) => r matches Ok((v, end)) && string_views(v@) == items && end == e,
        },
{
    let ghost target = worn_items(cp@, data@, at as int, WORN_SLOTS as nat);
    let mut items: Vec<String> = Vec::new();
    let mut pos: usize = at;
    let mut left: usize = WORN_SLOTS;
    while left > 0
        invariant
            left <= WORN_SLOTS,
            target == worn_items(cp@, data@, at as int, WORN_SLOTS as nat),
            target == match worn_items(cp@, data@, pos as int, left as nat) {
                None => None,
                Some((rest, e)) => Some((string_views(items@) + rest, e)),
            },
        decreases left,
    {
        let ghost before = string_views(items@);
        let slot = read_worn_slot(cp, data, pos);
        match slot {
            Err(e) => {
                return Err(e);
            },
            Ok(WornSlot::Empty { next }) => {
                pos = next;
            },
            Ok(WornSlot::NextRecord { at: back }) => {
                assert(before + Seq::<Seq<char>>::empty() =~= before);
                return Ok((items, back));
            },
            Ok(WornSlot::Item { name, next, more }) => {
                let ghost t = name@;
                items.push(name);
                assert(string_views(items@) =~= before.push(t));
                pos = next;
                if !more {
                    assert(before + seq![t] =~= before.push(t));
                    assert(string_views(items@) + Seq::<Seq<char>>::empty() =~= string_views(items@));
                    return Ok((items, pos));
                }
                proof {
                    assert forall|rest: Seq<Seq<char>>| before + (seq![t] + rest) =~= string_views(items@) + rest by {}
                }
            },
        }
        left = left - 1;
    }
    assert(string_views(items@) + Seq::<Seq<char>>::empty() =~= string_views(items@));
    Ok((items, pos))
}

/// Size of the fixed gap between a record's name padding and its numbers.
pub const NAME_GAP: usize = 2;

/// Layout positions of a human or unit record at `at`: where the name
/// starts after zero padding, and where the numbers start after the padding
/// that follows the name and the fixed gap.
pub open spec fn name_start(data: Seq<u8>, at: int) -> int {
    zero_run_end(data, at)
}

pub open spec fn numbers_start(data: Seq<u8>, at: int) -> int {
    zero_run_end(data, text_end(data, name_start(data, at))) + NAME_GAP
}

/// Reads the shared head of a human or unit record: padding, name, padding,
/// the gap, and `n` 32-bit numbers. Returns the name, the numbers, and the
/// position after them.
fn read_named_numbers(cp: &Codepage, data: &[u8], at: usize, n: usize) -> (r: Option<
    (String, Vec<i32>, usize),
>)
    requires
        at <= data@.len(),
        n <= 64,
    ensures
        r is Some <==> text_fits(data@, name_start(data@, at as int)) && has_bytes(
            data@,
            numbers_start(data@, at as int),
            4 * n,
        ),
        r matches Some((name, v, e)) ==> name@ == text_at(cp@, data@, name_start(data@, at as int))
            && v@.len() == n && v@.map_values(|x: i32| x as int) == i32s_at(
            data@,
            numbers_start(data@, at as int),
            n as nat,
        ) && e == numbers_start(data@, at as int) + 4 * n && at <= e <= data@.len(),
{
    let len = data.len();
    let p0 = skip_zero_padding(data, at);
    let (name, p1) = match read_text(cp, data, p0) {
        None => return None,
        Some(x) => x,
    };
    let p2 = skip_zero_padding(data, p1);
    if len - p2 < NAME_GAP {
        return None;
    }
    let values = match read_i32s(data, p2 + NAME_GAP, n) {
        None => return None,
        Some(v) => v,
    };
    Some((name, values, p2 + NAME_GAP + 4 * n))
}

/// One human character, with the names of the items it wears.
#[derive(Debug, Clone, PartialEq, Eq)]
pub struct HumanInfo {
    pub name: String,
    pub details: HumanRecord,
    pub items_wearing: Vec<String>,
}

impl Record for HumanInfo {
    open spec fn fits(cp: Seq<char>, data: Seq<u8>, at: int) -> bool {
        &&& text_fits(data, name_start(data, at))
        &&& has_bytes(data, numbers_start(data, at), 104)
        &&& worn_items(cp, data, numbers_start(data, at) + 104, WORN_SLOTS as nat) is Some
    }

    open spec fn end(cp: Seq<char>, data: Seq<u8>, at: int) -> int {
        worn_items(cp, data, numbers_start(data, at) + 104, WORN_SLOTS as nat)->Some_0.1
    }

    open spec fn stored_at(&self, cp: Seq<char>, data: Seq<u8>, at: int) -> bool {
        &&& self.name@ == text_at(cp, data, name_start(data, at))
        &&& self.details.fields() == i32s_at(data, numbers_start(data, at), 26)
        &&& string_views(self.items_wearing@) == worn_items(
            cp,
            data,
            numbers_start(data, at) + 104,
            WORN_SLOTS as nat,
        )->Some_0.0
    }

    fn read(cp: &Codepage, data: &[u8], at: usize) -> (r: Result<(HumanInfo, usize), RomResourceError>) {
        let (name, values, p) = match read_named_numbers(cp, data, at, 26) {
            None => return Err(RomResourceError::UnableToRead),
            Some(x) => x,
        };
        let details = HumanRecord::from_values(&values);
        let (items_wearing, e) = read_worn_items(cp, data, p)?;
        proof {
            lemma_worn_items_bounds(cp@, data@, p as int, WORN_SLOTS as nat);
        }
        Ok((HumanInfo { name, details, items_wearing }, e))
    }
}

/// The worn-item list of a human holds at most one name per slot, and ends
/// neither before it starts nor past the data.
pub proof fn lemma_worn_items_bounds(cp: Seq<char>, data: Seq<u8>, at: int, slots: nat)
    requires
        0 <= at <= data.len(),
    ensures
        worn_items(cp, data, at, slots) matches Some((items, e)) ==> at <= e <= data.len()
            && items.len() <= slots,
    decreases slots,
{
    if slots > 0 {
        match slot_outcome(cp, data, at) {
            Some(SlotModel::Empty(n)) => lemma_worn_items_bounds(cp, data, n, (slots - 1) as nat),
            Some(SlotModel::Item(t, n, more)) => if more {
                lemma_worn_items_bounds(cp, data, n, (slots - 1) as nat);
            },
            _ => {},
        }
    }
}

/// One monster unit, with its description.
#[derive(Debug, Clone, PartialEq, Eq)]
pub struct UnitInfo {
    pub name: String,
    pub details: UnitRecord,
    pub textual_info: String,
}

impl Record for UnitInfo {
    open spec fn fits(cp: Seq<char>, data: Seq<u8>, at: int) -> bool {
        &&& text_fits(data, name_start(data, at))
        &&& has_bytes(data, numbers_start(data, at), 220)
        &&& text_fits(data, numbers_start(data, at) + 220)
    }

    open spec fn end(cp: Seq<char>, data: Seq<u8>, at: int) -> int {
        text_end(data, numbers_start(data, at) + 220)
    }

    open spec fn stored_at(&self, cp: Seq<char>, data: Seq<u8>, at: int) -> bool {
        &&& self.name@ == text_at(cp, data, name_start(data, at))
        &&& self.details.fields() == i32s_at(data, numbers_start(data, at), 55)
        &&& self.textual_info@ == text_at(cp, data, numbers_start(data, at) + 220)
    }

    fn read(cp: &Codepage, data: &[u8], at: usize) -> (r: Result<(UnitInfo, usize), RomResourceError>) {
        let (name, values, p) = match read_named_numbers(cp, data, at, 55) {
            None => return Err(RomResourceError::UnableToRead),
            Some(x) => x,
        };
        let details = UnitRecord::from_values(&values);
        let (textual_info, e) = match read_text(cp, data, p) {
            None => return Err(RomResourceError::UnableToRead),
            Some(x) => x,
        };
        Ok((UnitInfo { name, details, textual_info }, e))
    }
}

/// A slot whose string names the next human leaves the cursor exactly the
/// string's length plus its one length byte before the end of that string.
pub proof fn lemma_next_record_rewinds(cp: Seq<char>, data: Seq<u8>, at: int)
    ensures
        slot_outcome(cp, data, at) matches Some(SlotModel::NextRecord(p)) ==> {
            &&& names_next_record(text_at(cp, data, at))
            &&& p == text_end(data, at) - (data[at] + 1)
        },
{
}

} // verus!
