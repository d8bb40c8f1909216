use vstd::prelude::*;
use crate::bytes::{has_bytes, le_u32, read_u32_le};
use crate::codepage::{decode_text, push_char, Codepage};
use crate::error::RomResourceError;
use crate::paths::{lemma_less_irreflexive, path_less, sorted_paths, string_views};

verus! {

/// Magic number at the start of every container.
pub const SIGNATURE: u32 = 0x3141_5926;

/// Length of the container header: the magic number and five fields.
pub const HEADER_LEN: u64 = 24;

/// Length of one allocation-table row: four reserved bytes, offset, size,
/// kind, and the name buffer.
pub const ROW_LEN: u64 = 0x20;

/// Length of the fields before a row's name: reserved, offset, size, kind.
pub const ROW_FIELDS_LEN: u64 = 16;

/// Length of the fixed name buffer at the end of a row.
pub const NAME_LEN: u64 = 16;

/// One allocation-table row, as a value.
pub struct RowModel {
    pub offset: int,
    pub size: int,
    pub is_dir: bool,
    pub name: Seq<char>,
}

/// Number of bytes of the name buffer at `at` before its first zero byte.
pub open spec fn name_len(data: Seq<u8>, at: int, k: int) -> int
    decreases NAME_LEN - k,
{
    if k >= NAME_LEN || data[at + k] == 0 {
        k
    } else {
        name_len(data, at, k + 1)
    }
}

/// The row whose bytes start at `at`.
pub open spec fn row_at(cp: Seq<char>, data: Seq<u8>, at: int) -> RowModel {
    RowModel {
        offset: le_u32(data, at + 4),
        size: le_u32(data, at + 8),
        is_dir: le_u32(data, at + 12) == 1,
        name: decode_text(cp, data.subrange(at + 16, at + 16 + name_len(data, at + 16, 0))),
    }
}

/// The first `n` rows of the table at `fat_offset`, or the error met while
/// reading them in order.
pub open spec fn table_rows(cp: Seq<char>, data: Seq<u8>, fat_offset: int, n: nat) -> Result<
    Seq<RowModel>,
    RomResourceError,
>
    decreases n,
{
    if n == 0 {
        Ok(Seq::empty())
    } else {
        match table_rows(cp, data, fat_offset, (n - 1) as nat) {
            Err(e) => Err(e),
            Ok(rows) => {
                let at = fat_offset + (n - 1) * ROW_LEN;
                if !has_bytes(data, at, ROW_FIELDS_LEN as int) {
                    Err(RomResourceError::UnableToRead)
                } else if le_u32(data, at + 12) > 1 {
                    Err(RomResourceError::UnknownResourceKind)
                } else if !has_bytes(data, at, ROW_LEN as int) {
                    Err(RomResourceError::UnableToRead)
                } else {
                    Ok(rows.push(row_at(cp, data, at)))
                }
            },
        }
    }
}

/// In-memory form of one allocation-table row.
pub struct TableRow {
    pub offset: u32,
    pub size: u32,
    pub is_dir: bool,
    pub name: String,
}

impl TableRow {
    pub open spec fn model(&self) -> RowModel {
        RowModel {
            offset: self.offset as int,
            size: self.size as int,
            is_dir: self.is_dir,
            name: self.name@,
        }
    }
}

pub open spec fn rows_model(rows: Seq<TableRow>) -> Seq<RowModel> {
    rows.map_values(|r: TableRow| r.model())
}

/// Reads the row at `at`, in order: the fields, then the name buffer. A
/// kind other than file or directory is refused before the name is needed.
fn read_row(cp: &Codepage, data: &[u8], at: u64) -> (r: Result<TableRow, RomResourceError>)
    ensures
        !has_bytes(data@, at as int, ROW_FIELDS_LEN as int) ==> r == Err::<TableRow, _>(
            RomResourceError::UnableToRead,
        ),
        has_bytes(data@, at as int, ROW_FIELDS_LEN as int) && le_u32(data@, at + 12) > 1 ==> r
            == Err::<TableRow, _>(RomResourceError::UnknownResourceKind),
        has_bytes(data@, at as int, ROW_FIELDS_LEN as int) && le_u32(data@, at + 12) <= 1
            && !has_bytes(data@, at as int, ROW_LEN as int) ==> r == Err::<TableRow, _>(
            RomResourceError::UnableToRead,
        ),
        has_bytes(data@, at as int, ROW_LEN as int) && le_u32(data@, at + 12) <= 1 ==> (r matches Ok(
            row,
        ) && row.model() == row_at(cp@, data@, at as int)),
{
    if at > data.len() as u64 || (data.len() as u64) - at < ROW_FIELDS_LEN {
        return Err(RomResourceError::UnableToRead);
    }
    let p = at as usize;
    assert(p + 16 <= data@.len());
    let offset = read_u32_le(data, p + 4).unwrap();
    let size = read_u32_le(data, p + 8).unwrap();
    let kind = read_u32_le(data, p + 12).unwrap();
    if kind > 1 {
        return Err(RomResourceError::UnknownResourceKind);
    }
    if (data.len() as u64) - at < ROW_LEN {
        return Err(RomResourceError::UnableToRead);
    }
    assert(p + 32 <= data@.len());
    let name_at = p + 16;
    let len = data.len();
    let mut k: usize = 0;
    while k < 16 && data[name_at + k] != 0
        invariant
            0 <= k <= 16,
            len == data@.len(),
            name_at + 16 <= data@.len(),
            name_len(data@, name_at as int, k as int) == name_len(data@, name_at as int, 0),
        decreases 16 - k,
    {
        k = k + 1;
    }
    let name = cp.decode(data, name_at, name_at + k);
    Ok(TableRow { offset, size, is_dir: kind == 1, name })
}

proof fn lemma_table_rows_error_sticks(cp: Seq<char>, data: Seq<u8>, fat_offset: int, m: nat, n: nat)
    requires
        m <= n,
        table_rows(cp, data, fat_offset, m) is Err,
    ensures
        table_rows(cp, data, fat_offset, n) == table_rows(cp, data, fat_offset, m),
    decreases n,
{
    if m < n {
        lemma_table_rows_error_sticks(cp, data, fat_offset, m, (n - 1) as nat);
    }
}

/// Reads `n` rows from `fat_offset` on.
fn read_table(cp: &Codepage, data: &[u8], fat_offset: u32, n: u32) -> (r: Result<
    Vec<TableRow>,
    RomResourceError,
>)
    ensures
        match table_rows(cp@, data@, fat_offset as int, n as nat) {
            Ok(rows) => r matches Ok(v) && rows_model(v@) == rows,
            Err(e) => r == Err::<Vec<TableRow>, _>(e),
        },
{
    let mut rows: Vec<TableRow> = Vec::new();
    let mut i: u32 = 0;
    assert(rows_model(rows@) =~= Seq::<RowModel>::empty());
    while i < n
        invariant
            i <= n,
            table_rows(cp@, data@, fat_offset as int, i as nat) == Ok::<_, RomResourceError>(
                rows_model(rows@),
            ),
        decreases n - i,
    {
        let at = fat_offset as u64 + i as u64 * ROW_LEN;
        let row = read_row(cp, data, at);
        match row {
            Err(e) => {
                proof {
                    lemma_table_rows_error_sticks(cp@, data@, fat_offset as int, (i + 1) as nat, n as nat);
                }
                return Err(e);
            },
            Ok(row) => {
                let ghost before = rows@;
                let ghost m = row.model();
                rows.push(row);
                assert(rows_model(rows@) =~= rows_model(before).push(m));
            },
        }
        i = i + 1;
    }
    Ok(rows)
}

/// Queue items `(prefix, first)`, `(prefix, first + 1)`, ... for `n` rows.
pub open spec fn children(prefix: Seq<char>, first: int, n: int) -> Seq<(Seq<char>, int)> {
    Seq::new(n as nat, |k: int| (prefix, first + k))
}

/// Breadth-first reconstruction of the path index. Each queue item is a
/// path prefix and a row number. A directory row queues its children under
/// its own name and a slash; a file row registers its path with the
/// half-open byte range it covers. At most `fuel` items are taken: a tree
/// whose rows are each reached once never needs more than the table's
/// length.
pub open spec fn walk(
    rows: Seq<RowModel>,
    queue: Seq<(Seq<char>, int)>,
    index: Map<Seq<char>, (int, int)>,
    fuel: nat,
) -> Result<Map<Seq<char>, (int, int)>, RomResourceError>
    decreases fuel,
{
    if queue.len() == 0 {
        Ok(index)
    } else if fuel == 0 {
        Err(RomResourceError::MalformedTree)
    } else {
        let prefix = queue[0].0;
        let i = queue[0].1;
        if i < 0 || i >= rows.len() {
            Err(RomResourceError::MalformedTree)
        } else {
            let row = rows[i];
            let path = prefix + row.name;
            if row.is_dir {
                walk(
                    rows,
                    queue.drop_first() + children(path.push('/'), row.offset, row.size),
                    index,
                    (fuel - 1) as nat,
                )
            } else {
                walk(
                    rows,
                    queue.drop_first(),
                    index.insert(path, (row.offset, row.offset + row.size)),
                    (fuel - 1) as nat,
                )
            }
        }
    }
}

/// A queue longer than the fuel left can never be emptied.
proof fn lemma_walk_overlong(
    rows: Seq<RowModel>,
    queue: Seq<(Seq<char>, int)>,
    index: Map<Seq<char>, (int, int)>,
    fuel: nat,
)
    requires
        queue.len() > fuel,
    ensures
        walk(rows, queue, index, fuel) == Err::<Map<Seq<char>, (int, int)>, _>(
            RomResourceError::MalformedTree,
        ),
    decreases fuel,
{
    if fuel > 0 {
        let prefix = queue[0].0;
        let i = queue[0].1;
        if 0 <= i < rows.len() {
            let row = rows[i];
            let path = prefix + row.name;
            if row.is_dir {
                lemma_walk_overlong(
                    rows,
                    queue.drop_first() + children(path.push('/'), row.offset, row.size),
                    index,
                    (fuel - 1) as nat,
                );
            } else {
                lemma_walk_overlong(
                    rows,
                    queue.drop_first(),
                    index.insert(path, (row.offset, row.offset + row.size)),
                    (fuel - 1) as nat,
                );
            }
        }
    }
}

/// A registered file: its path, its byte range in the stream, and its
/// payload once read.
pub struct FileEntry {
    pub path: String,
    pub start: u64,
    pub end: u64,
    pub data: Option<Vec<u8>>,
}

pub open spec fn paths_unique(e: Seq<FileEntry>) -> bool {
    forall|i: int, j: int|
        0 <= i < e.len() && 0 <= j < e.len() && i != j ==> #[trigger] e[i].path@ != #[trigger] e[j].path@
}

pub open spec fn has_path(e: Seq<FileEntry>, p: Seq<char>) -> bool {
    exists|i: int| 0 <= i < e.len() && #[trigger] e[i].path@ == p
}

/// The path index that a list of entries stands for.
pub open spec fn lookup_map(e: Seq<FileEntry>) -> Map<Seq<char>, (int, int)> {
    Map::new(
        |p: Seq<char>| has_path(e, p),
        |p: Seq<char>|
            {
                let i = choose|i: int| 0 <= i < e.len() && #[trigger] e[i].path@ == p;
                (e[i].start as int, e[i].end as int)
            },
    )
}

proof fn lemma_lookup_at(e: Seq<FileEntry>, j: int)
    requires
        paths_unique(e),
        0 <= j < e.len(),
    ensures
        lookup_map(e).contains_key(e[j].path@),
        lookup_map(e)[e[j].path@] == (e[j].start as int, e[j].end as int),
{
    let p = e[j].path@;
    assert(has_path(e, p));
    let i = choose|i: int| 0 <= i < e.len() && #[trigger] e[i].path@ == p;
    assert(i == j);
}

proof fn lemma_lookup_push(e: Seq<FileEntry>, n: FileEntry)
    requires
        paths_unique(e),
        !has_path(e, n.path@),
    ensures
        paths_unique(e.push(n)),
        lookup_map(e.push(n)) == lookup_map(e).insert(n.path@, (n.start as int, n.end as int)),
{
    let f = e.push(n);
    assert forall|i: int, j: int|
        0 <= i < f.len() && 0 <= j < f.len() && i != j implies #[trigger] f[i].path@ != #[trigger] f[j].path@ by {
        if i < e.len() && j < e.len() {
            assert(e[i].path@ != e[j].path@);
        } else if i < e.len() {
            assert(e[i].path@ != n.path@);
        } else {
            assert(e[j].path@ != n.path@);
        }
    }
    let m = lookup_map(e).insert(n.path@, (n.start as int, n.end as int));
    assert forall|p: Seq<char>| #[trigger] lookup_map(f).contains_key(p) == m.contains_key(p) by {
        if has_path(e, p) {
            let i = choose|i: int| 0 <= i < e.len() && #[trigger] e[i].path@ == p;
            assert(f[i].path@ == p);
        }
        if has_path(f, p) && p != n.path@ {
            let i = choose|i: int| 0 <= i < f.len() && #[trigger] f[i].path@ == p;
            assert(e[i].path@ == p);
        }
        assert(f[e.len() as int] == n);
    }
    assert forall|p: Seq<char>| #[trigger] lookup_map(f).contains_key(p) implies lookup_map(f)[p] == m[p] by {
        let i = choose|i: int| 0 <= i < f.len() && #[trigger] f[i].path@ == p;
        lemma_lookup_at(f, i);
        if i < e.len() {
            lemma_lookup_at(e, i);
        }
    }
    assert(lookup_map(f) =~= m);
}

proof fn lemma_lookup_update(e: Seq<FileEntry>, j: int, n: FileEntry)
    requires
        paths_unique(e),
        0 <= j < e.len(),
        e[j].path@ == n.path@,
    ensures
        paths_unique(e.update(j, n)),
        lookup_map(e.update(j, n)) == lookup_map(e).insert(n.path@, (n.start as int, n.end as int)),
{
    let f = e.update(j, n);
    assert forall|i: int, k: int|
        0 <= i < f.len() && 0 <= k < f.len() && i != k implies #[trigger] f[i].path@ != #[trigger] f[k].path@ by {
        assert(e[i].path@ != e[k].path@);
    }
    let m = lookup_map(e).insert(n.path@, (n.start as int, n.end as int));
    assert forall|p: Seq<char>| #[trigger] lookup_map(f).contains_key(p) == m.contains_key(p) by {
        if has_path(e, p) {
            let i = choose|i: int| 0 <= i < e.len() && #[trigger] e[i].path@ == p;
            assert(f[i].path@ == p);
        }
        if has_path(f, p) {
            let i = choose|i: int| 0 <= i < f.len() && #[trigger] f[i].path@ == p;
            assert(e[i].path@ == p);
        }
        assert(f[j].path@ == n.path@);
    }
    assert forall|p: Seq<char>| #[trigger] lookup_map(f).contains_key(p) implies lookup_map(f)[p] == m[p] by {
        let i = choose|i: int| 0 <= i < f.len() && #[trigger] f[i].path@ == p;
        lemma_lookup_at(f, i);
        lemma_lookup_at(e, i);
    }
    assert(lookup_map(f) =~= m);
}

/// Position of the entry registered under `path`, if any.
fn find_entry(entries: &Vec<FileEntry>, path: &String) -> (r: Option<usize>)
    ensures
        r is None <==> !has_path(entries@, path@),
        r matches Some(j) ==> j < entries@.len() && entries@[j as int].path@ == path@,
{
    let mut j: usize = 0;
    while j < entries.len()
        invariant
            j <= entries@.len(),
            forall|i: int| 0 <= i < j ==> #[trigger] entries@[i].path@ != path@,
        decreases entries@.len() - j,
    {
        if entries[j].path == *path {
            return Some(j);
        }
        j = j + 1;
    }
    None
}

pub open spec fn queue_model(q: Seq<(String, u64)>, head: int) -> Seq<(Seq<char>, int)> {
    q.subrange(head, q.len() as int).map_values(|x: (String, u64)| (x.0@, x.1 as int))
}

proof fn lemma_queue_push(q: Seq<(String, u64)>, head: int, x: (String, u64))
    requires
        0 <= head <= q.len(),
    ensures
        queue_model(q.push(x), head) == queue_model(q, head).push((x.0@, x.1 as int)),
{
    assert(q.push(x).subrange(head, q.len() + 1 as int) =~= q.subrange(head, q.len() as int).push(x));
    assert(queue_model(q.push(x), head) =~= queue_model(q, head).push((x.0@, x.1 as int)));
}

proof fn lemma_children_grow(done: Seq<(Seq<char>, int)>, prefix: Seq<char>, first: int, c: int)
    requires
        0 <= c,
    ensures
        (done + children(prefix, first, c)).push((prefix, first + c)) == done + children(prefix, first, c + 1),
{
    assert((done + children(prefix, first, c)).push((prefix, first + c)) =~= done + children(prefix, first, c + 1));
}

pub open spec fn roots(root_offset: int, root_size: int) -> Seq<(Seq<char>, int)> {
    children(Seq::empty(), root_offset, root_size)
}

/// Runs the breadth-first walk over `rows` from the `root_size` rows at
/// `root_offset`.
fn build_index(rows: &Vec<TableRow>, root_offset: u32, root_size: u32) -> (r: Result<
    Vec<FileEntry>,
    RomResourceError,
>)
    ensures
        match walk(
            rows_model(rows@),
            roots(root_offset as int, root_size as int),
            Map::empty(),
            rows@.len(),
        ) {
            Ok(m) => r matches Ok(v) && paths_unique(v@) && lookup_map(v@) == m && forall|i: int|
                0 <= i < v@.len() ==> (#[trigger] v@[i]).data is None && v@[i].start <= v@[i].end,
            Err(e) => r == Err::<Vec<FileEntry>, _>(e),
        },
{
    let ghost rm = rows_model(rows@);
    let ghost target = walk(rm, roots(root_offset as int, root_size as int), Map::empty(), rows@.len());
    if root_size as u64 > rows.len() as u64 {
        proof {
            lemma_walk_overlong(rm, roots(root_offset as int, root_size as int), Map::empty(), rows@.len());
        }
        return Err(RomResourceError::MalformedTree);
    }
    let mut queue: Vec<(String, u64)> = Vec::new();
    let mut k: u32 = 0;
    while k < root_size
        invariant
            k <= root_size,
            queue_model(queue@, 0) == children(Seq::empty(), root_offset as int, k as int),
        decreases root_size - k,
    {
        let ghost before = queue@;
        let item = (String::new(), root_offset as u64 + k as u64);
        let ghost gi = item;
        queue.push(item);
        proof {
            lemma_queue_push(before, 0, gi);
            lemma_children_grow(Seq::empty(), Seq::empty(), root_offset as int, k as int);
            assert(Seq::<(Seq<char>, int)>::empty() + children(Seq::empty(), root_offset as int, k as int)
                =~= children(Seq::empty(), root_offset as int, k as int));
            assert(Seq::<(Seq<char>, int)>::empty() + children(Seq::empty(), root_offset as int, k + 1)
                =~= children(Seq::empty(), root_offset as int, k + 1));
        }
        k = k + 1;
    }
    let mut entries: Vec<FileEntry> = Vec::new();
    let mut head: usize = 0;
    let mut fuel: usize = rows.len();
    assert(lookup_map(entries@) =~= Map::empty());
    while head < queue.len()
        invariant
            head <= queue@.len(),
            queue@.len() - head <= fuel <= rows@.len(),
            rm == rows_model(rows@),
            target == walk(rm, roots(root_offset as int, root_size as int), Map::empty(), rows@.len()),
            paths_unique(entries@),
            forall|i: int| 0 <= i < entries@.len() ==> (#[trigger] entries@[i]).data is None && entries@[i].start <= entries@[i].end,
            walk(rm, queue_model(queue@, head as int), lookup_map(entries@), fuel as nat) == target,
        decreases fuel,
    {
        let ghost qm = queue_model(queue@, head as int);
        let ghost fuel0 = fuel;
        let prefix = queue[head].0.clone();
        let row_id = queue[head].1;
        assert(qm[0] == (prefix@, row_id as int));
        head = head + 1;
        fuel = fuel - 1;
        assert(queue_model(queue@, head as int) =~= qm.drop_first());
        if row_id >= rows.len() as u64 {
            assert(walk(rm, qm, lookup_map(entries@), fuel0 as nat) == Err::<Map<Seq<char>, (int, int)>, _>(
                RomResourceError::MalformedTree,
            ));
            return Err(RomResourceError::MalformedTree);
        }
        let row = &rows[row_id as usize];
        let mut path = prefix;
        path.append(row.name.as_str());
        assert(path@ == qm[0].0 + rm[row_id as int].name);
        if row.is_dir {
            push_char(&mut path, '/');
            if row.size as u64 > (fuel - (queue.len() - head)) as u64 {
                proof {
                    lemma_walk_overlong(
                        rm,
                        qm.drop_first() + children(path@, row.offset as int, row.size as int),
                        lookup_map(entries@),
                        fuel as nat,
                    );
                }
                return Err(RomResourceError::MalformedTree);
            }
            let mut c: u32 = 0;
            assert(qm.drop_first() + children(path@, row.offset as int, 0) =~= qm.drop_first());
            while c < row.size
                invariant
                    c <= row.size,
                    head <= queue@.len(),
                    qm.len() >= 1,
                    queue_model(queue@, head as int) == qm.drop_first() + children(path@, row.offset as int, c as int),
                decreases row.size - c,
            {
                let ghost before = queue@;
                let item = (path.clone(), row.offset as u64 + c as u64);
                let ghost gi = item;
                queue.push(item);
                proof {
                    lemma_queue_push(before, head as int, gi);
                    lemma_children_grow(qm.drop_first(), path@, row.offset as int, c as int);
                }
                c = c + 1;
            }
        } else {
            let start = row.offset as u64;
            let end = row.offset as u64 + row.size as u64;
            let ghost pm = path@;
            let entry = FileEntry { path, start, end, data: None };
            match find_entry(&entries, &entry.path) {
                Some(j) => {
                    proof {
                        lemma_lookup_update(entries@, j as int, entry);
                    }
                    entries.set(j, entry);
                },
                None => {
                    proof {
                        lemma_lookup_push(entries@, entry);
                    }
                    entries.push(entry);
                },
            }
        }
    }
    Ok(entries)
}

/// What opening `data` yields: the path index, or the first error met while
/// reading the header, the allocation table, and then walking the tree.
pub open spec fn open_result(cp: Seq<char>, data: Seq<u8>) -> Result<
    Map<Seq<char>, (int, int)>,
    RomResourceError,
> {
    if !has_bytes(data, 0, 4) {
        Err(RomResourceError::UnableToRead)
    } else if le_u32(data, 0) != SIGNATURE {
        Err(RomResourceError::IncorrectSignature)
    } else if !has_bytes(data, 0, HEADER_LEN as int) {
        Err(RomResourceError::UnableToRead)
    } else {
        match table_rows(cp, data, le_u32(data, 16), le_u32(data, 20) as nat) {
            Err(e) => Err(e),
            Ok(rows) => walk(rows, roots(le_u32(data, 4), le_u32(data, 8)), Map::empty(), rows.len()),
        }
    }
}

/// Copies `data[start..end]`.
fn copy_range(data: &[u8], start: usize, end: usize) -> (r: Vec<u8>)
    requires
        start <= end <= data@.len(),
    ensures
        r@ == data@.subrange(start as int, end as int),
{
    let mut out: Vec<u8> = Vec::new();
    let mut i: usize = start;
    while i < end
        invariant
            start <= i <= end <= data@.len(),
            out@ == data@.subrange(start as int, i as int),
        decreases end - i,
    {
        out.push(data[i]);
        i = i + 1;
        assert(out@ =~= data@.subrange(start as int, i as int));
    }
    out
}

pub open spec fn bytes_view(r: Result<&[u8], RomResourceError>) -> Result<Seq<u8>, RomResourceError> {
    match r {
        Ok(b) => Ok(b@),
        Err(e) => Err(e),
    }
}

/// What a request for the bytes of `p` promises, from the container
/// `before` to the container `after`. The bytes are read from the stream
/// exactly when the path enters the cache.
pub open spec fn get_bytes_post(
    before: ResourceFile,
    p: Seq<char>,
    r: Result<Seq<u8>, RomResourceError>,
    after: ResourceFile,
) -> bool {
    &&& after.wf()
    &&& after.stream() == before.stream()
    &&& after.index() == before.index()
    &&& (r is Ok <==> before.resolves(p))
    &&& (r matches Ok(b) ==> b == before.bytes_of(p))
    &&& (!before.index().contains_key(p) ==> r == Err::<Seq<u8>, _>(
        RomResourceError::NonExistentResource,
    ))
    &&& (before.index().contains_key(p) && !before.resolves(p) ==> r == Err::<Seq<u8>, _>(
        RomResourceError::UnableToRead,
    ))
    &&& (r is Err || before.cached().contains(p) ==> after.cached() == before.cached())
    &&& (r is Ok ==> after.cached() == before.cached().insert(p))
}

/// What flushing the cache promises.
pub open spec fn flush_post(before: ResourceFile, after: ResourceFile) -> bool {
    &&& after.wf()
    &&& after.stream() == before.stream()
    &&& after.index() == before.index()
    &&& after.cached().is_empty()
}

/// A container opened over its bytes: the path index it holds and the
/// payloads read so far.
pub struct ResourceFile {
    stream: Vec<u8>,
    entries: Vec<FileEntry>,
}

impl ResourceFile {
    /// Paths are unique, each range is ordered, and a payload that was read
    /// holds exactly the bytes of its range.
    pub closed spec fn wf(&self) -> bool {
        &&& paths_unique(self.entries@)
        &&& forall|i: int|
            0 <= i < self.entries@.len() ==> {
                let e = #[trigger] self.entries@[i];
                &&& e.start <= e.end
                &&& e.data matches Some(d) ==> e.end <= self.stream@.len() && d@ == self.stream@.subrange(
                    e.start as int,
                    e.end as int,
                )
            }
    }

    /// The bytes of the container.
    pub closed spec fn stream(&self) -> Seq<u8> {
        self.stream@
    }

    /// Each registered file path with its half-open byte range.
    pub closed spec fn index(&self) -> Map<Seq<char>, (int, int)> {
        lookup_map(self.entries@)
    }

    /// The paths whose payload has been read and is held.
    pub closed spec fn cached(&self) -> Set<Seq<char>> {
        Set::new(
            |p: Seq<char>|
                exists|i: int|
                    0 <= i < self.entries@.len() && #[trigger] self.entries@[i].path@ == p
                        && self.entries@[i].data is Some,
        )
    }

    /// Whether `get_resource_bytes(p)` succeeds: `p` is registered and its
    /// range lies within the container.
    pub open spec fn resolves(&self, p: Seq<char>) -> bool {
        &&& self.index().contains_key(p)
        &&& self.index()[p].1 <= self.stream().len()
    }

    /// Every registered range lies within the container.
    pub open spec fn ranges_within(&self) -> bool {
        forall|p: Seq<char>| #[trigger] self.index().contains_key(p) ==> self.index()[p].1 <= self.stream().len()
    }

    /// Whether `list` holds each registered path, and nothing else, in
    /// strictly ascending order.
    pub open spec fn is_listing(&self, list: Seq<Seq<char>>) -> bool {
        &&& forall|i: int| 0 <= i < list.len() ==> self.index().contains_key(#[trigger] list[i])
        &&& forall|p: Seq<char>| #[trigger] self.index().contains_key(p) ==> list.contains(p)
        &&& forall|i: int, j: int| 0 <= i < j < list.len() ==> path_less(#[trigger] list[i], #[trigger] list[j])
    }

    /// The bytes registered under `p`.
    pub open spec fn bytes_of(&self, p: Seq<char>) -> Seq<u8> {
        self.stream().subrange(self.index()[p].0, self.index()[p].1)
    }

    /// Opens a container held in `stream`, decoding names with `codepage`.
    /// Checks the magic number, reads the allocation table and rebuilds the
    /// path index; no payload is read yet.
    pub fn new(stream: Vec<u8>, codepage: &Codepage) -> (r: Result<ResourceFile, RomResourceError>)
        ensures
            match open_result(codepage@, stream@) {
                Ok(m) => r matches Ok(f) && f.wf() && f.index() == m && f.stream() == stream@
                    && f.cached().is_empty(),
                Err(e) => r == Err::<ResourceFile, _>(e),
            },
    {
        let signature = match read_u32_le(stream.as_slice(), 0) {
            None => return Err(RomResourceError::UnableToRead),
            Some(v) => v,
        };
        if signature != SIGNATURE {
            return Err(RomResourceError::IncorrectSignature);
        }
        if (stream.len() as u64) < HEADER_LEN {
            return Err(RomResourceError::UnableToRead);
        }
        let root_offset = read_u32_le(stream.as_slice(), 4).unwrap();
        let root_size = read_u32_le(stream.as_slice(), 8).unwrap();
        let fat_offset = read_u32_le(stream.as_slice(), 16).unwrap();
        let fat_size = read_u32_le(stream.as_slice(), 20).unwrap();
        let rows = read_table(codepage, stream.as_slice(), fat_offset, fat_size)?;
        let entries = build_index(&rows, root_offset, root_size)?;
        let f = ResourceFile { stream, entries };
        assert(f.cached() =~= Set::empty());
        Ok(f)
    }

    /// Reads the payload of `path` into the cache unless it is there;
    /// returns the entry's position.
    fn ensure_resource_bytes(&mut self, path: &str) -> (r: Result<usize, RomResourceError>)
        requires
            old(self).wf(),
        ensures
            final(self).wf(),
            final(self).stream() == old(self).stream(),
            final(self).index() == old(self).index(),
            r is Ok <==> old(self).resolves(path@),
            r is Err ==> final(self).cached() == old(self).cached(),
            !old(self).index().contains_key(path@) ==> r == Err::<usize, _>(
                RomResourceError::NonExistentResource,
            ),
            old(self).index().contains_key(path@) && !old(self).resolves(path@) ==> r == Err::<
                usize,
                _,
            >(RomResourceError::UnableToRead),
            old(self).cached().contains(path@) ==> final(self).cached() == old(self).cached(),
            r is Ok ==> final(self).cached() == old(self).cached().insert(path@),
            r matches Ok(j) ==> j < final(self).entries@.len() && final(self).entries@[j as int].path@
                == path@ && final(self).entries@[j as int].data is Some,
    {
        let key = String::from_str(path);
        let j = match find_entry(&self.entries, &key) {
            None => {
                assert(!lookup_map(self.entries@).contains_key(path@));
                return Err(RomResourceError::NonExistentResource);
            },
            Some(j) => j,
        };
        proof {
            lemma_lookup_at(self.entries@, j as int);
        }
        if self.entries[j].data.is_some() {
            assert(self.cached() =~= self.cached().insert(path@));
            return Ok(j);
        }
        let start = self.entries[j].start;
        let end = self.entries[j].end;
        if end > self.stream.len() as u64 {
            return Err(RomResourceError::UnableToRead);
        }
        let bytes = copy_range(self.stream.as_slice(), start as usize, end as usize);
        let entry = FileEntry { path: self.entries[j].path.clone(), start, end, data: Some(bytes) };
        let ghost old_self = *self;
        proof {
            lemma_lookup_update(self.entries@, j as int, entry);
            assert(lookup_map(self.entries@).insert(path@, (start as int, end as int)) =~= lookup_map(
                self.entries@,
            ));
        }
        self.entries.set(j, entry);
        proof {
            assert forall|p: Seq<char>| #[trigger] self.cached().contains(p) == old_self.cached().insert(path@).contains(p) by {
                if old_self.cached().contains(p) {
                    let i = choose|i: int|
                        0 <= i < old_self.entries@.len() && #[trigger] old_self.entries@[i].path@ == p
                            && old_self.entries@[i].data is Some;
                    assert(self.entries@[i].path@ == p && self.entries@[i].data is Some);
                }
                if self.cached().contains(p) && p != path@ {
                    let i = choose|i: int|
                        0 <= i < self.entries@.len() && #[trigger] self.entries@[i].path@ == p
                            && self.entries@[i].data is Some;
                    assert(i != j);
                    assert(old_self.entries@[i].path@ == p && old_self.entries@[i].data is Some);
                }
                assert(self.entries@[j as int].path@ == path@);
            }
            assert(self.cached() =~= old_self.cached().insert(path@));
        }
        Ok(j)
    }

    /// The bytes of the file registered under `path`. The first call reads
    /// them from the stream and keeps them; later calls return what was
    /// kept, until `flush_cache`.
    pub fn get_resource_bytes(&mut self, path: &str) -> (r: Result<&[u8], RomResourceError>)
        requires
            old(self).wf(),
        ensures
            get_bytes_post(*old(self), path@, bytes_view(r), *final(self)),
    {
        let j = self.ensure_resource_bytes(path)?;
        proof {
            lemma_lookup_at(self.entries@, j as int);
        }
        Ok(self.entries[j].data.as_ref().unwrap().as_slice())
    }

    /// All registered file paths, in ascending order, each once.
    pub fn get_resource_list(&self) -> (r: Vec<String>)
        requires
            self.wf(),
        ensures
            self.is_listing(string_views(r@)),
    {
        let r = sorted_paths(&self.entries);
        proof {
            let v = string_views(r@);
            assert forall|i: int| 0 <= i < v.len() implies self.index().contains_key(#[trigger] v[i]) by {
                assert(v[i] == r@[i]@);
            }
            assert forall|p: Seq<char>| #[trigger] self.index().contains_key(p) implies v.contains(p) by {
                let i = choose|i: int| 0 <= i < r@.len() && r@[i]@ == p;
                assert(v[i] == p);
            }
            assert forall|i: int, j: int| 0 <= i < j < v.len() implies path_less(#[trigger] v[i], #[trigger] v[j]) by {
                assert(v[i] == r@[i]@ && v[j] == r@[j]@);
            }
        }
        r
    }

    /// Drops every payload read so far; the index stays.
    pub fn flush_cache(&mut self)
        requires
            old(self).wf(),
        ensures
            flush_post(*old(self), *final(self)),
    {
        let mut j: usize = 0;
        while j < self.entries.len()
            invariant
                j <= self.entries@.len(),
                self.wf(),
                self.stream() == old(self).stream(),
                self.index() == old(self).index(),
                forall|i: int| 0 <= i < j ==> (#[trigger] self.entries@[i]).data is None,
            decreases self.entries@.len() - j,
        {
            if self.entries[j].data.is_some() {
                let entry = FileEntry {
                    path: self.entries[j].path.clone(),
                    start: self.entries[j].start,
                    end: self.entries[j].end,
                    data: None,
                };
                proof {
                    lemma_lookup_at(self.entries@, j as int);
                    lemma_lookup_update(self.entries@, j as int, entry);
                    assert(lookup_map(self.entries@).insert(entry.path@, (entry.start as int, entry.end as int))
                        =~= lookup_map(self.entries@));
                }
                self.entries.set(j, entry);
            }
            j = j + 1;
        }
        assert(self.cached() =~= Set::empty());
    }

    /// Whether the payload of `path` is held.
    pub fn is_cached(&self, path: &str) -> (r: bool)
        requires
            self.wf(),
        ensures
            r == self.cached().contains(path@),
    {
        let key = String::from_str(path);
        match find_entry(&self.entries, &key) {
            None => false,
            Some(j) => {
                proof {
                    if self.cached().contains(path@) {
                        let i = choose|i: int|
                            0 <= i < self.entries@.len() && #[trigger] self.entries@[i].path@ == path@
                                && self.entries@[i].data is Some;
                        assert(i == j);
                    }
                }
                self.entries[j].data.is_some()
            },
        }
    }
}

/// In a well-formed container every registered range is ordered, so its
/// length is the row's size, and every cached path resolves.
pub proof fn lemma_ranges_and_cache(f: ResourceFile)
    requires
        f.wf(),
    ensures
        forall|p: Seq<char>| #[trigger] f.index().contains_key(p) ==> f.index()[p].0 <= f.index()[p].1,
        forall|p: Seq<char>| #[trigger] f.cached().contains(p) ==> f.resolves(p),
{
    assert forall|p: Seq<char>| #[trigger] f.index().contains_key(p) implies f.index()[p].0 <= f.index()[p].1 by {
        let i = choose|i: int| 0 <= i < f.entries@.len() && #[trigger] f.entries@[i].path@ == p;
        lemma_lookup_at(f.entries@, i);
    }
    assert forall|p: Seq<char>| #[trigger] f.cached().contains(p) implies f.resolves(p) by {
        let i = choose|i: int|
            0 <= i < f.entries@.len() && #[trigger] f.entries@[i].path@ == p && f.entries@[i].data is Some;
        lemma_lookup_at(f.entries@, i);
    }
}

/// The listing of a container whose ranges all lie within it holds no path
/// twice, and the bytes of every listed path can be had.
pub proof fn lemma_listed_paths_resolve(f: ResourceFile, list: Seq<Seq<char>>)
    requires
        f.wf(),
        f.ranges_within(),
        f.is_listing(list),
    ensures
        list.no_duplicates(),
        forall|i: int| 0 <= i < list.len() ==> f.resolves(#[trigger] list[i]),
{
    assert forall|i: int, j: int| 0 <= i < list.len() && 0 <= j < list.len() && i != j implies list[i] != list[j] by {
        lemma_less_irreflexive(list[i]);
        if i < j {
            assert(path_less(list[i], list[j]));
        } else {
            assert(path_less(list[j], list[i]));
        }
    }
    assert forall|i: int| 0 <= i < list.len() implies f.resolves(#[trigger] list[i]) by {
        assert(f.index().contains_key(list[i]));
    }
}

/// Until the cache is flushed, asking twice for the same path gives the
/// same result, and the second request reads nothing from the stream.
pub proof fn lemma_repeated_request(
    f0: ResourceFile,
    p: Seq<char>,
    r1: Result<Seq<u8>, RomResourceError>,
    f1: ResourceFile,
    r2: Result<Seq<u8>, RomResourceError>,
    f2: ResourceFile,
)
    requires
        f0.wf(),
        get_bytes_post(f0, p, r1, f1),
        get_bytes_post(f1, p, r2, f2),
    ensures
        r1 == r2,
        f2.cached() == f1.cached(),
{
    if r1 is Ok {
        assert(f1.cached().contains(p));
    }
}

/// After a flush, the first request for a path reads it from the stream
/// and the second does not; both give its bytes.
pub proof fn lemma_request_after_flush(
    f0: ResourceFile,
    f1: ResourceFile,
    p: Seq<char>,
    r2: Result<Seq<u8>, RomResourceError>,
    f2: ResourceFile,
    r3: Result<Seq<u8>, RomResourceError>,
    f3: ResourceFile,
)
    requires
        f0.wf(),
        f0.resolves(p),
        flush_post(f0, f1),
        get_bytes_post(f1, p, r2, f2),
        get_bytes_post(f2, p, r3, f3),
    ensures
        !f1.cached().contains(p),
        f2.cached() == f1.cached().insert(p),
        f3.cached() == f2.cached(),
        r2 == Ok::<Seq<u8>, RomResourceError>(f0.bytes_of(p)),
        r3 == r2,
{
    assert(f2.cached().contains(p));
}

} // verus!
