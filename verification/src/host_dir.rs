//! The deterministic in-memory host directory: stored paths, a byte quota,
//! and the port operations over them.
use vstd::prelude::*;
use crate::find::segments;
use crate::text::{lemma_text_order, str_eq, str_lt, text_lt};

verus! {

/// What a directory entry is.
#[derive(Clone, Copy, Debug, PartialEq, Eq, Structural)]
pub enum HostEntryKind {
    File,
    Directory,
}

/// One row of a listing or the answer to a metadata query.
#[derive(Clone, Debug, PartialEq, Eq)]
pub struct HostEntry {
    pub name: String,
    pub kind: HostEntryKind,
    pub len: u64,
}

/// Mathematical form of a [`HostEntry`].
pub struct HostEntryView {
    pub name: Seq<char>,
    pub kind: HostEntryKind,
    pub len: u64,
}

impl View for HostEntry {
    type V = HostEntryView;

    open spec fn view(&self) -> HostEntryView {
        HostEntryView { name: self.name@, kind: self.kind, len: self.len }
    }
}

/// Why a host-directory operation was refused.
#[derive(Clone, Copy, Debug, PartialEq, Eq, Structural)]
pub enum HostDirErrorKind {
    Escape,
    NotFound,
    AlreadyExists,
    SpecialFile,
    QuotaExceeded,
    Cancelled,
    Malformed,
    Native,
}

/// A refused host-directory operation.
#[derive(Clone, Debug, PartialEq, Eq)]
pub struct HostDirError {
    pub kind: HostDirErrorKind,
    pub message: String,
}

/// `r` is a refusal of `kind` with `message`.
pub open spec fn refused<T>(r: Result<T, HostDirError>, kind: HostDirErrorKind, message: Seq<char>) -> bool {
    r matches Err(e) && e.kind == kind && e.message@ == message
}

fn host_error(kind: HostDirErrorKind, message: &str) -> (e: HostDirError)
    ensures
        e.kind == kind,
        e.message@ == message@,
{
    HostDirError { kind, message: String::from_str(message) }
}

/// What is stored at a path.
pub enum StoredView {
    File(Seq<u8>),
    Directory,
}

/// The number of bytes stored for `v`.
pub open spec fn stored_len(v: StoredView) -> nat {
    match v {
        StoredView::File(b) => b.len(),
        StoredView::Directory => 0,
    }
}

/// The entry that metadata and listings report for `v` under `name`.
pub open spec fn entry_of(name: Seq<char>, v: StoredView) -> HostEntryView {
    match v {
        StoredView::File(b) => HostEntryView { name, kind: HostEntryKind::File, len: b.len() as u64 },
        StoredView::Directory => HostEntryView { name, kind: HostEntryKind::Directory, len: 0 },
    }
}

/// The bytes of the file stored at `k`, counted as zero for a directory or
/// an absent path.
pub open spec fn file_len(m: Map<Seq<Seq<char>>, StoredView>, k: Seq<Seq<char>>) -> nat {
    match m.get(k) {
        Some(StoredView::File(b)) => b.len(),
        _ => 0,
    }
}

/// The last segment of `path`, or nothing for the root.
pub open spec fn last_name(path: Seq<String>) -> Seq<char> {
    if path.len() == 0 {
        Seq::empty()
    } else {
        path.last()@
    }
}

/// `m` with a directory at `k`, unless something is stored there already.
pub open spec fn with_dir(m: Map<Seq<Seq<char>>, StoredView>, k: Seq<Seq<char>>) -> Map<
    Seq<Seq<char>>,
    StoredView,
> {
    if m.contains_key(k) {
        m
    } else {
        m.insert(k, StoredView::Directory)
    }
}

/// `key` is `base` or lies below it.
pub open spec fn under(key: Seq<Seq<char>>, base: Seq<Seq<char>>) -> bool {
    base.len() <= key.len() && key.take(base.len() as int) == base
}

enum Stored {
    File(Vec<u8>),
    Directory,
}

struct Slot {
    path: Vec<String>,
    stored: Stored,
}

spec fn stored_view(s: Stored) -> StoredView {
    match s {
        Stored::File(b) => StoredView::File(b@),
        Stored::Directory => StoredView::Directory,
    }
}

spec fn key_of(s: Slot) -> Seq<Seq<char>> {
    segments(s.path@)
}

spec fn slots_map(slots: Seq<Slot>) -> Map<Seq<Seq<char>>, StoredView>
    decreases slots.len(),
{
    if slots.len() == 0 {
        Map::empty()
    } else {
        slots_map(slots.drop_last()).insert(key_of(slots.last()), stored_view(slots.last().stored))
    }
}

spec fn keys_unique(slots: Seq<Slot>) -> bool {
    forall|i: int, j: int| 0 <= i < j < slots.len() ==> key_of(slots[i]) != key_of(slots[j])
}

spec fn used_of(slots: Seq<Slot>) -> nat
    decreases slots.len(),
{
    if slots.len() == 0 {
        0
    } else {
        used_of(slots.drop_last()) + stored_len(stored_view(slots.last().stored))
    }
}

proof fn lemma_slots_map(slots: Seq<Slot>)
    requires
        keys_unique(slots),
    ensures
        forall|i: int|
            0 <= i < slots.len() ==> #[trigger] slots_map(slots).get(key_of(slots[i])) == Some(
                stored_view(slots[i].stored),
            ),
        forall|k: Seq<Seq<char>>|
            #[trigger] slots_map(slots).contains_key(k) ==> exists|i: int|
                0 <= i < slots.len() && key_of(slots[i]) == k,
    decreases slots.len(),
{
    if slots.len() > 0 {
        let rest = slots.drop_last();
        assert forall|i: int, j: int| 0 <= i < j < rest.len() implies key_of(rest[i]) != key_of(
            rest[j],
        ) by {
            assert(rest[i] == slots[i] && rest[j] == slots[j]);
        }
        lemma_slots_map(rest);
        let last = slots.len() - 1;
        assert forall|i: int| 0 <= i < slots.len() implies #[trigger] slots_map(slots).get(
            key_of(slots[i]),
        ) == Some(stored_view(slots[i].stored)) by {
            if i < last {
                assert(rest[i] == slots[i]);
                assert(key_of(slots[i]) != key_of(slots[last]));
                assert(slots_map(rest).get(key_of(rest[i])) == Some(stored_view(rest[i].stored)));
            }
        }
        assert forall|k: Seq<Seq<char>>| #[trigger] slots_map(slots).contains_key(k) implies exists|i: int|
            0 <= i < slots.len() && key_of(slots[i]) == k by {
            if k == key_of(slots[last]) {
                assert(key_of(slots[last]) == k);
            } else {
                assert(slots_map(rest).contains_key(k));
                let i = choose|i: int| 0 <= i < rest.len() && key_of(rest[i]) == k;
                assert(rest[i] == slots[i]);
            }
        }
    }
}

proof fn lemma_used_remove(slots: Seq<Slot>, i: int)
    requires
        0 <= i < slots.len(),
    ensures
        used_of(slots) == used_of(slots.remove(i)) + stored_len(stored_view(slots[i].stored)),
    decreases slots.len(),
{
    if i < slots.len() - 1 {
        let rest = slots.drop_last();
        lemma_used_remove(rest, i);
        assert(slots.remove(i).drop_last() =~= rest.remove(i));
        assert(slots.remove(i).last() == slots.last());
        assert(rest[i] == slots[i]);
    } else {
        assert(slots.remove(i) =~= slots.drop_last());
    }
}

proof fn lemma_used_update(slots: Seq<Slot>, i: int, s: Slot)
    requires
        0 <= i < slots.len(),
    ensures
        used_of(slots.update(i, s)) + stored_len(stored_view(slots[i].stored)) == used_of(slots)
            + stored_len(stored_view(s.stored)),
    decreases slots.len(),
{
    if i < slots.len() - 1 {
        let rest = slots.drop_last();
        lemma_used_update(rest, i, s);
        assert(slots.update(i, s).drop_last() =~= rest.update(i, s));
        assert(rest[i] == slots[i]);
    } else {
        assert(slots.update(i, s).drop_last() =~= slots.drop_last());
    }
}

proof fn lemma_used_take(slots: Seq<Slot>, i: int)
    requires
        0 <= i <= slots.len(),
    ensures
        used_of(slots.take(i)) <= used_of(slots),
    decreases slots.len(),
{
    if i < slots.len() {
        let rest = slots.drop_last();
        lemma_used_take(rest, i);
        assert(rest.take(i) =~= slots.take(i));
    } else {
        assert(slots.take(i) =~= slots);
    }
}

proof fn lemma_unique_update(slots: Seq<Slot>, i: int, s: Slot)
    requires
        0 <= i < slots.len(),
        keys_unique(slots),
        key_of(s) == key_of(slots[i]),
    ensures
        keys_unique(slots.update(i, s)),
        slots_map(slots.update(i, s)) == slots_map(slots).insert(key_of(s), stored_view(s.stored)),
{
    let new = slots.update(i, s);
    assert forall|a: int, b: int| 0 <= a < b < new.len() implies key_of(new[a]) != key_of(new[b]) by {
        assert(key_of(new[a]) == key_of(slots[a]));
        assert(key_of(new[b]) == key_of(slots[b]));
    }
    lemma_slots_map(slots);
    lemma_slots_map(new);
    let m = slots_map(slots).insert(key_of(s), stored_view(s.stored));
    assert forall|k: Seq<Seq<char>>| #[trigger] slots_map(new).contains_key(k) <==> m.contains_key(k) by {
        if slots_map(new).contains_key(k) {
            let j = choose|j: int| 0 <= j < new.len() && key_of(new[j]) == k;
            if j != i {
                assert(slots_map(slots).get(key_of(slots[j])) == Some(stored_view(slots[j].stored)));
            }
        }
        if m.contains_key(k) && k != key_of(s) {
            let j = choose|j: int| 0 <= j < slots.len() && key_of(slots[j]) == k;
            assert(new[j] == slots[j]);
            assert(slots_map(new).get(key_of(new[j])) == Some(stored_view(new[j].stored)));
        }
        if k == key_of(s) {
            assert(slots_map(new).get(key_of(new[i])) == Some(stored_view(new[i].stored)));
        }
    }
    assert forall|k: Seq<Seq<char>>| #[trigger] slots_map(new).contains_key(k) implies slots_map(new)[k]
        == m[k] by {
        let j = choose|j: int| 0 <= j < new.len() && key_of(new[j]) == k;
        assert(slots_map(new).get(key_of(new[j])) == Some(stored_view(new[j].stored)));
        if j != i {
            assert(new[j] == slots[j]);
            assert(slots_map(slots).get(key_of(slots[j])) == Some(stored_view(slots[j].stored)));
        }
    }
    assert(slots_map(new) =~= m);
}

proof fn lemma_unique_push(slots: Seq<Slot>, s: Slot)
    requires
        keys_unique(slots),
        forall|i: int| 0 <= i < slots.len() ==> key_of(slots[i]) != key_of(s),
    ensures
        keys_unique(slots.push(s)),
        slots_map(slots.push(s)) == slots_map(slots).insert(key_of(s), stored_view(s.stored)),
        used_of(slots.push(s)) == used_of(slots) + stored_len(stored_view(s.stored)),
{
    let new = slots.push(s);
    assert(new.drop_last() =~= slots);
    assert forall|a: int, b: int| 0 <= a < b < new.len() implies key_of(new[a]) != key_of(new[b]) by {
        assert(new[a] == slots[a]);
        if b < slots.len() {
            assert(new[b] == slots[b]);
        }
    }
}

proof fn lemma_unique_remove(slots: Seq<Slot>, i: int)
    requires
        0 <= i < slots.len(),
        keys_unique(slots),
    ensures
        keys_unique(slots.remove(i)),
        slots_map(slots.remove(i)) == slots_map(slots).remove(key_of(slots[i])),
{
    let new = slots.remove(i);
    let k0 = key_of(slots[i]);
    assert forall|a: int, b: int| 0 <= a < b < new.len() implies key_of(new[a]) != key_of(new[b]) by {
        let a0 = if a < i { a } else { a + 1 };
        let b0 = if b < i { b } else { b + 1 };
        assert(new[a] == slots[a0]);
        assert(new[b] == slots[b0]);
    }
    lemma_slots_map(slots);
    lemma_slots_map(new);
    let m = slots_map(slots).remove(k0);
    assert forall|k: Seq<Seq<char>>| #[trigger] slots_map(new).contains_key(k) <==> m.contains_key(k) by {
        if slots_map(new).contains_key(k) {
            let j = choose|j: int| 0 <= j < new.len() && key_of(new[j]) == k;
            let j0 = if j < i { j } else { j + 1 };
            assert(new[j] == slots[j0]);
            assert(slots_map(slots).get(key_of(slots[j0])) == Some(stored_view(slots[j0].stored)));
        }
        if m.contains_key(k) {
            let j = choose|j: int| 0 <= j < slots.len() && key_of(slots[j]) == k;
            assert(j != i);
            let j1 = if j < i { j } else { j - 1 };
            assert(new[j1] == slots[j]);
            assert(slots_map(new).get(key_of(new[j1])) == Some(stored_view(new[j1].stored)));
        }
    }
    assert forall|k: Seq<Seq<char>>| #[trigger] slots_map(new).contains_key(k) implies slots_map(new)[k]
        == m[k] by {
        let j = choose|j: int| 0 <= j < new.len() && key_of(new[j]) == k;
        let j0 = if j < i { j } else { j + 1 };
        assert(new[j] == slots[j0]);
        assert(slots_map(new).get(key_of(new[j])) == Some(stored_view(new[j].stored)));
        assert(slots_map(slots).get(key_of(slots[j0])) == Some(stored_view(slots[j0].stored)));
    }
    assert(slots_map(new) =~= m);
}

/// The rows are in strictly ascending order of name.
pub open spec fn names_ascending(rows: Seq<HostEntry>) -> bool {
    forall|i: int, j: int| 0 <= i < j < rows.len() ==> text_lt(rows[i].name@, rows[j].name@)
}

/// `key` names a child of `base`: one segment longer and below it.
pub open spec fn child_of(key: Seq<Seq<char>>, base: Seq<Seq<char>>) -> bool {
    key.len() == base.len() + 1 && under(key, base)
}

fn insert_sorted(rows: &mut Vec<HostEntry>, e: HostEntry)
    requires
        names_ascending(old(rows)@),
        forall|i: int| 0 <= i < old(rows)@.len() ==> #[trigger] old(rows)@[i].name@ != e.name@,
    ensures
        names_ascending(final(rows)@),
        forall|x: HostEntry| #[trigger] final(rows)@.contains(x) <==> old(rows)@.contains(x) || x == e,
{
    let mut p: usize = 0;
    while p < rows.len()
        invariant
            names_ascending(rows@),
            rows@ == old(rows)@,
            p <= rows@.len(),
            forall|i: int| 0 <= i < rows@.len() ==> #[trigger] rows@[i].name@ != e.name@,
            forall|q: int| 0 <= q < p ==> text_lt(#[trigger] rows@[q].name@, e.name@),
        ensures
            p < rows@.len() ==> text_lt(e.name@, rows@[p as int].name@),
        decreases rows@.len() - p,
    {
        if str_lt(e.name.as_str(), rows[p].name.as_str()) {
            break;
        }
        proof {
            lemma_text_order(e.name@, rows@[p as int].name@, e.name@);
        }
        p = p + 1;
    }
    let ghost before = rows@;
    proof {
        if p < before.len() {
            assert(text_lt(e.name@, before[p as int].name@));
        }
    }
    rows.insert(p, e);
    proof {
        let after = rows@;
        assert forall|i: int, j: int| 0 <= i < j < after.len() implies text_lt(
            after[i].name@,
            after[j].name@,
        ) by {
            if j < p {
                assert(after[i] == before[i] && after[j] == before[j]);
            } else if j == p {
                assert(after[i] == before[i]);
            } else if i < p {
                assert(after[i] == before[i] && after[j] == before[j - 1]);
                lemma_text_order(before[i].name@, e.name@, before[p as int].name@);
                if j - 1 > p {
                    lemma_text_order(before[i].name@, before[p as int].name@, before[j - 1].name@);
                }
            } else if i == p {
                assert(after[j] == before[j - 1]);
                if j - 1 > p {
                    lemma_text_order(e.name@, before[p as int].name@, before[j - 1].name@);
                }
            } else {
                assert(after[i] == before[i - 1] && after[j] == before[j - 1]);
            }
        }
        assert forall|x: HostEntry| #[trigger] after.contains(x) <==> before.contains(x) || x == e by {
            if after.contains(x) {
                let i = choose|i: int| 0 <= i < after.len() && after[i] == x;
                if i < p {
                    assert(before[i] == x);
                } else if i > p {
                    assert(before[i - 1] == x);
                }
            }
            if before.contains(x) {
                let i = choose|i: int| 0 <= i < before.len() && before[i] == x;
                if i < p {
                    assert(after[i] == x);
                } else {
                    assert(after[i + 1] == x);
                }
            }
            if x == e {
                assert(after[p as int] == x);
            }
        }
    }
}

fn same_path(a: &Vec<String>, b: &Vec<String>) -> (r: bool)
    ensures
        r == (segments(a@) == segments(b@)),
{
    if a.len() != b.len() {
        assert(segments(a@).len() != segments(b@).len());
        return false;
    }
    for i in 0..a.len()
        invariant
            a@.len() == b@.len(),
            forall|j: int| 0 <= j < i ==> a@[j]@ == b@[j]@,
    {
        if !str_eq(a[i].as_str(), b[i].as_str()) {
            assert(segments(a@)[i as int] != segments(b@)[i as int]);
            return false;
        }
    }
    assert(segments(a@) =~= segments(b@));
    true
}

fn is_under(key: &Vec<String>, base: &Vec<String>) -> (r: bool)
    ensures
        r == under(segments(key@), segments(base@)),
{
    if base.len() > key.len() {
        return false;
    }
    for i in 0..base.len()
        invariant
            base@.len() <= key@.len(),
            forall|j: int| 0 <= j < i ==> key@[j]@ == base@[j]@,
    {
        if !str_eq(key[i].as_str(), base[i].as_str()) {
            assert(segments(key@).take(base@.len() as int)[i as int] != segments(base@)[i as int]);
            return false;
        }
    }
    assert(segments(key@).take(base@.len() as int) =~= segments(base@));
    true
}

fn clone_path(p: &Vec<String>) -> (r: Vec<String>)
    ensures
        segments(r@) == segments(p@),
{
    let mut out: Vec<String> = Vec::new();
    for i in 0..p.len()
        invariant
            segments(out@) == segments(p@.take(i as int)),
    {
        let ghost before = out@;
        let s = p[i].clone();
        assert(s@ == p@[i as int]@);
        out.push(s);
        assert(segments(out@) =~= segments(before).push(p@[i as int]@));
        assert(segments(p@.take(i + 1)) =~= segments(p@.take(i as int)).push(p@[i as int]@));
    }
    assert(p@.take(p@.len() as int) =~= p@);
    out
}

fn position(slots: &Vec<Slot>, path: &Vec<String>) -> (r: Option<usize>)
    ensures
        match r {
            Some(i) => i < slots@.len() && key_of(slots@[i as int]) == segments(path@),
            None => forall|i: int| 0 <= i < slots@.len() ==> key_of(#[trigger] slots@[i]) != segments(path@),
        },
{
    for i in 0..slots.len()
        invariant
            forall|j: int| 0 <= j < i ==> key_of(#[trigger] slots@[j]) != segments(path@),
    {
        if same_path(&slots[i].path, path) {
            return Some(i);
        }
    }
    None
}

fn used_bytes(slots: &Vec<Slot>, quota: u64) -> (r: u64)
    requires
        used_of(slots@) <= quota,
    ensures
        r == used_of(slots@),
{
    let mut sum: u64 = 0;
    for i in 0..slots.len()
        invariant
            used_of(slots@) <= quota,
            sum == used_of(slots@.take(i as int)),
    {
        proof {
            assert(slots@.take(i + 1).drop_last() =~= slots@.take(i as int));
            lemma_used_take(slots@, i + 1);
        }
        match &slots[i].stored {
            Stored::File(b) => {
                sum = sum + b.len() as u64;
            },
            Stored::Directory => {},
        }
    }
    assert(slots@.take(slots@.len() as int) =~= slots@);
    sum
}

/// The stored paths of a mount with its byte quota. Paths are taken as
/// already validated and joined to the mount's prefix; the sum of the file
/// lengths never exceeds the quota.
pub struct HostDirModel {
    slots: Vec<Slot>,
    quota: u64,
}

impl View for HostDirModel {
    type V = Map<Seq<Seq<char>>, StoredView>;

    closed spec fn view(&self) -> Map<Seq<Seq<char>>, StoredView> {
        slots_map(self.slots@)
    }
}

impl HostDirModel {
    #[verifier::type_invariant]
    spec fn well_formed(&self) -> bool {
        keys_unique(self.slots@) && used_of(self.slots@) <= self.quota
    }

    /// The byte quota.
    pub closed spec fn quota(&self) -> nat {
        self.quota as nat
    }

    /// The bytes held by files.
    pub closed spec fn used(&self) -> nat {
        used_of(self.slots@)
    }

    /// An empty mount with a byte quota.
    pub fn new(quota: u64) -> (r: HostDirModel)
        ensures
            r@ == Map::<Seq<Seq<char>>, StoredView>::empty(),
            r.quota() == quota,
            r.used() == 0,
    {
        HostDirModel { slots: Vec::new(), quota }
    }

    /// The entries directly inside `dir`, in ascending order of name.
    pub fn list(&self, dir: &Vec<String>) -> (r: Vec<HostEntry>)
        ensures
            names_ascending(r@),
            forall|i: int|
                0 <= i < r@.len() ==> (#[trigger] self@.get(segments(dir@).push(r@[i].name@)) matches Some(v)
                    && r@[i]@ == entry_of(r@[i].name@, v)),
            forall|name: Seq<char>|
                #[trigger] self@.contains_key(segments(dir@).push(name)) ==> exists|i: int|
                    0 <= i < r@.len() && #[trigger] r@[i].name@ == name,
    {
        proof {
            use_type_invariant(self);
            lemma_slots_map(self.slots@);
        }
        let ghost base = segments(dir@);
        let ghost slots = self.slots@;
        let mut rows: Vec<HostEntry> = Vec::new();
        for i in 0..self.slots.len()
            invariant
                slots == self.slots@,
                keys_unique(slots),
                base == segments(dir@),
                names_ascending(rows@),
                forall|x: HostEntry|
                    #[trigger] rows@.contains(x) ==> exists|j: int|
                        0 <= j < i && #[trigger] key_of(slots[j]) == base.push(x.name@) && x@
                            == entry_of(x.name@, stored_view(slots[j].stored)),
                forall|j: int|
                    0 <= j < i && child_of(key_of(#[trigger] slots[j]), base) ==> exists|x: HostEntry|
                        #[trigger] rows@.contains(x) && x.name@ == key_of(slots[j]).last(),
        {
            let path = &self.slots[i].path;
            if path.len() > dir.len() && path.len() - 1 == dir.len() && is_under(path, dir) {
                let name = path[path.len() - 1].clone();
                let (kind, len) = match &self.slots[i].stored {
                    Stored::File(b) => (HostEntryKind::File, b.len() as u64),
                    Stored::Directory => (HostEntryKind::Directory, 0),
                };
                let e = HostEntry { name, kind, len };
                let ghost k = key_of(slots[i as int]);
                proof {
                    assert(k =~= base.push(e.name@));
                    assert forall|q: int| 0 <= q < rows@.len() implies #[trigger] rows@[q].name@
                        != e.name@ by {
                        let x = rows@[q];
                        assert(rows@.contains(x));
                        let j = choose|j: int|
                            0 <= j < i && #[trigger] key_of(slots[j]) == base.push(x.name@) && x@
                                == entry_of(x.name@, stored_view(slots[j].stored));
                        if x.name@ == e.name@ {
                            assert(key_of(slots[j]) == k);
                        }
                    }
                }
                let ghost rows_before = rows@;
                insert_sorted(&mut rows, e);
                proof {
                    assert forall|x: HostEntry| #[trigger] rows@.contains(x) implies exists|j: int|
                        0 <= j < i + 1 && #[trigger] key_of(slots[j]) == base.push(x.name@) && x@
                            == entry_of(x.name@, stored_view(slots[j].stored)) by {
                        if x == e {
                            assert(key_of(slots[i as int]) == base.push(x.name@));
                        } else {
                            assert(rows_before.contains(x));
                        }
                    }
                    assert forall|j: int|
                        0 <= j < i + 1 && child_of(key_of(#[trigger] slots[j]), base) implies exists|
                            x: HostEntry,
                        | #[trigger] rows@.contains(x) && x.name@ == key_of(slots[j]).last() by {
                        if j == i {
                            assert(rows@.contains(e));
                        } else {
                            let x = choose|x: HostEntry|
                                #[trigger] rows_before.contains(x) && x.name@ == key_of(slots[j]).last();
                            assert(rows@.contains(x));
                        }
                    }
                }
            } else {
                proof {
                    assert(!child_of(key_of(slots[i as int]), base));
                }
            }
        }
        proof {
            assert forall|i: int| 0 <= i < rows@.len() implies (#[trigger] self@.get(
                base.push(rows@[i].name@),
            ) matches Some(v) && rows@[i]@ == entry_of(rows@[i].name@, v)) by {
                let x = rows@[i];
                assert(rows@.contains(x));
                let j = choose|j: int|
                    0 <= j < slots.len() && #[trigger] key_of(slots[j]) == base.push(x.name@) && x@
                        == entry_of(x.name@, stored_view(slots[j].stored));
                assert(self@.get(key_of(slots[j])) == Some(stored_view(slots[j].stored)));
            }
            assert forall|name: Seq<char>| #[trigger] self@.contains_key(base.push(name)) implies exists|
                i: int,
            | 0 <= i < rows@.len() && #[trigger] rows@[i].name@ == name by {
                let j = choose|j: int| 0 <= j < slots.len() && key_of(slots[j]) == base.push(name);
                assert(child_of(key_of(slots[j]), base)) by {
                    assert(base.push(name).take(base.len() as int) =~= base);
                }
                let x = choose|x: HostEntry|
                    #[trigger] rows@.contains(x) && x.name@ == key_of(slots[j]).last();
                let i = choose|i: int| 0 <= i < rows@.len() && rows@[i] == x;
                assert(rows@[i].name@ == name);
            }
        }
        rows
    }

    /// The entry at `path`, named after its last segment, or `None`.
    pub fn metadata(&self, path: &Vec<String>) -> (r: Option<HostEntry>)
        ensures
            match self@.get(segments(path@)) {
                Some(v) => r matches Some(e) && e@ == entry_of(last_name(path@), v),
                None => r is None,
            },
    {
        proof {
            use_type_invariant(self);
            lemma_slots_map(self.slots@);
        }
        match position(&self.slots, path) {
            Some(i) => {
                let name = if path.len() == 0 {
                    String::new()
                } else {
                    path[path.len() - 1].clone()
                };
                let (kind, len) = match &self.slots[i].stored {
                    Stored::File(b) => (HostEntryKind::File, b.len() as u64),
                    Stored::Directory => (HostEntryKind::Directory, 0),
                };
                Some(HostEntry { name, kind, len })
            },
            None => None,
        }
    }

    /// Writes `bytes` as the file at `path`, in place of whatever was stored
    /// there. A cancelled write is refused first; then a write that would
    /// take the bytes held past the quota.
    pub fn replace(&mut self, path: &Vec<String>, bytes: &[u8], cancelled: bool) -> (r: Result<
        (),
        HostDirError,
    >)
        ensures
            final(self).quota() == old(self).quota(),
            final(self).used() <= final(self).quota(),
            if cancelled {
                refused(r, HostDirErrorKind::Cancelled, "write cancelled"@) && *final(self) == *old(
                    self,
                )
            } else if old(self).used() - file_len(old(self)@, segments(path@)) + bytes@.len() > old(
                self,
            ).quota() {
                refused(r, HostDirErrorKind::QuotaExceeded, "storage quota exceeded"@)
                    && *final(self) == *old(self)
            } else {
                &&& r is Ok
                &&& final(self)@ == old(self)@.insert(segments(path@), StoredView::File(bytes@))
                &&& final(self).used() == old(self).used() - file_len(old(self)@, segments(path@))
                    + bytes@.len()
            },
    {
        proof {
            use_type_invariant(&*self);
            lemma_slots_map(self.slots@);
        }
        if cancelled {
            return Err(host_error(HostDirErrorKind::Cancelled, "write cancelled"));
        }
        let used = used_bytes(&self.slots, self.quota);
        let pos = position(&self.slots, path);
        let previous: u64 = match pos {
            Some(i) => match &self.slots[i].stored {
                Stored::File(b) => b.len() as u64,
                Stored::Directory => 0,
            },
            None => 0,
        };
        proof {
            match pos {
                Some(i) => {
                    assert(self@.get(key_of(self.slots@[i as int])) == Some(
                        stored_view(self.slots@[i as int].stored),
                    ));
                    lemma_used_remove(self.slots@, i as int);
                },
                None => {
                    if self@.contains_key(segments(path@)) {
                        let j = choose|j: int|
                            0 <= j < self.slots@.len() && key_of(self.slots@[j]) == segments(path@);
                        assert(key_of(self.slots@[j]) != segments(path@));
                    }
                },
            }
            assert(previous == file_len(self@, segments(path@)));
        }
        let rest = used - previous;
        let over = match rest.checked_add(bytes.len() as u64) {
            Some(total) => total > self.quota,
            None => true,
        };
        if over {
            return Err(host_error(HostDirErrorKind::QuotaExceeded, "storage quota exceeded"));
        }
        let slot = Slot { path: clone_path(path), stored: Stored::File(vstd::slice::slice_to_vec(bytes)) };
        let mut slots: Vec<Slot> = Vec::new();
        std::mem::swap(&mut slots, &mut self.slots);
        let ghost before = slots@;
        match pos {
            Some(i) => {
                proof {
                    lemma_unique_update(before, i as int, slot);
                    lemma_used_update(before, i as int, slot);
                }
                slots.set(i, slot);
            },
            None => {
                proof {
                    lemma_unique_push(before, slot);
                }
                slots.push(slot);
            },
        }
        self.slots = slots;
        Ok(())
    }

    /// Removes the file at `path`; a directory is kept and refused as a
    /// special file, an absent path refused as not found.
    pub fn remove_file(&mut self, path: &Vec<String>) -> (r: Result<(), HostDirError>)
        ensures
            final(self).quota() == old(self).quota(),
            final(self).used() <= final(self).quota(),
            match old(self)@.get(segments(path@)) {
                Some(StoredView::File(b)) => {
                    &&& r is Ok
                    &&& final(self)@ == old(self)@.remove(segments(path@))
                    &&& final(self).used() == old(self).used() - b.len()
                },
                Some(StoredView::Directory) => refused(
                    r,
                    HostDirErrorKind::SpecialFile,
                    "entry is a directory"@,
                ) && *final(self) == *old(self),
                None => refused(r, HostDirErrorKind::NotFound, "entry not found"@) && *final(self)
                    == *old(self),
            },
    {
        proof {
            use_type_invariant(&*self);
            lemma_slots_map(self.slots@);
        }
        match position(&self.slots, path) {
            Some(i) => {
                proof {
                    assert(self@.get(key_of(self.slots@[i as int])) == Some(
                        stored_view(self.slots@[i as int].stored),
                    ));
                }
                let is_dir = match &self.slots[i].stored {
                    Stored::Directory => true,
                    Stored::File(_) => false,
                };
                if is_dir {
                    return Err(host_error(HostDirErrorKind::SpecialFile, "entry is a directory"));
                }
                let mut slots: Vec<Slot> = Vec::new();
                std::mem::swap(&mut slots, &mut self.slots);
                let ghost before = slots@;
                proof {
                    lemma_unique_remove(before, i as int);
                    lemma_used_remove(before, i as int);
                }
                let _removed = slots.remove(i);
                self.slots = slots;
                Ok(())
            },
            None => {
                proof {
                    if self@.contains_key(segments(path@)) {
                        let j = choose|j: int|
                            0 <= j < self.slots@.len() && key_of(self.slots@[j]) == segments(path@);
                        assert(key_of(self.slots@[j]) != segments(path@));
                    }
                }
                Err(host_error(HostDirErrorKind::NotFound, "entry not found"))
            },
        }
    }

    /// Makes `path` a directory unless something is stored there already.
    pub fn create_dir(&mut self, path: &Vec<String>)
        ensures
            final(self).quota() == old(self).quota(),
            final(self).used() == old(self).used(),
            final(self).used() <= final(self).quota(),
            final(self)@ == with_dir(old(self)@, segments(path@)),
    {
        proof {
            use_type_invariant(&*self);
            lemma_slots_map(self.slots@);
        }
        match position(&self.slots, path) {
            Some(i) => {
                proof {
                    assert(self@.get(key_of(self.slots@[i as int])) == Some(
                        stored_view(self.slots@[i as int].stored),
                    ));
                }
            },
            None => {
                proof {
                    if self@.contains_key(segments(path@)) {
                        let j = choose|j: int|
                            0 <= j < self.slots@.len() && key_of(self.slots@[j]) == segments(path@);
                        assert(key_of(self.slots@[j]) != segments(path@));
                    }
                }
                let slot = Slot { path: clone_path(path), stored: Stored::Directory };
                let mut slots: Vec<Slot> = Vec::new();
                std::mem::swap(&mut slots, &mut self.slots);
                proof {
                    lemma_unique_push(slots@, slot);
                }
                slots.push(slot);
                self.slots = slots;
            },
        }
    }

    /// Removes the directory at `path` with everything below it; a path that
    /// holds no directory is refused as not found.
    pub fn remove_dir_all(&mut self, path: &Vec<String>) -> (r: Result<(), HostDirError>)
        ensures
            final(self).quota() == old(self).quota(),
            final(self).used() <= old(self).used(),
            final(self).used() <= final(self).quota(),
            if old(self)@.get(segments(path@)) == Some(StoredView::Directory) {
                &&& r is Ok
                &&& forall|k: Seq<Seq<char>>|
                    #[trigger] final(self)@.contains_key(k) <==> old(self)@.contains_key(k) && !under(
                        k,
                        segments(path@),
                    )
                &&& forall|k: Seq<Seq<char>>|
                    #[trigger] final(self)@.contains_key(k) ==> final(self)@[k] == old(self)@[k]
            } else {
                refused(r, HostDirErrorKind::NotFound, "directory not found"@) && *final(self)
                    == *old(self)
            },
    {
        proof {
            use_type_invariant(&*self);
            lemma_slots_map(self.slots@);
        }
        let is_dir = match position(&self.slots, path) {
            Some(i) => {
                proof {
                    assert(self@.get(key_of(self.slots@[i as int])) == Some(
                        stored_view(self.slots@[i as int].stored),
                    ));
                }
                match &self.slots[i].stored {
                    Stored::Directory => true,
                    Stored::File(_) => false,
                }
            },
            None => {
                proof {
                    if self@.contains_key(segments(path@)) {
                        let j = choose|j: int|
                            0 <= j < self.slots@.len() && key_of(self.slots@[j]) == segments(path@);
                        assert(key_of(self.slots@[j]) != segments(path@));
                    }
                }
                false
            },
        };
        if !is_dir {
            return Err(host_error(HostDirErrorKind::NotFound, "directory not found"));
        }
        let ghost base = segments(path@);
        let ghost all = self.slots@;
        let ghost total = self.used();
        let mut rest: Vec<Slot> = Vec::new();
        std::mem::swap(&mut rest, &mut self.slots);
        let mut kept: Vec<Slot> = Vec::new();
        let ghost mut origin: Seq<int> = Seq::empty();
        while rest.len() > 0
            invariant
                keys_unique(all),
                used_of(all) == total,
                base == segments(path@),
                rest@ == all.take(rest@.len() as int),
                rest@.len() <= all.len(),
                keys_unique(kept@),
                used_of(kept@) + used_of(rest@) <= total,
                origin.len() == kept@.len(),
                forall|j: int|
                    0 <= j < kept@.len() ==> rest@.len() <= #[trigger] origin[j] < all.len()
                        && kept@[j] == all[origin[j]] && !under(key_of(all[origin[j]]), base),
                forall|t: int|
                    rest@.len() <= t < all.len() && !under(key_of(#[trigger] all[t]), base) ==> exists|
                        j: int,
                    | 0 <= j < origin.len() && #[trigger] origin[j] == t,
            decreases rest@.len(),
        {
            let ghost n = rest@.len() - 1;
            let ghost before = rest@;
            assert(before.drop_last() =~= all.take(n));
            assert(before.last() == all[n]);
            let slot = rest.pop().unwrap();
            assert(slot == all[n]);
            assert(rest@ =~= all.take(n));
            if !is_under(&slot.path, path) {
                proof {
                    assert forall|j: int| 0 <= j < kept@.len() implies key_of(kept@[j]) != key_of(
                        slot,
                    ) by {
                        let t = origin[j];
                        assert(key_of(all[n]) != key_of(all[t]));
                    }
                    lemma_unique_push(kept@, slot);
                }
                let ghost origin_before = origin;
                kept.push(slot);
                proof {
                    origin = origin.push(n);
                    assert forall|j: int| 0 <= j < kept@.len() implies rest@.len() <= #[trigger] origin[j]
                        < all.len() && kept@[j] == all[origin[j]] && !under(key_of(all[origin[j]]), base) by {
                        if j < origin_before.len() {
                            assert(origin[j] == origin_before[j]);
                        }
                    }
                    assert forall|t: int|
                        rest@.len() <= t < all.len() && !under(key_of(#[trigger] all[t]), base) implies exists|
                            j: int,
                        | 0 <= j < origin.len() && #[trigger] origin[j] == t by {
                        if t == n {
                            assert(origin[origin_before.len() as int] == t);
                        } else {
                            let j = choose|j: int| 0 <= j < origin_before.len() && #[trigger] origin_before[j] == t;
                            assert(origin[j] == t);
                        }
                    }
                }
            } else {
                proof {
                    assert forall|t: int|
                        rest@.len() <= t < all.len() && !under(key_of(#[trigger] all[t]), base) implies exists|
                            j: int,
                        | 0 <= j < origin.len() && #[trigger] origin[j] == t by {
                        assert(t != n);
                    }
                }
            }
        }
        proof {
            assert(all.take(0) =~= Seq::<Slot>::empty());
            lemma_slots_map(all);
            lemma_slots_map(kept@);
            let old_map = slots_map(all);
            let new_map = slots_map(kept@);
            assert forall|k: Seq<Seq<char>>| #[trigger] new_map.contains_key(k) <==> old_map.contains_key(k)
                && !under(k, base) by {
                if new_map.contains_key(k) {
                    let j = choose|j: int| 0 <= j < kept@.len() && key_of(kept@[j]) == k;
                    let t = origin[j];
                    assert(old_map.get(key_of(all[t])) == Some(stored_view(all[t].stored)));
                }
                if old_map.contains_key(k) && !under(k, base) {
                    let t = choose|t: int| 0 <= t < all.len() && key_of(all[t]) == k;
                    assert(!under(key_of(all[t]), base));
                    let j = choose|j: int| 0 <= j < origin.len() && #[trigger] origin[j] == t;
                    assert(new_map.get(key_of(kept@[j])) == Some(stored_view(kept@[j].stored)));
                }
            }
            assert forall|k: Seq<Seq<char>>| #[trigger] new_map.contains_key(k) implies new_map[k]
                == old_map[k] by {
                let j = choose|j: int| 0 <= j < kept@.len() && key_of(kept@[j]) == k;
                let t = origin[j];
                assert(new_map.get(key_of(kept@[j])) == Some(stored_view(kept@[j].stored)));
                assert(old_map.get(key_of(all[t])) == Some(stored_view(all[t].stored)));
            }
        }
        self.slots = kept;
        Ok(())
    }

    /// The bytes of the file at `path`; a directory is refused as a special
    /// file and an absent path as not found.
    pub fn read(&self, path: &Vec<String>) -> (r: Result<Vec<u8>, HostDirError>)
        ensures
            match self@.get(segments(path@)) {
                Some(StoredView::File(b)) => r matches Ok(v) && v@ == b,
                Some(StoredView::Directory) => refused(
                    r,
                    HostDirErrorKind::SpecialFile,
                    "entry is a directory"@,
                ),
                None => refused(r, HostDirErrorKind::NotFound, "entry not found"@),
            },
    {
        proof {
            use_type_invariant(self);
            lemma_slots_map(self.slots@);
        }
        match position(&self.slots, path) {
            Some(i) => match &self.slots[i].stored {
                Stored::File(b) => Ok(b.clone()),
                Stored::Directory => Err(host_error(HostDirErrorKind::SpecialFile, "entry is a directory")),
            },
            None => Err(host_error(HostDirErrorKind::NotFound, "entry not found")),
        }
    }
}

/// A read after an accepted write gives back the bytes written, and every
/// other path reads as it did before the write.
pub proof fn law_read_gives_back_write(
    before: Map<Seq<Seq<char>>, StoredView>,
    k: Seq<Seq<char>>,
    bytes: Seq<u8>,
    other: Seq<Seq<char>>,
)
    ensures
        before.insert(k, StoredView::File(bytes)).get(k) == Some(StoredView::File(bytes)),
        other != k ==> before.insert(k, StoredView::File(bytes)).get(other) == before.get(other),
{
}

/// Making a directory twice leaves the mount as making it once.
pub proof fn law_create_dir_is_idempotent(m: Map<Seq<Seq<char>>, StoredView>, k: Seq<Seq<char>>)
    ensures
        with_dir(with_dir(m, k), k) == with_dir(m, k),
{
}

} // verus!
