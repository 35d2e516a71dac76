//! The style registry. A manager deduplicates sheets by a structural content
//! hash over their scope-neutral rendering, keeps one reference-counted entry
//! per hash with the generated class name and the rendered CSS, and tells its
//! caller exactly when the hosting runtime has to mount or unmount a
//! stylesheet: exactly once per entry, outside the registry itself.
use crate::ast::{Sheet, SpecSheet};
use crate::render::{render, sp_render_sheet};
use vstd::prelude::*;

verus! {

/// One step of the FNV-1a hash over the characters of `s` from index `i` on.
pub open spec fn sp_fnv1a(s: Seq<char>, i: int, acc: u64) -> u64
    decreases s.len() - i,
{
    if 0 <= i < s.len() {
        sp_fnv1a(
            s,
            i + 1,
            vstd::wrapping::u64_specs::wrapping_mul(acc ^ (s[i] as u64), 0x100000001b3),
        )
    } else {
        acc
    }
}

/// The structural content hash of a sheet: FNV-1a over its rendering under
/// the scope placeholder marker, so sheets with identical models always hash
/// alike, whatever class they are later scoped to.
pub open spec fn sp_sheet_key(v: SpecSheet) -> u64 {
    sp_fnv1a(sp_render_sheet(v, "&"@), 0, 0xcbf29ce484222325)
}

/// One lower-case hex digit (`d` taken modulo 16 conceptually; callers pass
/// `d < 16`).
pub open spec fn sp_hex_digit(d: u64) -> Seq<char> {
    if d == 0 {
        "0"@
    } else if d == 1 {
        "1"@
    } else if d == 2 {
        "2"@
    } else if d == 3 {
        "3"@
    } else if d == 4 {
        "4"@
    } else if d == 5 {
        "5"@
    } else if d == 6 {
        "6"@
    } else if d == 7 {
        "7"@
    } else if d == 8 {
        "8"@
    } else if d == 9 {
        "9"@
    } else if d == 10 {
        "a"@
    } else if d == 11 {
        "b"@
    } else if d == 12 {
        "c"@
    } else if d == 13 {
        "d"@
    } else if d == 14 {
        "e"@
    } else {
        "f"@
    }
}

/// The last `digits` lower-case hex digits of `k`, most significant first.
pub open spec fn sp_hex(k: u64, digits: int) -> Seq<char>
    decreases digits,
{
    if digits <= 0 {
        Seq::empty()
    } else {
        sp_hex(k / 16, digits - 1) + sp_hex_digit(k % 16)
    }
}

/// The generated class name for a key under a manager prefix.
pub open spec fn sp_class_name(prefix: Seq<char>, key: u64) -> Seq<char> {
    prefix + "-"@ + sp_hex(key, 16)
}

fn hex_digit_str(d: u64) -> (r: &'static str)
    ensures
        r@ == sp_hex_digit(d),
{
    match d {
        0 => "0",
        1 => "1",
        2 => "2",
        3 => "3",
        4 => "4",
        5 => "5",
        6 => "6",
        7 => "7",
        8 => "8",
        9 => "9",
        10 => "a",
        11 => "b",
        12 => "c",
        13 => "d",
        14 => "e",
        _ => "f",
    }
}

fn hex_u64(k: u64, digits: u64) -> (r: String)
    ensures
        r@ == sp_hex(k, digits as int),
    decreases digits,
{
    if digits == 0 {
        String::new()
    } else {
        let mut s = hex_u64(k / 16, digits - 1);
        s.append(hex_digit_str(k % 16));
        s
    }
}

fn fnv1a(s: &str) -> (r: u64)
    ensures
        r == sp_fnv1a(s@, 0, 0xcbf29ce484222325),
{
    let len = s.unicode_len();
    let mut acc: u64 = 0xcbf29ce484222325;
    let mut i: usize = 0;
    while i < len
        invariant
            0 <= i <= len,
            len == s@.len(),
            sp_fnv1a(s@, 0, 0xcbf29ce484222325) == sp_fnv1a(s@, i as int, acc),
        decreases len - i,
    {
        let c = s.get_char(i);
        acc = (acc ^ (c as u64)).wrapping_mul(0x100000001b3);
        i = i + 1;
    }
    acc
}

/// The structural content hash of a sheet.
pub fn sheet_key(sheet: &Sheet) -> (r: u64)
    ensures
        r == sp_sheet_key(sheet@),
{
    let css = render(sheet, "&");
    fnv1a(css.as_str())
}

fn class_name_of(prefix: &str, key: u64) -> (r: String)
    ensures
        r@ == sp_class_name(prefix@, key),
{
    let mut s = prefix.to_owned();
    s.append("-");
    let h = hex_u64(key, 16);
    s.append(h.as_str());
    s
}

/// An opaque reference to a registered entry: its content hash.
#[derive(Debug, Clone, Copy, PartialEq, Eq, Structural)]
pub struct Handle {
    pub key: u64,
}

/// A lookup on a handle whose entry no longer exists.
#[derive(Debug, Clone, Copy, PartialEq, Eq, Structural)]
pub enum RegistryError {
    NotFound,
}

/// What the hosting runtime has to mount: issued exactly once per new entry.
#[derive(Debug, Clone, PartialEq, Eq)]
pub struct MountRequest {
    pub class_name: String,
    pub css: String,
}

/// What the hosting runtime has to unmount: issued exactly once, when an
/// entry's reference count drops to zero.
#[derive(Debug, Clone, PartialEq, Eq)]
pub struct UnmountRequest {
    pub class_name: String,
}

/// One registry entry: content hash, generated class name, rendered CSS, and
/// the number of live registrations.
#[derive(Debug, PartialEq, Eq)]
pub struct RegistryEntry {
    pub key: u64,
    pub class_name: String,
    pub css: String,
    pub count: u64,
}

/// Ghost model of `MountRequest`.
#[verifier::ext_equal]
pub struct SpecMountRequest {
    pub class_name: Seq<char>,
    pub css: Seq<char>,
}

/// Ghost model of `RegistryEntry`.
#[verifier::ext_equal]
pub struct SpecRegistryEntry {
    pub key: u64,
    pub class_name: Seq<char>,
    pub css: Seq<char>,
    pub count: u64,
}

/// Ghost model of `StyleManager`.
#[verifier::ext_equal]
pub struct SpecManager {
    pub prefix: Seq<char>,
    pub entries: Seq<SpecRegistryEntry>,
}

impl View for MountRequest {
    type V = SpecMountRequest;

    open spec fn view(&self) -> SpecMountRequest {
        SpecMountRequest { class_name: self.class_name@, css: self.css@ }
    }
}

impl View for RegistryEntry {
    type V = SpecRegistryEntry;

    open spec fn view(&self) -> SpecRegistryEntry {
        SpecRegistryEntry {
            key: self.key,
            class_name: self.class_name@,
            css: self.css@,
            count: self.count,
        }
    }
}

/// The model of a mount request option.
pub open spec fn view_mount_opt(o: Option<MountRequest>) -> Option<SpecMountRequest> {
    match o {
        Some(q) => Some(q@),
        None => None,
    }
}

/// The model of an unmount request option: the unmounted class name.
pub open spec fn view_unmount_opt(o: Option<UnmountRequest>) -> Option<Seq<char>> {
    match o {
        Some(q) => Some(q.class_name@),
        None => None,
    }
}

/// The index of the first entry with the given key, or the length when no
/// entry has it.
pub open spec fn sp_find(entries: Seq<SpecRegistryEntry>, key: u64, i: int) -> int
    decreases entries.len() - i,
{
    if 0 <= i < entries.len() {
        if entries[i].key == key {
            i
        } else {
            sp_find(entries, key, i + 1)
        }
    } else {
        entries.len() as int
    }
}

/// `sp_find` returns the index of the first hit from `i` on, or the length.
pub proof fn lemma_sp_find(entries: Seq<SpecRegistryEntry>, key: u64, i: int)
    requires
        0 <= i <= entries.len(),
    ensures
        i <= sp_find(entries, key, i) <= entries.len(),
        sp_find(entries, key, i) < entries.len() ==> entries[sp_find(entries, key, i)].key
            == key,
        forall|j: int| i <= j < sp_find(entries, key, i) ==> entries[j].key != key,
    decreases entries.len() - i,
{
    if i < entries.len() && entries[i].key != key {
        lemma_sp_find(entries, key, i + 1);
    }
}

/// A well-formed registry: entry keys are unique, every reference count is at
/// least one, and every class name carries the manager's prefix and the
/// entry's key.
pub open spec fn sp_wf(m: SpecManager) -> bool {
    &&& forall|i: int, j: int|
        0 <= i < j < m.entries.len() ==> m.entries[i].key != m.entries[j].key
    &&& forall|i: int| 0 <= i < m.entries.len() ==> m.entries[i].count >= 1
    &&& forall|i: int|
        0 <= i < m.entries.len() ==> m.entries[i].class_name == sp_class_name(
            m.prefix,
            m.entries[i].key,
        )
}

/// The registration transition. If an entry for the sheet's content hash
/// exists, its reference count grows by one (saturating at the machine limit)
/// and nothing is mounted; otherwise a new entry with count one, a fresh class
/// name and the sheet's rendered CSS is appended, to be mounted exactly once.
pub open spec fn sp_register(m: SpecManager, v: SpecSheet) -> (SpecManager, Handle, Option<
    SpecMountRequest,
>) {
    let key = sp_sheet_key(v);
    let i = sp_find(m.entries, key, 0);
    if i < m.entries.len() {
        let e = m.entries[i];
        let e2 = SpecRegistryEntry {
            count: if e.count < u64::MAX {
                (e.count + 1) as u64
            } else {
                e.count
            },
            ..e
        };
        (SpecManager { entries: m.entries.update(i, e2), ..m }, Handle { key }, None)
    } else {
        let class_name = sp_class_name(m.prefix, key);
        let css = sp_render_sheet(v, class_name);
        (
            SpecManager {
                entries: m.entries.push(
                    SpecRegistryEntry { key, class_name, css, count: 1 },
                ),
                ..m
            },
            Handle { key },
            Some(SpecMountRequest { class_name, css }),
        )
    }
}

/// The unregistration transition. An unknown handle changes nothing; a known
/// one loses one reference; the entry whose last reference goes is removed
/// and its class name is handed back, to be unmounted exactly once.
pub open spec fn sp_unregister(m: SpecManager, h: Handle) -> (SpecManager, Option<Seq<char>>) {
    let i = sp_find(m.entries, h.key, 0);
    if i < m.entries.len() {
        let e = m.entries[i];
        if e.count <= 1 {
            (SpecManager { entries: m.entries.remove(i), ..m }, Some(e.class_name))
        } else {
            (
                SpecManager {
                    entries: m.entries.update(
                        i,
                        SpecRegistryEntry { count: (e.count - 1) as u64, ..e },
                    ),
                    ..m
                },
                None,
            )
        }
    } else {
        (m, None)
    }
}

/// The class name registered under a handle, or `NotFound`.
pub open spec fn sp_lookup_class(m: SpecManager, h: Handle) -> Result<Seq<char>, RegistryError> {
    let i = sp_find(m.entries, h.key, 0);
    if i < m.entries.len() {
        Ok(m.entries[i].class_name)
    } else {
        Err(RegistryError::NotFound)
    }
}

/// The CSS text registered under a handle, or `NotFound`.
pub open spec fn sp_lookup_css(m: SpecManager, h: Handle) -> Result<Seq<char>, RegistryError> {
    let i = sp_find(m.entries, h.key, 0);
    if i < m.entries.len() {
        Ok(m.entries[i].css)
    } else {
        Err(RegistryError::NotFound)
    }
}

/// A scoped style registry: deduplicates sheets by content hash and reference
/// counts the generated stylesheets. Independent managers are fully isolated;
/// a host that shares one among concurrent call sites guards it with its own
/// mutual exclusion and performs the returned mount and unmount requests
/// outside that critical section.
#[derive(Debug)]
pub struct StyleManager {
    pub prefix: String,
    pub entries: Vec<RegistryEntry>,
}

impl View for StyleManager {
    type V = SpecManager;

    open spec fn view(&self) -> SpecManager {
        SpecManager {
            prefix: self.prefix@,
            entries: self.entries@.map_values(|e: RegistryEntry| e@),
        }
    }
}

impl StyleManager {
    /// A well-formed manager: unique keys, counts at least one.
    pub open spec fn wf(&self) -> bool {
        sp_wf(self@)
    }

    /// An empty manager whose class names carry the given prefix.
    pub fn new(prefix: &str) -> (r: StyleManager)
        ensures
            r@.prefix == prefix@,
            r@.entries == Seq::<SpecRegistryEntry>::empty(),
            r.wf(),
    {
        let r = StyleManager { prefix: prefix.to_owned(), entries: Vec::new() };
        proof {
            assert(r@.entries =~= Seq::<SpecRegistryEntry>::empty());
        }
        r
    }

    fn find(&self, key: u64) -> (r: usize)
        ensures
            r as int == sp_find(self@.entries, key, 0),
    {
        let ghost es = self@.entries;
        let mut i: usize = 0;
        while i < self.entries.len()
            invariant
                0 <= i <= self.entries.len(),
                es == self@.entries,
                es.len() == self.entries.len(),
                forall|j: int| 0 <= j < es.len() ==> es[j] == self.entries[j]@,
                sp_find(es, key, 0) == sp_find(es, key, i as int),
            decreases self.entries.len() - i,
        {
            if self.entries[i].key == key {
                return i;
            }
            i = i + 1;
        }
        i
    }

    /// Registers a sheet: deduplicates by content hash, reference counts, and
    /// says when (and only when) the host has to mount a new stylesheet.
    pub fn register(&mut self, sheet: &Sheet) -> (r: (Handle, Option<MountRequest>))
        requires
            old(self).wf(),
        ensures
            final(self).wf(),
            (final(self)@, r.0, view_mount_opt(r.1)) == sp_register(old(self)@, sheet@),
    {
        let key = sheet_key(sheet);
        let idx = self.find(key);
        proof {
            lemma_sp_find(self@.entries, key, 0);
        }
        if idx < self.entries.len() {
            let mut e = self.entries.remove(idx);
            if e.count < u64::MAX {
                e.count = e.count + 1;
            }
            self.entries.insert(idx, e);
            proof {
                let (m2, h, mnt) = sp_register(old(self)@, sheet@);
                assert(final(self)@.entries =~= m2.entries);
                assert(final(self)@ =~= m2);
            }
            (Handle { key }, None)
        } else {
            let class_name = class_name_of(self.prefix.as_str(), key);
            let css = render(sheet, class_name.as_str());
            let entry = RegistryEntry {
                key,
                class_name: class_name.clone(),
                css: css.clone(),
                count: 1,
            };
            self.entries.push(entry);
            proof {
                let (m2, h, mnt) = sp_register(old(self)@, sheet@);
                assert(final(self)@.entries =~= m2.entries);
                assert(final(self)@ =~= m2);
            }
            (Handle { key }, Some(MountRequest { class_name, css }))
        }
    }

    /// Releases one reference. Unknown or already removed handles are a
    /// silent no-op; when the last reference goes, the entry is removed and
    /// the host is told to unmount its class.
    pub fn unregister(&mut self, h: Handle) -> (r: Option<UnmountRequest>)
        requires
            old(self).wf(),
        ensures
            final(self).wf(),
            (final(self)@, view_unmount_opt(r)) == sp_unregister(old(self)@, h),
    {
        let idx = self.find(h.key);
        proof {
            lemma_sp_find(self@.entries, h.key, 0);
        }
        if idx < self.entries.len() {
            let mut e = self.entries.remove(idx);
            if e.count <= 1 {
                proof {
                    let (m2, um) = sp_unregister(old(self)@, h);
                    assert(final(self)@.entries =~= m2.entries);
                    assert(final(self)@ =~= m2);
                }
                Some(UnmountRequest { class_name: e.class_name })
            } else {
                e.count = e.count - 1;
                self.entries.insert(idx, e);
                proof {
                    let (m2, um) = sp_unregister(old(self)@, h);
                    assert(final(self)@.entries =~= m2.entries);
                    assert(final(self)@ =~= m2);
                }
                None
            }
        } else {
            None
        }
    }

    /// The class name registered under a handle, or `NotFound` once the entry
    /// is gone.
    pub fn get_class_name(&self, h: Handle) -> (r: Result<String, RegistryError>)
        ensures
            match (r, sp_lookup_class(self@, h)) {
                (Ok(s), Ok(v)) => s@ == v,
                (Err(e), Err(v)) => e == v,
                _ => false,
            },
    {
        let idx = self.find(h.key);
        proof {
            lemma_sp_find(self@.entries, h.key, 0);
        }
        if idx < self.entries.len() {
            Ok(self.entries[idx].class_name.clone())
        } else {
            Err(RegistryError::NotFound)
        }
    }

    /// The test-isolation hook: removes every entry at once. The host is
    /// responsible for unmounting whatever it had mounted.
    pub fn clear(&mut self)
        ensures
            final(self)@.prefix == old(self)@.prefix,
            final(self)@.entries == Seq::<SpecRegistryEntry>::empty(),
            final(self).wf(),
    {
        self.entries = Vec::new();
        proof {
            assert(final(self)@.entries =~= Seq::<SpecRegistryEntry>::empty());
        }
    }

    /// The CSS text registered under a handle, or `NotFound` once the entry
    /// is gone.
    pub fn get_style_text(&self, h: Handle) -> (r: Result<String, RegistryError>)
        ensures
            match (r, sp_lookup_css(self@, h)) {
                (Ok(s), Ok(v)) => s@ == v,
                (Err(e), Err(v)) => e == v,
                _ => false,
            },
    {
        let idx = self.find(h.key);
        proof {
            lemma_sp_find(self@.entries, h.key, 0);
        }
        if idx < self.entries.len() {
            Ok(self.entries[idx].css.clone())
        } else {
            Err(RegistryError::NotFound)
        }
    }
}

impl Default for StyleManager {
    /// An empty manager with the default `stylist` class-name prefix.
    fn default() -> (r: StyleManager)
        ensures
            r@.prefix == "stylist"@,
            r@.entries == Seq::<SpecRegistryEntry>::empty(),
            r.wf(),
    {
        StyleManager::new("stylist")
    }
}

} // verus!

verus! {

/// After a registration, looking the returned handle up finds the entry the
/// transition created or refreshed: its class name is the one generated for
/// the sheet's content hash under the manager's prefix, and its CSS is the
/// sheet's rendering when the entry is new, or the text already registered
/// under that hash when it is not.
pub proof fn lemma_register_lookup(m: SpecManager, v: SpecSheet)
    requires
        sp_wf(m),
    ensures
        ({
            let (m2, h, mnt) = sp_register(m, v);
            &&& sp_lookup_class(m2, h) == Ok::<Seq<char>, RegistryError>(
                sp_class_name(m.prefix, sp_sheet_key(v)),
            )
            &&& match mnt {
                Some(q) => sp_lookup_css(m2, h) == Ok::<Seq<char>, RegistryError>(q.css),
                None => sp_lookup_css(m2, h) == Ok::<Seq<char>, RegistryError>(
                    m.entries[sp_find(m.entries, sp_sheet_key(v), 0)].css,
                ),
            }
        }),
{
    let k = sp_sheet_key(v);
    let i = sp_find(m.entries, k, 0);
    lemma_sp_find(m.entries, k, 0);
    let (m2, h, mnt) = sp_register(m, v);
    lemma_sp_find(m2.entries, k, 0);
    let f2 = sp_find(m2.entries, k, 0);
    if i < m.entries.len() {
        assert(m2.entries[i].key == k);
        if f2 < i {
            assert(m2.entries[f2].key == m.entries[f2].key);
            assert(false);
        }
        if f2 > i {
            assert(m2.entries[i].key != k);
            assert(false);
        }
        assert(f2 == i);
    } else {
        let n = m.entries.len() as int;
        assert(m2.entries[n].key == k);
        if f2 < n {
            assert(m2.entries[f2].key == m.entries[f2].key);
            assert(false);
        }
        if f2 > n {
            assert(m2.entries[n].key != k);
            assert(false);
        }
        assert(f2 == n);
    }
}

} // verus!
