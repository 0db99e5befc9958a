//! Directory entries: the record shown for each entry, the listing order,
//! and the total size of the files under a directory.

use vstd::prelude::*;
use vstd::relations::{sorted_by, total_ordering};
use vstd::seq_lib::{lemma_sorted_unique, to_multiset_build, to_multiset_insert};

verus! {

/// Counts kept for a directory entry.
#[derive(Clone, Copy, Debug, PartialEq, Eq, Structural)]
pub struct DirInfo {
    pub folders_num: u64,
    pub files_num: u64,
}

/// What the browser shows of one directory entry.
pub struct FileInfo {
    /// The entry's file name.
    pub path: String,
    pub byte_size: u64,
    /// Human-readable size; empty for anything but a regular file.
    pub human_size: String,
    pub owner_uid: u32,
    /// Owning group; left at 0 for anything but a regular file.
    pub owner_gid: u32,
    pub inode: u64,
    pub permissions: u32,
    pub nlinks: u64,
    pub dir_info: Option<DirInfo>,
}

impl Clone for FileInfo {
    fn clone(&self) -> (r: Self)
        ensures
            r == *self,
    {
        FileInfo {
            path: self.path.clone(),
            byte_size: self.byte_size,
            human_size: self.human_size.clone(),
            owner_uid: self.owner_uid,
            owner_gid: self.owner_gid,
            inode: self.inode,
            permissions: self.permissions,
            nlinks: self.nlinks,
            dir_info: self.dir_info,
        }
    }
}

/// What the file system reports of one directory entry.
pub struct EntryMetadata {
    /// The entry's file name.
    pub name: String,
    /// Whether the entry is a regular file.
    pub is_file: bool,
    pub len: u64,
    pub uid: u32,
    pub gid: u32,
    pub ino: u64,
    pub mode: u32,
    pub nlink: u64,
    /// The human-readable rendering of `len`.
    pub human_size: String,
}

/// The record kept for an entry: regular files keep their group and their
/// human-readable size, other entries get group 0 and an empty size text.
pub open spec fn info_matches(info: FileInfo, meta: EntryMetadata) -> bool {
    &&& info.path@ == meta.name@
    &&& info.byte_size == meta.len
    &&& info.human_size@ == (if meta.is_file { meta.human_size@ } else { Seq::<char>::empty() })
    &&& info.owner_uid == meta.uid
    &&& info.owner_gid == (if meta.is_file { meta.gid } else { 0 })
    &&& info.inode == meta.ino
    &&& info.permissions == meta.mode
    &&& info.nlinks == meta.nlink
    &&& info.dir_info is None
}

/// Builds the record of one entry (see [`info_matches`]).
pub fn file_info_from_metadata(meta: EntryMetadata) -> (r: FileInfo)
    ensures
        info_matches(r, meta),
{
    if meta.is_file {
        FileInfo {
            path: meta.name,
            byte_size: meta.len,
            human_size: meta.human_size,
            owner_uid: meta.uid,
            owner_gid: meta.gid,
            inode: meta.ino,
            permissions: meta.mode,
            nlinks: meta.nlink,
            dir_info: None,
        }
    } else {
        FileInfo {
            path: meta.name,
            byte_size: meta.len,
            human_size: String::new(),
            owner_uid: meta.uid,
            owner_gid: 0,
            inode: meta.ino,
            permissions: meta.mode,
            nlinks: meta.nlink,
            dir_info: None,
        }
    }
}

/// The code of `c` after ASCII lower-casing.
pub open spec fn lower_code(c: char) -> u32 {
    let u = c as u32;
    if 65 <= u <= 90 { (u + 32) as u32 } else { u }
}

/// The sort key of a name: its ASCII-lower-cased character codes.
pub open spec fn name_key(name: Seq<char>) -> Seq<u32> {
    name.map_values(|c: char| lower_code(c))
}

/// Lexicographic order on code sequences, which is the order of the
/// UTF-8 byte strings they encode.
pub open spec fn lex_lt(a: Seq<u32>, b: Seq<u32>) -> bool
    decreases a.len(),
{
    if a.len() == 0 {
        b.len() > 0
    } else if b.len() == 0 {
        false
    } else if a[0] < b[0] {
        true
    } else if a[0] > b[0] {
        false
    } else {
        lex_lt(a.drop_first(), b.drop_first())
    }
}

/// Entry `i` comes after entry `j` by name.
pub open spec fn key_of(s: Seq<FileInfo>, i: int) -> Seq<u32> {
    name_key(s[i].path@)
}

/// Entries ordered by case-insensitive (ASCII) name.
pub open spec fn sorted_by_name(s: Seq<FileInfo>) -> bool {
    forall|i: int, j: int| 0 <= i < j < s.len() ==> !lex_lt(key_of(s, j), key_of(s, i))
}

/// The sort keys of a sequence of entries, in order.
pub open spec fn name_keys(s: Seq<FileInfo>) -> Seq<Seq<u32>> {
    s.map_values(|e: FileInfo| name_key(e.path@))
}

/// The sort keys of the names of gathered metadata, in order.
pub open spec fn metadata_keys(s: Seq<EntryMetadata>) -> Seq<Seq<u32>> {
    s.map_values(|m: EntryMetadata| name_key(m.name@))
}

/// Key `a` sorts no later than key `b`.
pub open spec fn name_leq(a: Seq<u32>, b: Seq<u32>) -> bool {
    !lex_lt(b, a)
}

/// `out` holds the entries of `inp`, each once, at the places `perm` gives,
/// and entries with equal keys keep their relative order.
pub open spec fn stable_reorder(out: Seq<FileInfo>, inp: Seq<FileInfo>, perm: Seq<int>) -> bool {
    &&& out.len() == inp.len()
    &&& perm.len() == out.len()
    &&& forall|k: int| 0 <= k < perm.len() ==> 0 <= #[trigger] perm[k] < inp.len()
    &&& forall|k: int, l: int| 0 <= k < l < perm.len() ==> perm[k] != perm[l]
    &&& forall|k: int| 0 <= k < out.len() ==> #[trigger] out[k] == inp[perm[k]]
    &&& forall|k: int, l: int|
        0 <= k < l < out.len() && key_of(out, k) == key_of(out, l) ==> perm[k] < perm[l]
}

proof fn lemma_lex_asym(a: Seq<u32>, b: Seq<u32>)
    ensures
        lex_lt(a, b) ==> !lex_lt(b, a),
    decreases a.len(),
{
    if a.len() > 0 && b.len() > 0 && a[0] == b[0] {
        lemma_lex_asym(a.drop_first(), b.drop_first());
    }
}

proof fn lemma_lex_trans(a: Seq<u32>, b: Seq<u32>, c: Seq<u32>)
    requires
        lex_lt(a, b),
        lex_lt(b, c),
    ensures
        lex_lt(a, c),
    decreases a.len(),
{
    if a.len() > 0 && b.len() > 0 && c.len() > 0 && a[0] == b[0] && b[0] == c[0] {
        lemma_lex_trans(a.drop_first(), b.drop_first(), c.drop_first());
    }
}

proof fn lemma_lex_total(a: Seq<u32>, b: Seq<u32>)
    ensures
        lex_lt(a, b) || lex_lt(b, a) || a == b,
    decreases a.len(),
{
    if a.len() > 0 && b.len() > 0 && a[0] == b[0] {
        lemma_lex_total(a.drop_first(), b.drop_first());
        if a.drop_first() == b.drop_first() {
            assert(a =~= seq![a[0]] + a.drop_first());
            assert(b =~= seq![b[0]] + b.drop_first());
        }
    } else if a.len() == 0 && b.len() == 0 {
        assert(a =~= b);
    }
}

fn lex_less(a: &Vec<u32>, b: &Vec<u32>) -> (r: bool)
    ensures
        r == lex_lt(a@, b@),
{
    let mut i: usize = 0;
    assert(a@.skip(0) =~= a@);
    assert(b@.skip(0) =~= b@);
    while i < a.len() && i < b.len() && a[i] == b[i]
        invariant
            i <= a.len(),
            i <= b.len(),
            lex_lt(a@, b@) == lex_lt(a@.skip(i as int), b@.skip(i as int)),
        decreases a.len() - i,
    {
        proof {
            let x = a@.skip(i as int);
            let y = b@.skip(i as int);
            assert(x.drop_first() =~= a@.skip(i + 1));
            assert(y.drop_first() =~= b@.skip(i + 1));
        }
        i = i + 1;
    }
    proof {
        let x = a@.skip(i as int);
        let y = b@.skip(i as int);
        if i < a.len() && i < b.len() {
            assert(x[0] == a@[i as int]);
            assert(y[0] == b@[i as int]);
        }
    }
    if i == a.len() {
        i < b.len()
    } else if i == b.len() {
        false
    } else {
        a[i] < b[i]
    }
}

fn name_key_of(name: &String) -> (r: Vec<u32>)
    ensures
        r@ == name_key(name@),
{
    let s = name.as_str();
    let n = s.unicode_len();
    let mut r: Vec<u32> = Vec::new();
    let mut i: usize = 0;
    while i < n
        invariant
            n == s@.len(),
            s@ == name@,
            i <= n,
            r@ =~= name_key(s@.take(i as int)),
        decreases n - i,
    {
        let c = s.get_char(i);
        let u = c as u32;
        let l = if 65 <= u && u <= 90 { u + 32 } else { u };
        r.push(l);
        i = i + 1;
        assert(s@.take(i as int) =~= s@.take(i - 1).push(c));
    }
    assert(s@.take(n as int) =~= s@);
    r
}

/// Orders entries by case-insensitive name as a stable sort does.
pub fn sort_by_name(entries: Vec<FileInfo>) -> (r: Vec<FileInfo>)
    ensures
        sorted_by_name(r@),
        exists|perm: Seq<int>| stable_reorder(r@, entries@, perm),
        name_keys(r@).to_multiset() == name_keys(entries@).to_multiset(),
{
    let ghost inp = entries@;
    let mut rest = entries;
    let mut out: Vec<FileInfo> = Vec::new();
    let mut keys: Vec<Vec<u32>> = Vec::new();
    let ghost mut perm: Seq<int> = Seq::empty();
    let ghost mut done: int = 0;
    assert(name_keys(out@) =~= name_keys(inp.take(0)));
    while rest.len() > 0
        invariant
            0 <= done <= inp.len(),
            rest@ == inp.skip(done),
            out@.len() == done,
            keys@.len() == done,
            forall|k: int| 0 <= k < done ==> #[trigger] keys@[k]@ == key_of(out@, k),
            sorted_by_name(out@),
            name_keys(out@).to_multiset() == name_keys(inp.take(done)).to_multiset(),
            perm.len() == done,
            forall|k: int| 0 <= k < done ==> 0 <= #[trigger] perm[k] < done,
            forall|k: int, l: int| 0 <= k < l < done ==> perm[k] != perm[l],
            forall|k: int| 0 <= k < done ==> #[trigger] out@[k] == inp[perm[k]],
            forall|k: int, l: int|
                0 <= k < l < done && key_of(out@, k) == key_of(out@, l) ==> perm[k] < perm[l],
        decreases rest.len(),
    {
        let e = rest.remove(0);
        assert(e == inp[done]);
        assert(rest@ =~= inp.skip(done + 1));
        let ke = name_key_of(&e.path);
        let mut p: usize = out.len();
        while p > 0 && lex_less(&ke, &keys[p - 1])
            invariant
                p <= out@.len(),
                out@.len() == keys@.len(),
                forall|k: int| 0 <= k < out@.len() ==> #[trigger] keys@[k]@ == key_of(out@, k),
                forall|q: int| p <= q < out@.len() ==> lex_lt(ke@, #[trigger] key_of(out@, q)),
            decreases p,
        {
            p = p - 1;
        }
        let ghost old_out = out@;
        let ghost old_perm = perm;
        let ghost old_keys = keys@;
        proof {
            // every entry before the gap sorts no later than the new one
            assert forall|q: int| 0 <= q < p implies !lex_lt(ke@, #[trigger] key_of(old_out, q)) by {
                let kp = key_of(old_out, p - 1);
                let kq = key_of(old_out, q);
                assert(!lex_lt(ke@, kp));
                if q < p - 1 {
                    assert(!lex_lt(kp, kq));
                    lemma_lex_total(kp, ke@);
                    if lex_lt(ke@, kq) {
                        if lex_lt(kp, ke@) {
                            lemma_lex_trans(kp, ke@, kq);
                        }
                    }
                }
            }
        }
        out.insert(p, e);
        keys.insert(p, ke);
        proof {
            perm = old_perm.insert(p as int, done);
            let o = out@;
            assert(name_keys(o) =~= name_keys(old_out).insert(p as int, ke@));
            to_multiset_insert(name_keys(old_out), p as int, ke@);
            assert(name_keys(inp.take(done + 1)) =~= name_keys(inp.take(done)).push(ke@));
            to_multiset_build(name_keys(inp.take(done)), ke@);
            assert(o == old_out.insert(p as int, inp[done]));
            assert forall|k: int| 0 <= k < done + 1 implies #[trigger] keys@[k]@ == key_of(o, k) by {
                if k < p {
                } else if k == p {
                } else {
                    assert(keys@[k] == old_keys[k - 1]);
                    assert(o[k] == old_out[k - 1]);
                }
            }
            assert forall|i: int, j: int| 0 <= i < j < o.len() implies !lex_lt(
                key_of(o, j),
                key_of(o, i),
            ) by {
                if j < p {
                    assert(o[i] == old_out[i] && o[j] == old_out[j]);
                    assert(key_of(o, i) == key_of(old_out, i));
                    assert(key_of(o, j) == key_of(old_out, j));
                } else if i > p {
                    assert(o[i] == old_out[i - 1] && o[j] == old_out[j - 1]);
                    assert(key_of(o, i) == key_of(old_out, i - 1));
                    assert(key_of(o, j) == key_of(old_out, j - 1));
                } else if i == p {
                    assert(o[j] == old_out[j - 1]);
                    assert(key_of(o, j) == key_of(old_out, j - 1));
                    assert(key_of(o, i) == ke@);
                    assert(lex_lt(ke@, key_of(old_out, j - 1)));
                    lemma_lex_asym(ke@, key_of(old_out, j - 1));
                } else if j == p {
                    assert(o[i] == old_out[i]);
                    assert(key_of(o, i) == key_of(old_out, i));
                    assert(key_of(o, j) == ke@);
                    assert(!lex_lt(ke@, key_of(old_out, i)));
                } else {
                    assert(o[i] == old_out[i] && o[j] == old_out[j - 1]);
                    assert(key_of(o, i) == key_of(old_out, i));
                    assert(key_of(o, j) == key_of(old_out, j - 1));
                }
            }
            assert forall|k: int| 0 <= k < done + 1 implies 0 <= #[trigger] perm[k] < done + 1 by {}
            assert forall|k: int| 0 <= k < done + 1 implies #[trigger] o[k] == inp[perm[k]] by {
                if k < p {
                } else if k == p {
                } else {
                    assert(o[k] == old_out[k - 1]);
                }
            }
            assert forall|k: int, l: int| 0 <= k < l < done + 1 implies perm[k] != perm[l] by {
                if k < p && l < p {
                } else if k > p && l > p {
                    assert(perm[k] == old_perm[k - 1] && perm[l] == old_perm[l - 1]);
                } else if k == p {
                    assert(perm[l] == old_perm[l - 1]);
                } else if l == p {
                } else {
                    assert(perm[l] == old_perm[l - 1]);
                }
            }
            assert forall|k: int, l: int|
                0 <= k < l < done + 1 && key_of(o, k) == key_of(o, l) implies perm[k] < perm[l] by {
                if k < p && l < p {
                    assert(o[k] == old_out[k] && o[l] == old_out[l]);
                    assert(key_of(o, k) == key_of(old_out, k));
                    assert(key_of(o, l) == key_of(old_out, l));
                    assert(perm[k] == old_perm[k] && perm[l] == old_perm[l]);
                } else if k > p && l > p {
                    assert(o[k] == old_out[k - 1] && o[l] == old_out[l - 1]);
                    assert(key_of(o, k) == key_of(old_out, k - 1));
                    assert(key_of(o, l) == key_of(old_out, l - 1));
                    assert(perm[k] == old_perm[k - 1] && perm[l] == old_perm[l - 1]);
                } else if k == p {
                    assert(o[l] == old_out[l - 1]);
                    assert(key_of(o, l) == key_of(old_out, l - 1));
                    assert(key_of(o, k) == ke@);
                    assert(lex_lt(ke@, key_of(old_out, l - 1)));
                    lemma_lex_asym(ke@, key_of(old_out, l - 1));
                    assert(false);
                } else if l == p {
                    assert(perm[l] == done);
                    assert(perm[k] == old_perm[k]);
                } else {
                    assert(o[k] == old_out[k]);
                    assert(perm[k] == old_perm[k] && perm[l] == old_perm[l - 1]);
                    assert(key_of(o, k) == key_of(old_out, k));
                    assert(key_of(o, l) == key_of(old_out, l - 1));
                }
            }
            done = done + 1;
        }
    }
    assert(stable_reorder(out@, inp, perm));
    assert(inp.take(done) =~= inp);
    out
}

/// `r` is the listing of the gathered `entries`: one record per entry (see
/// [`info_matches`]), ordered by case-insensitive name as a stable sort
/// orders them, with the keys of the gathered names.
pub open spec fn is_listing_of(r: Seq<FileInfo>, entries: Seq<EntryMetadata>) -> bool {
    &&& sorted_by_name(r)
    &&& name_keys(r).to_multiset() == metadata_keys(entries).to_multiset()
    &&& exists|infos: Seq<FileInfo>, perm: Seq<int>|
        {
            &&& infos.len() == entries.len()
            &&& forall|k: int| 0 <= k < infos.len() ==> info_matches(#[trigger] infos[k], entries[k])
            &&& stable_reorder(r, infos, perm)
        }
}

/// The listing of a directory (see [`is_listing_of`]).
pub fn listing_from_metadata(entries: Vec<EntryMetadata>) -> (r: Vec<FileInfo>)
    ensures
        is_listing_of(r@, entries@),
{
    let ghost inp = entries@;
    let mut rest = entries;
    let mut infos: Vec<FileInfo> = Vec::new();
    let ghost mut done: int = 0;
    while rest.len() > 0
        invariant
            0 <= done <= inp.len(),
            rest@ == inp.skip(done),
            infos@.len() == done,
            forall|k: int| 0 <= k < done ==> info_matches(#[trigger] infos@[k], inp[k]),
        decreases rest.len(),
    {
        let m = rest.remove(0);
        assert(rest@ =~= inp.skip(done + 1));
        infos.push(file_info_from_metadata(m));
        proof {
            done = done + 1;
        }
    }
    let ghost built = infos@;
    let r = sort_by_name(infos);
    let ghost perm = choose|perm: Seq<int>| stable_reorder(r@, built, perm);
    assert(stable_reorder(r@, built, perm));
    assert(name_keys(built) =~= metadata_keys(inp));
    r
}

/// One entry met while walking a directory tree: whether it is a regular
/// file, and its length when its metadata could be read.
#[derive(Clone, Copy, Debug, PartialEq, Eq, Structural)]
pub struct SizeEntry {
    pub is_file: bool,
    pub len: Option<u64>,
}

/// The bytes an entry adds to a directory's size: the length of a regular
/// file whose metadata was read, nothing otherwise.
pub open spec fn counted_bytes(e: SizeEntry) -> nat {
    if e.is_file && e.len is Some {
        e.len->0 as nat
    } else {
        0
    }
}

/// The total size of the regular files among `entries`.
pub open spec fn total_bytes(entries: Seq<SizeEntry>) -> nat
    decreases entries.len(),
{
    if entries.len() == 0 {
        0
    } else {
        total_bytes(entries.drop_last()) + counted_bytes(entries.last())
    }
}

proof fn lemma_total_prefix(entries: Seq<SizeEntry>, i: int)
    requires
        0 <= i <= entries.len(),
    ensures
        total_bytes(entries.take(i)) <= total_bytes(entries),
    decreases entries.len() - i,
{
    if i < entries.len() {
        lemma_total_prefix(entries, i + 1);
        assert(entries.take(i + 1).drop_last() =~= entries.take(i));
    } else {
        assert(entries.take(i) =~= entries);
    }
}

/// The total size of the regular files under a directory, or `None` when
/// it does not fit in 64 bits.
pub fn total_file_bytes(entries: &Vec<SizeEntry>) -> (r: Option<u64>)
    ensures
        r == (if total_bytes(entries@) <= u64::MAX {
            Some(total_bytes(entries@) as u64)
        } else {
            None::<u64>
        }),
{
    let mut acc: u64 = 0;
    let mut i: usize = 0;
    while i < entries.len()
        invariant
            i <= entries.len(),
            acc == total_bytes(entries@.take(i as int)),
        decreases entries.len() - i,
    {
        let e = entries[i];
        assert(entries@.take(i + 1).drop_last() =~= entries@.take(i as int));
        if e.is_file {
            match e.len {
                Some(n) => {
                    match acc.checked_add(n) {
                        Some(s) => {
                            acc = s;
                        },
                        None => {
                            proof {
                                lemma_total_prefix(entries@, i + 1);
                            }
                            return None;
                        },
                    }
                },
                None => {},
            }
        }
        i = i + 1;
    }
    assert(entries@.take(i as int) =~= entries@);
    Some(acc)
}

/// The sizes of two stretches of a walk add up.
pub proof fn lemma_total_concat(a: Seq<SizeEntry>, b: Seq<SizeEntry>)
    ensures
        total_bytes(a + b) == total_bytes(a) + total_bytes(b),
    decreases b.len(),
{
    if b.len() == 0 {
        assert(a + b =~= a);
    } else {
        lemma_total_concat(a, b.drop_last());
        assert((a + b).drop_last() =~= a + b.drop_last());
        assert((a + b).last() == b.last());
    }
}

/// The walks of several subtrees, one after the other.
pub open spec fn joined_walks(walks: Seq<Seq<SizeEntry>>) -> Seq<SizeEntry>
    decreases walks.len(),
{
    if walks.len() == 0 {
        Seq::empty()
    } else {
        joined_walks(walks.drop_last()) + walks.last()
    }
}

/// The sum of the sizes of several walks.
pub open spec fn sum_of_totals(walks: Seq<Seq<SizeEntry>>) -> nat
    decreases walks.len(),
{
    if walks.len() == 0 {
        0
    } else {
        sum_of_totals(walks.drop_last()) + total_bytes(walks.last())
    }
}

/// A directory's size is the sum of its children's sizes: its walk is the
/// directory itself (no regular file) followed by the walks of its
/// children, and the total of that is the sum of the children's totals.
pub proof fn lemma_total_of_subtrees(dir: SizeEntry, walks: Seq<Seq<SizeEntry>>)
    requires
        !dir.is_file,
    ensures
        total_bytes(seq![dir] + joined_walks(walks)) == sum_of_totals(walks),
    decreases walks.len(),
{
    lemma_total_concat(seq![dir], joined_walks(walks));
    let none = Seq::<SizeEntry>::empty();
    assert(total_bytes(none) == 0);
    assert(seq![dir].drop_last() =~= none);
    assert(seq![dir].last() == dir);
    assert(total_bytes(seq![dir]) == 0);
    lemma_joined_total(walks);
}

proof fn lemma_joined_total(walks: Seq<Seq<SizeEntry>>)
    ensures
        total_bytes(joined_walks(walks)) == sum_of_totals(walks),
    decreases walks.len(),
{
    if walks.len() > 0 {
        lemma_joined_total(walks.drop_last());
        lemma_total_concat(joined_walks(walks.drop_last()), walks.last());
    }
}

/// A new regular file of `n` bytes, met anywhere in the walk, adds `n` to
/// the total.
pub proof fn lemma_total_new_file(before: Seq<SizeEntry>, after: Seq<SizeEntry>, n: u64)
    ensures
        total_bytes(before + seq![SizeEntry { is_file: true, len: Some(n) }] + after) == total_bytes(
            before + after,
        ) + n,
{
    let f = seq![SizeEntry { is_file: true, len: Some(n) }];
    lemma_total_concat(before + f, after);
    lemma_total_concat(before, f);
    lemma_total_concat(before, after);
    let none = Seq::<SizeEntry>::empty();
    assert(total_bytes(none) == 0);
    assert(f.drop_last() =~= none);
    assert(total_bytes(f) == n);
    assert(before + f + after == (before + f) + after);
}

proof fn lemma_name_leq_total()
    ensures
        total_ordering(|a: Seq<u32>, b: Seq<u32>| name_leq(a, b)),
{
    let leq = |a: Seq<u32>, b: Seq<u32>| name_leq(a, b);
    assert forall|x: Seq<u32>| #[trigger] leq(x, x) by {
        lemma_lex_asym(x, x);
    }
    assert forall|x: Seq<u32>, y: Seq<u32>| #[trigger] leq(x, y) && #[trigger] leq(y, x) implies x
        == y by {
        lemma_lex_total(x, y);
    }
    assert forall|x: Seq<u32>, y: Seq<u32>, z: Seq<u32>| #[trigger] leq(x, y) && #[trigger] leq(
        y,
        z,
    ) implies leq(x, z) by {
        lemma_lex_total(x, y);
        if lex_lt(z, x) {
            if lex_lt(x, y) {
                lemma_lex_trans(z, x, y);
            }
        }
    }
    assert forall|x: Seq<u32>, y: Seq<u32>| #[trigger] leq(x, y) || #[trigger] leq(y, x) by {
        lemma_lex_asym(x, y);
    }
}

/// The order of a listing's names does not depend on the order in which
/// the entries were gathered: two listings of the same names, gathered in
/// any orders, have the same sequence of keys. (Entries whose names are
/// equal but for ASCII case may still come out in either order.)
pub proof fn lemma_listing_order_independent(
    m1: Seq<EntryMetadata>,
    m2: Seq<EntryMetadata>,
    r1: Seq<FileInfo>,
    r2: Seq<FileInfo>,
)
    requires
        metadata_keys(m1).to_multiset() == metadata_keys(m2).to_multiset(),
        is_listing_of(r1, m1),
        is_listing_of(r2, m2),
    ensures
        name_keys(r1) == name_keys(r2),
{
    let leq = |a: Seq<u32>, b: Seq<u32>| name_leq(a, b);
    lemma_name_leq_total();
    assert(sorted_by(name_keys(r1), leq)) by {
        assert forall|i: int, j: int| 0 <= i < j < name_keys(r1).len() implies #[trigger] leq(
            name_keys(r1)[i],
            name_keys(r1)[j],
        ) by {
            assert(!lex_lt(key_of(r1, j), key_of(r1, i)));
        }
    }
    assert(sorted_by(name_keys(r2), leq)) by {
        assert forall|i: int, j: int| 0 <= i < j < name_keys(r2).len() implies #[trigger] leq(
            name_keys(r2)[i],
            name_keys(r2)[j],
        ) by {
            assert(!lex_lt(key_of(r2, j), key_of(r2, i)));
        }
    }
    lemma_sorted_unique(name_keys(r1), name_keys(r2), leq);
}

/// A record keeps the entry's name, size, owner, inode, mode and link
/// count, whatever kind of entry it is; only the group and the size text
/// depend on whether it is a regular file.
pub proof fn lemma_record_keeps_metadata(info: FileInfo, meta: EntryMetadata)
    requires
        info_matches(info, meta),
    ensures
        info.path@ == meta.name@,
        info.byte_size == meta.len,
        info.owner_uid == meta.uid,
        info.inode == meta.ino,
        info.permissions == meta.mode,
        info.nlinks == meta.nlink,
        info.dir_info is None,
        meta.is_file ==> info.owner_gid == meta.gid && info.human_size@ == meta.human_size@,
        !meta.is_file ==> info.owner_gid == 0 && info.human_size@.len() == 0,
{
}

/// Two entries that differ only in being a regular file or not get records
/// that agree on everything but the group and the size text.
pub proof fn lemma_kind_changes_only_group_and_size(
    a: FileInfo,
    b: FileInfo,
    meta: EntryMetadata,
    is_file: bool,
)
    requires
        info_matches(a, meta),
        info_matches(b, EntryMetadata { is_file, ..meta }),
    ensures
        a.path@ == b.path@,
        a.byte_size == b.byte_size,
        a.owner_uid == b.owner_uid,
        a.inode == b.inode,
        a.permissions == b.permissions,
        a.nlinks == b.nlinks,
        a.dir_info == b.dir_info,
{
}

/// The sort key of a name covers the whole name: one code per character,
/// the character's own code, with 'A' to 'Z' moved to 'a' to 'z'.
pub proof fn lemma_name_key_whole_name(name: Seq<char>)
    ensures
        name_key(name).len() == name.len(),
        forall|k: int|
            0 <= k < name.len() ==> #[trigger] name_key(name)[k] == (if ('A' as u32) <= (
            name[k] as u32) <= ('Z' as u32) {
                (name[k] as u32 + 32) as u32
            } else {
                name[k] as u32
            }),
{
    assert(('A' as u32) == 65 && ('Z' as u32) == 90);
}

/// The key of a name made of two parts is the key of the first part
/// followed by the key of the second.
pub proof fn lemma_name_key_concat(a: Seq<char>, b: Seq<char>)
    ensures
        name_key(a + b) == name_key(a) + name_key(b),
{
    assert(name_key(a + b) =~= name_key(a) + name_key(b));
}

} // verus!
